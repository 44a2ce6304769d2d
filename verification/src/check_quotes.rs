use vstd::prelude::*;
use crate::text::chars_of;

verus! {

/// How many times `c` occurs in `s`.
pub open spec fn count_char(s: Seq<char>, c: char) -> nat
    decreases s.len(),
{
    if s.len() == 0 {
        0
    } else {
        count_char(s.drop_last(), c) + if s.last() == c {
            1nat
        } else {
            0nat
        }
    }
}

/// `count_char` counts the occurrences: it is the length of `s` with
/// every character other than `c` left out.
pub proof fn law_count_char_counts(s: Seq<char>, c: char)
    ensures
        count_char(s, c) == s.filter(|x: char| x == c).len(),
    decreases s.len(),
{
    reveal(Seq::filter);
    if s.len() > 0 {
        law_count_char_counts(s.drop_last(), c);
    }
}

/// Whether `s` holds an even number of double quotes and an even number
/// of single quotes.
pub fn quotes_balanced(s: &str) -> (r: bool)
    ensures
        r == (count_char(s@, '"') % 2 == 0 && count_char(s@, '\'') % 2 == 0),
{
    let cs = chars_of(s);
    let mut dq: usize = 0;
    let mut sq: usize = 0;
    let mut i: usize = 0;
    while i < cs.len()
        invariant
            cs@ == s@,
            i <= cs.len(),
            dq == count_char(cs@.take(i as int), '"'),
            sq == count_char(cs@.take(i as int), '\''),
            dq <= i,
            sq <= i,
        decreases cs.len() - i,
    {
        assert(cs@.take(i + 1).drop_last() =~= cs@.take(i as int));
        if cs[i] == '"' {
            dq = dq + 1;
        }
        if cs[i] == '\'' {
            sq = sq + 1;
        }
        i = i + 1;
    }
    assert(cs@.take(i as int) =~= s@);
    dq % 2 == 0 && sq % 2 == 0
}

} // verus!
