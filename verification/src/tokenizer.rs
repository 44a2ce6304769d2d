use vstd::prelude::*;
use crate::text::{is_space, is_whitespace, chars_of, push_char, string_of};

verus! {

/// The quoting mode the tokenizer is in.
#[derive(Clone, Copy, PartialEq, Eq, Structural, Debug)]
pub enum Mode {
    Normal,
    Single,
    Double,
}

/// The tokenizer's state after some prefix of the input: the finished
/// commands, the finished words of the current command, the word being
/// read, the quoting mode, and whether the previous character was a
/// backslash that escapes the next one.
pub struct TokState {
    pub cmds: Seq<Seq<Seq<char>>>,
    pub args: Seq<Seq<char>>,
    pub tok: Seq<char>,
    pub mode: Mode,
    pub escaped: bool,
}

pub open spec fn init_state() -> TokState {
    TokState { cmds: seq![], args: seq![], tok: seq![], mode: Mode::Normal, escaped: false }
}

/// Ends the word being read, if there is one.
pub open spec fn flush_tok(st: TokState) -> TokState {
    if st.tok.len() > 0 {
        TokState { args: st.args.push(st.tok), tok: seq![], ..st }
    } else {
        st
    }
}

/// Ends the current command, if it has any word.
pub open spec fn flush_args(st: TokState) -> TokState {
    if st.args.len() > 0 {
        TokState { cmds: st.cmds.push(st.args), args: seq![], ..st }
    } else {
        st
    }
}

pub open spec fn with_tok(st: TokState, tok: Seq<char>) -> TokState {
    TokState { tok: tok, ..st }
}

pub open spec fn with_mode(st: TokState, mode: Mode) -> TokState {
    TokState { mode: mode, ..st }
}

pub open spec fn with_escaped(st: TokState, escaped: bool) -> TokState {
    TokState { escaped: escaped, ..st }
}

/// The character `c` read right after an escaping backslash.
pub open spec fn step_escaped(st: TokState, c: char) -> TokState {
    let tok = match st.mode {
        Mode::Normal => st.tok.push(c),
        Mode::Double => if c == '"' || c == '\\' {
            st.tok.push(c)
        } else {
            st.tok.push('\\').push(c)
        },
        Mode::Single => st.tok.push('\\').push(c),
    };
    TokState { tok: tok, escaped: false, ..st }
}

/// One step of the tokenizer on the non-empty input `s` from state `st`:
/// the next state and how many characters it reads (two for `&&`, else
/// one). Outside quotes a backslash escapes the next character, quotes
/// open a quoted span, whitespace ends a word and `&&` ends a command;
/// inside single quotes everything but the closing quote is literal;
/// inside double quotes a backslash escapes the next character.
pub open spec fn step(st: TokState, s: Seq<char>) -> (TokState, int) {
    let c = s[0];
    if st.escaped {
        (step_escaped(st, c), 1)
    } else {
        match st.mode {
            Mode::Normal => {
                if c == '\\' {
                    (with_escaped(st, true), 1)
                } else if c == '\'' {
                    (with_mode(st, Mode::Single), 1)
                } else if c == '"' {
                    (with_mode(st, Mode::Double), 1)
                } else if c == '&' && s.len() > 1 && s[1] == '&' {
                    (flush_args(flush_tok(st)), 2)
                } else if is_space(c) {
                    (flush_tok(st), 1)
                } else {
                    (with_tok(st, st.tok.push(c)), 1)
                }
            },
            Mode::Single => {
                if c == '\'' {
                    (with_mode(st, Mode::Normal), 1)
                } else {
                    (with_tok(st, st.tok.push(c)), 1)
                }
            },
            Mode::Double => {
                if c == '\\' {
                    (with_escaped(st, true), 1)
                } else if c == '"' {
                    (with_mode(st, Mode::Normal), 1)
                } else {
                    (with_tok(st, st.tok.push(c)), 1)
                }
            },
        }
    }
}

/// The state after reading all of `s` from state `st`.
pub open spec fn tokenize(st: TokState, s: Seq<char>) -> TokState
    decreases s.len(),
{
    if s.len() == 0 {
        st
    } else {
        let (next, k) = step(st, s);
        tokenize(next, s.skip(k))
    }
}

/// The commands once the input has ended in state `st`.
pub open spec fn finish(st: TokState) -> Seq<Seq<Seq<char>>> {
    flush_args(flush_tok(st)).cmds
}

/// A state in which the input may end: no pending escape, no open quote.
pub open spec fn complete(st: TokState) -> bool {
    !st.escaped && st.mode == Mode::Normal
}

/// What tokenizing `s` gives: the commands, each a list of words, or
/// `Err` where `s` ends inside quotes or after an escaping backslash.
pub open spec fn tokens_of(s: Seq<char>) -> Result<Seq<Seq<Seq<char>>>, ()> {
    let st = tokenize(init_state(), s);
    if complete(st) {
        Ok(finish(st))
    } else {
        Err(())
    }
}

/// No word is empty and no command is empty.
pub open spec fn well_formed_cmds(cmds: Seq<Seq<Seq<char>>>) -> bool {
    forall|i: int|
        0 <= i < cmds.len() ==> {
            &&& #[trigger] cmds[i].len() > 0
            &&& forall|j: int| 0 <= j < cmds[i].len() ==> #[trigger] cmds[i][j].len() > 0
        }
}

pub open spec fn well_formed_state(st: TokState) -> bool {
    &&& well_formed_cmds(st.cmds)
    &&& forall|j: int| 0 <= j < st.args.len() ==> #[trigger] st.args[j].len() > 0
    &&& (st.escaped ==> st.mode != Mode::Single)
}

/// One step reads one or two characters, and keeps a state well formed.
proof fn lemma_step_well_formed(st: TokState, s: Seq<char>)
    requires
        s.len() > 0,
    ensures
        well_formed_state(st) ==> well_formed_state(step(st, s).0),
        1 <= step(st, s).1 <= s.len(),
{
}

/// Every state reached from a well-formed one is well formed.
pub proof fn lemma_tokenize_well_formed(st: TokState, s: Seq<char>)
    requires
        well_formed_state(st),
    ensures
        well_formed_state(tokenize(st, s)),
        well_formed_state(flush_args(flush_tok(tokenize(st, s)))),
    decreases s.len(),
{
    if s.len() > 0 {
        lemma_step_well_formed(st, s);
        let (next, k) = step(st, s);
        lemma_tokenize_well_formed(next, s.skip(k));
    }
}

/// Reading `a` and then `b` is reading `a + b`, unless an `&&` stands
/// across the join (the last character of `a` and the first of `b` are
/// both `&`).
pub proof fn lemma_tokenize_append(st: TokState, a: Seq<char>, b: Seq<char>)
    requires
        !(a.len() > 0 && b.len() > 0 && a.last() == '&' && b[0] == '&'),
    ensures
        tokenize(st, a + b) == tokenize(tokenize(st, a), b),
    decreases a.len(),
{
    let ab = a + b;
    if a.len() == 0 {
        assert(ab =~= b);
    } else {
        lemma_step_well_formed(st, a);
        let (next, k) = step(st, a);
        assert(ab[0] == a[0]);
        if a.len() > 1 {
            assert(ab[1] == a[1]);
        }
        assert(step(st, ab) == step(st, a));
        assert(ab.skip(k) =~= a.skip(k) + b);
        if a.skip(k).len() > 0 {
            assert(a.skip(k).last() == a.last());
        }
        lemma_tokenize_append(next, a.skip(k), b);
    }
}

pub open spec fn with_cmds(st: TokState, cmds: Seq<Seq<Seq<char>>>) -> TokState {
    TokState { cmds: cmds, ..st }
}

/// Commands finished before reading `s` stay in front of those that
/// reading `s` finishes.
pub proof fn lemma_tokenize_cmds_prefix(st: TokState, pre: Seq<Seq<Seq<char>>>, s: Seq<char>)
    ensures
        tokenize(with_cmds(st, pre + st.cmds), s) == with_cmds(
            tokenize(st, s),
            pre + tokenize(st, s).cmds,
        ),
    decreases s.len(),
{
    if s.len() > 0 {
        lemma_step_well_formed(st, s);
        let (next, k) = step(st, s);
        let pst = with_cmds(st, pre + st.cmds);
        if st.args.len() > 0 || flush_tok(st).args.len() > 0 {
            assert((pre + st.cmds).push(flush_tok(st).args) =~= pre + st.cmds.push(
                flush_tok(st).args,
            ));
        }
        assert(step(pst, s).0 == with_cmds(next, pre + next.cmds));
        lemma_tokenize_cmds_prefix(next, pre, s.skip(k));
    } else {
        assert(tokenize(with_cmds(st, pre + st.cmds), s) == with_cmds(st, pre + st.cmds));
    }
}

/// `&&` chains commands: where `a` tokenizes completely, `a && b` gives
/// the commands of `a` followed by those of `b`, and is incomplete
/// exactly where `b` is.
pub proof fn law_and_chains_commands(a: Seq<char>, b: Seq<char>)
    requires
        tokens_of(a) is Ok,
    ensures
        tokens_of(a + seq![' ', '&', '&', ' '] + b) == match tokens_of(b) {
            Ok(cb) => Ok(tokens_of(a)->Ok_0 + cb),
            Err(()) => Err::<Seq<Seq<Seq<char>>>, ()>(()),
        },
{
    let sep = seq![' ', '&', '&', ' '];
    let r = sep + b;
    assert(a + sep + b =~= a + r);
    lemma_tokenize_append(init_state(), a, r);
    let sa = tokenize(init_state(), a);
    let s1 = flush_tok(sa);
    let s2 = flush_args(flush_tok(s1));
    assert(r[0] == ' ');
    assert(step(sa, r) == (s1, 1int));
    assert(r.skip(1)[0] == '&' && r.skip(1)[1] == '&');
    assert(step(s1, r.skip(1)) == (s2, 2int));
    assert(r.skip(1).skip(2)[0] == ' ');
    assert(step(s2, r.skip(1).skip(2)) == (flush_tok(s2), 1int));
    assert(flush_tok(s2) == s2);
    assert(r.skip(1).skip(2).skip(1) =~= b);
    assert(tokenize(sa, r) == tokenize(s1, r.skip(1)));
    assert(tokenize(s1, r.skip(1)) == tokenize(s2, r.skip(1).skip(2)));
    assert(tokenize(s2, r.skip(1).skip(2)) == tokenize(s2, b));
    let c = finish(sa);
    assert(s2.args =~= Seq::<Seq<char>>::empty());
    assert(s2.tok =~= Seq::<char>::empty());
    assert(s2 == with_cmds(init_state(), c));
    assert(c + init_state().cmds =~= c);
    lemma_tokenize_cmds_prefix(init_state(), c, b);
    let tb = tokenize(init_state(), b);
    let pt = with_cmds(tb, c + tb.cmds);
    if tb.tok.len() > 0 {
        assert((c + tb.cmds).push(flush_tok(tb).args) =~= c + tb.cmds.push(flush_tok(tb).args));
    } else if tb.args.len() > 0 {
        assert((c + tb.cmds).push(tb.args) =~= c + tb.cmds.push(tb.args));
    }
    assert(finish(pt) =~= c + finish(tb));
}

/// Splits `input` into commands separated by `&&`, each a list of words,
/// honouring quotes and backslash escapes. Fails with `"Incomplete"`
/// where the input ends inside quotes or right after an escaping
/// backslash.
pub fn parse_tokens(input: &str) -> (r: Result<Vec<Vec<String>>, String>)
    ensures
        match tokens_of(input@) {
            Ok(cmds) => r matches Ok(v) && v.deep_view() == cmds,
            Err(_) => r matches Err(e) && e@ == "Incomplete"@,
        },
        r matches Ok(v) ==> well_formed_cmds(v.deep_view()),
{
    let cs = chars_of(input);
    tokenize_chars(&cs)
}

/// `parse_tokens` on a sequence of characters.
pub fn tokenize_chars(cs: &Vec<char>) -> (r: Result<Vec<Vec<String>>, String>)
    ensures
        match tokens_of(cs@) {
            Ok(cmds) => r matches Ok(v) && v.deep_view() == cmds,
            Err(_) => r matches Err(e) && e@ == "Incomplete"@,
        },
        r matches Ok(v) ==> well_formed_cmds(v.deep_view()),
{
    let mut commands: Vec<Vec<String>> = Vec::new();
    let mut current_args: Vec<String> = Vec::new();
    let mut current_token: String = String::new();
    let mut mode = Mode::Normal;
    let mut escaped = false;
    let n = cs.len();
    let mut i: usize = 0;
    let ghost s = cs@;

    proof {
        assert(s.skip(0) =~= s);
        assert(commands.deep_view() =~= Seq::<Seq<Seq<char>>>::empty());
        assert(current_args.deep_view() =~= Seq::<Seq<char>>::empty());
        lemma_tokenize_well_formed(init_state(), s);
    }

    while i < n
        invariant
            n == s.len(),
            s == cs@,
            i <= n,
            tokenize(init_state(), s) == tokenize(
                TokState {
                    cmds: commands.deep_view(),
                    args: current_args.deep_view(),
                    tok: current_token@,
                    mode: mode,
                    escaped: escaped,
                },
                s.skip(i as int),
            ),
        decreases n - i,
    {
        let c = cs[i];
        assert(s.skip(i as int).skip(1) =~= s.skip(i + 1));
        let mut step: usize = 1;
        if escaped {
            match mode {
                Mode::Normal => {
                    push_char(&mut current_token, c);
                },
                Mode::Double => {
                    if c == '"' || c == '\\' {
                        push_char(&mut current_token, c);
                    } else {
                        push_char(&mut current_token, '\\');
                        push_char(&mut current_token, c);
                    }
                },
                Mode::Single => {
                    push_char(&mut current_token, '\\');
                    push_char(&mut current_token, c);
                },
            }
            escaped = false;
        } else {
            match mode {
                Mode::Normal => {
                    if c == '\\' {
                        escaped = true;
                    } else if c == '\'' {
                        mode = Mode::Single;
                    } else if c == '"' {
                        mode = Mode::Double;
                    } else if c == '&' && i + 1 < n && cs[i + 1] == '&' {
                        assert(s.skip(i as int)[1] == s[i + 1]);
                        assert(s.skip(i as int).skip(2) =~= s.skip(i + 2));
                        if !current_token.as_str().is_empty() {
                            let mut t = String::new();
                            std::mem::swap(&mut t, &mut current_token);
                            let ghost old_args = current_args.deep_view();
                            current_args.push(t);
                            assert(current_args.deep_view() =~= old_args.push(t@));
                        }
                        if current_args.len() > 0 {
                            let mut a: Vec<String> = Vec::new();
                            std::mem::swap(&mut a, &mut current_args);
                            let ghost old_cmds = commands.deep_view();
                            commands.push(a);
                            assert(commands.deep_view() =~= old_cmds.push(a.deep_view()));
                            assert(current_args.deep_view() =~= Seq::<Seq<char>>::empty());
                        }
                        step = 2;
                    } else if is_whitespace(c) {
                        if !current_token.as_str().is_empty() {
                            let mut t = String::new();
                            std::mem::swap(&mut t, &mut current_token);
                            let ghost old_args = current_args.deep_view();
                            current_args.push(t);
                            assert(current_args.deep_view() =~= old_args.push(t@));
                        }
                    } else {
                        push_char(&mut current_token, c);
                    }
                },
                Mode::Single => {
                    if c == '\'' {
                        mode = Mode::Normal;
                    } else {
                        push_char(&mut current_token, c);
                    }
                },
                Mode::Double => {
                    if c == '\\' {
                        escaped = true;
                    } else if c == '"' {
                        mode = Mode::Normal;
                    } else {
                        push_char(&mut current_token, c);
                    }
                },
            }
        }
        i = i + step;
    }

    if escaped || mode != Mode::Normal {
        return Err(string_of("Incomplete"));
    }
    if !current_token.as_str().is_empty() {
        let ghost old_args = current_args.deep_view();
        current_args.push(current_token);
        assert(current_args.deep_view() =~= old_args.push(current_token@));
    }
    if current_args.len() > 0 {
        let ghost old_cmds = commands.deep_view();
        commands.push(current_args);
        assert(commands.deep_view() =~= old_cmds.push(current_args.deep_view()));
    }
    proof {
        assert(s.skip(n as int) =~= Seq::<char>::empty());
    }
    Ok(commands)
}

} // verus!

verus! {

/// Inside single quotes, every character up to the closing quote is
/// added to the word as it is.
proof fn lemma_single_quoted(st: TokState, w: Seq<char>)
    requires
        st.mode == Mode::Single,
        !st.escaped,
        forall|i: int| 0 <= i < w.len() ==> #[trigger] w[i] != '\'',
    ensures
        tokenize(st, w + seq!['\'']) == with_mode(with_tok(st, st.tok + w), Mode::Normal),
    decreases w.len(),
{
    let s = w + seq!['\''];
    if w.len() == 0 {
        assert(s =~= seq!['\'']);
        assert(st.tok + w =~= st.tok);
        assert(s.skip(1).len() == 0);
        assert(step(st, s) == (with_mode(st, Mode::Normal), 1int));
        assert(tokenize(st, s) == tokenize(with_mode(st, Mode::Normal), s.skip(1)));
        assert(with_tok(st, st.tok + w) == st);
    } else {
        assert(s[0] == w[0]);
        let next = with_tok(st, st.tok.push(w[0]));
        assert(step(st, s) == (next, 1int));
        assert(s.skip(1) =~= w.drop_first() + seq!['\'']);
        assert(tokenize(st, s) == tokenize(next, s.skip(1)));
        lemma_single_quoted(next, w.drop_first());
        assert(next.tok + w.drop_first() =~= st.tok + w);
    }
}

/// Single quotes take a word literally: a single-quoted word without
/// single quotes in it is one command of that one word, whatever
/// backslashes, double quotes, `&&` or whitespace it holds.
pub proof fn law_single_quotes_literal(w: Seq<char>)
    requires
        w.len() > 0,
        forall|i: int| 0 <= i < w.len() ==> #[trigger] w[i] != '\'',
    ensures
        tokens_of(seq!['\''] + w + seq!['\'']) == Ok::<Seq<Seq<Seq<char>>>, ()>(seq![seq![w]]),
{
    let s = seq!['\''] + w + seq!['\''];
    let st1 = with_mode(init_state(), Mode::Single);
    assert(step(init_state(), s) == (st1, 1int));
    assert(s.skip(1) =~= w + seq!['\'']);
    lemma_single_quoted(st1, w);
    let fin = tokenize(init_state(), s);
    assert(fin == with_mode(with_tok(st1, st1.tok + w), Mode::Normal));
    assert(st1.tok + w =~= w);
    assert(finish(fin) =~= seq![seq![w]]);
}

/// Outside quotes a backslash escapes the next character, whatever it
/// is: a backslash and `c` add exactly `c` to the word being read, and
/// reading goes on outside quotes as before.
pub proof fn law_backslash_escapes_outside_quotes(st: TokState, c: char, rest: Seq<char>)
    requires
        st.mode == Mode::Normal,
        !st.escaped,
    ensures
        tokenize(st, seq!['\\', c] + rest) == tokenize(with_tok(st, st.tok.push(c)), rest),
{
    let s = seq!['\\', c] + rest;
    assert(s[0] == '\\');
    assert(step(st, s) == (with_escaped(st, true), 1int));
    let s1 = s.skip(1);
    assert(s1[0] == c);
    let e = with_escaped(st, true);
    assert(step(e, s1) == (with_tok(st, st.tok.push(c)), 1int));
    assert(s1.skip(1) =~= rest);
    assert(tokenize(st, s) == tokenize(e, s1));
    assert(tokenize(e, s1) == tokenize(with_tok(st, st.tok.push(c)), s1.skip(1)));
}

/// A backslash and any character make a line of one command of one word:
/// that character alone.
pub proof fn law_escaped_character_is_a_word(c: char)
    ensures
        tokens_of(seq!['\\', c]) == Ok::<Seq<Seq<Seq<char>>>, ()>(seq![seq![seq![c]]]),
{
    law_backslash_escapes_outside_quotes(init_state(), c, seq![]);
    assert(seq!['\\', c] + Seq::<char>::empty() =~= seq!['\\', c]);
    let st = with_tok(init_state(), init_state().tok.push(c));
    assert(tokenize(st, seq![]) == st);
    assert(st.tok =~= seq![c]);
    assert(finish(st) =~= seq![seq![seq![c]]]);
}

/// Inside double quotes a backslash escapes only `"` and itself: a
/// backslash and `c` add `c` to the word where `c` is `"` or a backslash,
/// and else the backslash and `c` both; the quotes stay open.
pub proof fn law_backslash_in_double_quotes(st: TokState, c: char, rest: Seq<char>)
    requires
        st.mode == Mode::Double,
        !st.escaped,
    ensures
        c == '"' || c == '\\' ==> tokenize(st, seq!['\\', c] + rest) == tokenize(
            with_tok(st, st.tok.push(c)),
            rest,
        ),
        !(c == '"' || c == '\\') ==> tokenize(st, seq!['\\', c] + rest) == tokenize(
            with_tok(st, st.tok.push('\\').push(c)),
            rest,
        ),
{
    let s = seq!['\\', c] + rest;
    assert(s[0] == '\\');
    let e = with_escaped(st, true);
    assert(step(st, s) == (e, 1int));
    let s1 = s.skip(1);
    assert(s1[0] == c);
    assert(s1.skip(1) =~= rest);
    assert(tokenize(st, s) == tokenize(e, s1));
    assert(tokenize(e, s1) == tokenize(step(e, s1).0, s1.skip(1)));
}

/// Inside double quotes, every character but `"` and the backslash is
/// added to the word as it is, up to the closing quote.
proof fn lemma_double_quoted(st: TokState, w: Seq<char>)
    requires
        st.mode == Mode::Double,
        !st.escaped,
        forall|i: int| 0 <= i < w.len() ==> #[trigger] w[i] != '"' && w[i] != '\\',
    ensures
        tokenize(st, w + seq!['"']) == with_mode(with_tok(st, st.tok + w), Mode::Normal),
    decreases w.len(),
{
    let s = w + seq!['"'];
    if w.len() == 0 {
        assert(s =~= seq!['"']);
        assert(st.tok + w =~= st.tok);
        assert(s.skip(1).len() == 0);
        assert(step(st, s) == (with_mode(st, Mode::Normal), 1int));
        assert(tokenize(st, s) == tokenize(with_mode(st, Mode::Normal), s.skip(1)));
        assert(with_tok(st, st.tok + w) == st);
    } else {
        assert(s[0] == w[0]);
        let next = with_tok(st, st.tok.push(w[0]));
        assert(step(st, s) == (next, 1int));
        assert(s.skip(1) =~= w.drop_first() + seq!['"']);
        assert(tokenize(st, s) == tokenize(next, s.skip(1)));
        lemma_double_quoted(next, w.drop_first());
        assert(next.tok + w.drop_first() =~= st.tok + w);
    }
}

/// Double quotes keep a word whole: a double-quoted word without `"` or
/// backslashes in it is one command of that one word, whatever
/// whitespace, single quotes or `&&` it holds.
pub proof fn law_double_quotes_keep_word(w: Seq<char>)
    requires
        w.len() > 0,
        forall|i: int| 0 <= i < w.len() ==> #[trigger] w[i] != '"' && w[i] != '\\',
    ensures
        tokens_of(seq!['"'] + w + seq!['"']) == Ok::<Seq<Seq<Seq<char>>>, ()>(seq![seq![w]]),
{
    let s = seq!['"'] + w + seq!['"'];
    let st1 = with_mode(init_state(), Mode::Double);
    assert(step(init_state(), s) == (st1, 1int));
    assert(s.skip(1) =~= w + seq!['"']);
    lemma_double_quoted(st1, w);
    let fin = tokenize(init_state(), s);
    assert(fin == with_mode(with_tok(st1, st1.tok + w), Mode::Normal));
    assert(st1.tok + w =~= w);
    assert(finish(fin) =~= seq![seq![w]]);
}

/// A line ending inside quotes or right after an escaping backslash is
/// incomplete: a lone opening quote of either kind, or a lone backslash.
pub proof fn law_unfinished_line_incomplete()
    ensures
        tokens_of(seq!['"']) is Err,
        tokens_of(seq!['\'']) is Err,
        tokens_of(seq!['\\']) is Err,
{
    let q = seq!['"'];
    let a = seq!['\''];
    let b = seq!['\\'];
    assert(q.skip(1).len() == 0 && a.skip(1).len() == 0 && b.skip(1).len() == 0);
    assert(tokenize(init_state(), q) == tokenize(step(init_state(), q).0, q.skip(1)));
    assert(tokenize(init_state(), a) == tokenize(step(init_state(), a).0, a.skip(1)));
    assert(tokenize(init_state(), b) == tokenize(step(init_state(), b).0, b.skip(1)));
}

/// `c` has no special meaning outside quotes: no whitespace, quote,
/// backslash or `&`.
pub open spec fn plain_char(c: char) -> bool {
    !is_space(c) && c != '"' && c != '\'' && c != '\\' && c != '&'
}

/// Outside quotes, plain characters are added to the word being read.
proof fn lemma_plain_chars(st: TokState, w: Seq<char>, rest: Seq<char>)
    requires
        st.mode == Mode::Normal,
        !st.escaped,
        forall|i: int| 0 <= i < w.len() ==> plain_char(#[trigger] w[i]),
    ensures
        tokenize(st, w + rest) == tokenize(with_tok(st, st.tok + w), rest),
    decreases w.len(),
{
    let s = w + rest;
    if w.len() == 0 {
        assert(s =~= rest);
        assert(st.tok + w =~= st.tok);
        assert(with_tok(st, st.tok + w) == st);
    } else {
        assert(s[0] == w[0]);
        assert(plain_char(w[0]));
        let next = with_tok(st, st.tok.push(w[0]));
        assert(step(st, s) == (next, 1int));
        assert(s.skip(1) =~= w.drop_first() + rest);
        assert(tokenize(st, s) == tokenize(next, s.skip(1)));
        lemma_plain_chars(next, w.drop_first(), rest);
        assert(next.tok + w.drop_first() =~= st.tok + w);
    }
}

/// Whitespace separates words: two words of plain characters with a
/// space between them are one command of those two words, in order.
pub proof fn law_space_separates_words(a: Seq<char>, b: Seq<char>)
    requires
        a.len() > 0,
        b.len() > 0,
        forall|i: int| 0 <= i < a.len() ==> plain_char(#[trigger] a[i]),
        forall|i: int| 0 <= i < b.len() ==> plain_char(#[trigger] b[i]),
    ensures
        tokens_of(a + seq![' '] + b) == Ok::<Seq<Seq<Seq<char>>>, ()>(seq![seq![a, b]]),
{
    let r = seq![' '] + b;
    assert(a + seq![' '] + b =~= a + r);
    lemma_plain_chars(init_state(), a, r);
    let sa = with_tok(init_state(), init_state().tok + a);
    assert(init_state().tok + a =~= a);
    assert(r[0] == ' ');
    let sp = flush_tok(sa);
    assert(step(sa, r) == (sp, 1int));
    assert(r.skip(1) =~= b);
    assert(tokenize(sa, r) == tokenize(sp, b));
    assert(b =~= b + Seq::<char>::empty());
    lemma_plain_chars(sp, b, seq![]);
    let fin = with_tok(sp, sp.tok + b);
    assert(tokenize(fin, seq![]) == fin);
    assert(sp.tok =~= Seq::<char>::empty());
    assert(sp.tok + b =~= b);
    assert(sp.args =~= seq![a]);
    assert(fin.tok == b && fin.args == seq![a] && fin.cmds.len() == 0);
    assert(flush_tok(fin).args =~= seq![a, b]);
    assert(flush_args(flush_tok(fin)).cmds =~= seq![seq![a, b]]);
    assert(finish(fin) =~= seq![seq![a, b]]);
}

} // verus!
