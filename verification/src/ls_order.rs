use vstd::prelude::*;
use crate::text::{chars_of, str_eq, string_of};

verus! {

/// What `str::to_lowercase` gives for `s`: its characters replaced by
/// their Unicode lowercase mappings, capital sigma mapped by its place in
/// a word.
pub uninterp spec fn lowercase(s: Seq<char>) -> Seq<char>;

/// Whether `char::is_alphanumeric` holds of `c`: the Unicode `Alphabetic`
/// or `Numeric` property.
pub uninterp spec fn alphanumeric(c: char) -> bool;

/// The lowercase form of `s`.
/// Trusted: calls `str::to_lowercase`; its result is a function of `s`
/// alone (the Unicode case tables), which the name `lowercase` stands for.
#[verifier::external_body]
fn to_lowercase(s: &str) -> (r: String)
    ensures
        r@ == lowercase(s@),
{
    s.to_lowercase()
}

/// Whether `c` is alphabetic or numeric.
/// Trusted: calls `char::is_alphanumeric`, a function of `c` alone, which
/// the name `alphanumeric` stands for.
#[verifier::external_body]
fn is_alphanumeric(c: char) -> (r: bool)
    ensures
        r == alphanumeric(c),
{
    c.is_alphanumeric()
}

/// `a` comes before `b` in lexicographic order of code points (the order
/// of `String`'s `cmp`).
pub open spec fn seq_lt(a: Seq<char>, b: Seq<char>) -> bool
    decreases a.len(),
{
    if a.len() == 0 {
        b.len() > 0
    } else if b.len() == 0 {
        false
    } else if a[0] != b[0] {
        a[0] < b[0]
    } else {
        seq_lt(a.drop_first(), b.drop_first())
    }
}

/// A name with the key by which it is ordered: a rank, then a primary and
/// a secondary key.
pub struct Keyed {
    pub rank: u8,
    pub primary: Seq<char>,
    pub secondary: Seq<char>,
    pub name: Seq<char>,
    /// Where the name stood before sorting.
    pub index: int,
}

/// `a`'s key comes strictly before `b`'s.
pub open spec fn key_lt(a: Keyed, b: Keyed) -> bool {
    ||| a.rank < b.rank
    ||| a.rank == b.rank && seq_lt(a.primary, b.primary)
    ||| a.rank == b.rank && a.primary == b.primary && seq_lt(a.secondary, b.secondary)
}

/// Where `x` goes into `s`: before the first element whose key is
/// strictly greater, so after every element with an equal key.
pub open spec fn insert_pos(s: Seq<Keyed>, x: Keyed) -> int
    decreases s.len(),
{
    if s.len() == 0 {
        0
    } else if key_lt(x, s[0]) {
        0
    } else {
        1 + insert_pos(s.drop_first(), x)
    }
}

/// `s` sorted by key, stably: elements with equal keys keep their order.
pub open spec fn sort_keyed(s: Seq<Keyed>) -> Seq<Keyed>
    decreases s.len(),
{
    if s.len() == 0 {
        seq![]
    } else {
        let t = sort_keyed(s.drop_last());
        t.insert(insert_pos(t, s.last()), s.last())
    }
}

/// The names, in order.
pub open spec fn names_of(s: Seq<Keyed>) -> Seq<Seq<char>> {
    s.map_values(|k: Keyed| k.name)
}

/// No element's key comes strictly before that of an earlier one.
pub open spec fn sorted_keys(s: Seq<Keyed>) -> bool {
    forall|i: int, j: int| 0 <= i < j < s.len() ==> !key_lt(#[trigger] s[j], #[trigger] s[i])
}

pub proof fn lemma_seq_lt_irreflexive(a: Seq<char>)
    ensures
        !seq_lt(a, a),
    decreases a.len(),
{
    if a.len() > 0 {
        lemma_seq_lt_irreflexive(a.drop_first());
    }
}

pub proof fn lemma_seq_lt_total(a: Seq<char>, b: Seq<char>)
    ensures
        a == b || seq_lt(a, b) || seq_lt(b, a),
    decreases a.len(),
{
    if a.len() > 0 && b.len() > 0 && a[0] == b[0] {
        lemma_seq_lt_total(a.drop_first(), b.drop_first());
        if a.drop_first() == b.drop_first() {
            assert(a =~= seq![a[0]] + a.drop_first());
            assert(b =~= seq![b[0]] + b.drop_first());
        }
    } else if a.len() == 0 && b.len() == 0 {
        assert(a =~= b);
    }
}

pub proof fn lemma_seq_lt_transitive(a: Seq<char>, b: Seq<char>, c: Seq<char>)
    requires
        seq_lt(a, b),
        seq_lt(b, c),
    ensures
        seq_lt(a, c),
    decreases a.len(),
{
    if a.len() > 0 && b.len() > 0 && c.len() > 0 && a[0] == b[0] && b[0] == c[0] {
        lemma_seq_lt_transitive(a.drop_first(), b.drop_first(), c.drop_first());
    }
}

pub proof fn lemma_seq_lt_asymmetric(a: Seq<char>, b: Seq<char>)
    requires
        seq_lt(a, b),
    ensures
        !seq_lt(b, a),
{
    if seq_lt(b, a) {
        lemma_seq_lt_transitive(a, b, a);
        lemma_seq_lt_irreflexive(a);
    }
}

/// Key order is a strict total order on keys.
pub proof fn lemma_key_order(a: Keyed, b: Keyed, c: Keyed)
    ensures
        !key_lt(a, a),
        key_lt(a, b) ==> !key_lt(b, a),
        key_lt(a, b) && key_lt(b, c) ==> key_lt(a, c),
        !key_lt(b, a) && !key_lt(c, b) ==> !key_lt(c, a),
        !key_lt(b, a) && key_lt(b, c) ==> key_lt(a, c),
        key_lt(a, b) && !key_lt(c, b) ==> key_lt(a, c),
{
    lemma_seq_lt_irreflexive(a.primary);
    lemma_seq_lt_irreflexive(a.secondary);
    lemma_seq_lt_total(a.primary, b.primary);
    lemma_seq_lt_total(b.primary, c.primary);
    lemma_seq_lt_total(a.primary, c.primary);
    lemma_seq_lt_total(a.secondary, b.secondary);
    lemma_seq_lt_total(b.secondary, c.secondary);
    lemma_seq_lt_total(a.secondary, c.secondary);
    if seq_lt(a.primary, b.primary) {
        lemma_seq_lt_asymmetric(a.primary, b.primary);
    }
    if seq_lt(a.secondary, b.secondary) {
        lemma_seq_lt_asymmetric(a.secondary, b.secondary);
    }
    if seq_lt(a.primary, b.primary) && seq_lt(b.primary, c.primary) {
        lemma_seq_lt_transitive(a.primary, b.primary, c.primary);
    }
    if seq_lt(a.secondary, b.secondary) && seq_lt(b.secondary, c.secondary) {
        lemma_seq_lt_transitive(a.secondary, b.secondary, c.secondary);
    }
    if seq_lt(c.primary, b.primary) && seq_lt(b.primary, a.primary) {
        lemma_seq_lt_transitive(c.primary, b.primary, a.primary);
    }
    if seq_lt(c.secondary, b.secondary) && seq_lt(b.secondary, a.secondary) {
        lemma_seq_lt_transitive(c.secondary, b.secondary, a.secondary);
    }
    if seq_lt(c.primary, a.primary) {
        lemma_seq_lt_asymmetric(c.primary, a.primary);
    }
    if seq_lt(c.secondary, a.secondary) {
        lemma_seq_lt_asymmetric(c.secondary, a.secondary);
    }
    if seq_lt(b.primary, a.primary) {
        lemma_seq_lt_asymmetric(b.primary, a.primary);
    }
    if seq_lt(c.primary, b.primary) {
        lemma_seq_lt_asymmetric(c.primary, b.primary);
    }
    if seq_lt(b.secondary, a.secondary) {
        lemma_seq_lt_asymmetric(b.secondary, a.secondary);
    }
    if seq_lt(c.secondary, b.secondary) {
        lemma_seq_lt_asymmetric(c.secondary, b.secondary);
    }
}

/// Every element before the insert position has a key no greater than
/// `x`'s; the element at it, if any, a greater key.
proof fn lemma_insert_pos(s: Seq<Keyed>, x: Keyed)
    ensures
        0 <= insert_pos(s, x) <= s.len(),
        forall|i: int| 0 <= i < insert_pos(s, x) ==> !key_lt(x, #[trigger] s[i]),
        insert_pos(s, x) < s.len() ==> key_lt(x, s[insert_pos(s, x)]),
    decreases s.len(),
{
    if s.len() > 0 && !key_lt(x, s[0]) {
        lemma_insert_pos(s.drop_first(), x);
        assert forall|i: int| 0 <= i < insert_pos(s, x) implies !key_lt(x, #[trigger] s[i]) by {
            if i > 0 {
                assert(s[i] == s.drop_first()[i - 1]);
            }
        }
    }
}

/// Sorting orders the keys and keeps the elements: the result holds the
/// same elements, each as often, and no key comes before an earlier one.
pub proof fn law_sort_keyed_sorts(s: Seq<Keyed>)
    ensures
        sorted_keys(sort_keyed(s)),
        sort_keyed(s).to_multiset() == s.to_multiset(),
        sort_keyed(s).len() == s.len(),
    decreases s.len(),
{
    if s.len() > 0 {
        let t = sort_keyed(s.drop_last());
        let x = s.last();
        law_sort_keyed_sorts(s.drop_last());
        lemma_insert_pos(t, x);
        let p = insert_pos(t, x);
        let r = t.insert(p, x);
        assert forall|i: int, j: int| 0 <= i < j < r.len() implies !key_lt(
            #[trigger] r[j],
            #[trigger] r[i],
        ) by {
            if j < p {
                assert(r[i] == t[i] && r[j] == t[j]);
            } else if j == p {
                assert(r[i] == t[i]);
                lemma_key_order(r[j], r[i], r[i]);
            } else if i == p {
                assert(r[j] == t[j - 1]);
                lemma_key_order(x, t[p], t[j - 1]);
                if j - 1 > p {
                    assert(!key_lt(t[j - 1], t[p]));
                }
                lemma_key_order(t[j - 1], x, t[p]);
                lemma_key_order(x, t[p], t[j - 1]);
            } else if i < p {
                assert(r[i] == t[i] && r[j] == t[j - 1]);
            } else {
                assert(r[i] == t[i - 1] && r[j] == t[j - 1]);
            }
        }
        broadcast use vstd::seq_lib::group_seq_properties;
        assert(t =~= t.take(p) + t.skip(p));
        assert(r =~= t.take(p) + seq![x] + t.skip(p));
        vstd::seq_lib::lemma_multiset_commutative(t.take(p), t.skip(p));
        vstd::seq_lib::lemma_multiset_commutative(t.take(p) + seq![x], t.skip(p));
        vstd::seq_lib::lemma_multiset_commutative(t.take(p), seq![x]);
        assert(s =~= s.drop_last().push(x));
        assert(s.to_multiset() =~= s.drop_last().to_multiset().insert(x));
        assert(seq![x].to_multiset() =~= vstd::multiset::Multiset::<Keyed>::empty().insert(x));
        assert(r.to_multiset() =~= t.to_multiset().insert(x));
    } else {
        assert(s =~= Seq::<Keyed>::empty());
    }
}

/// Whether an element's key equals `k`'s.
pub open spec fn key_is(k: Keyed) -> spec_fn(Keyed) -> bool {
    |x: Keyed| !key_lt(x, k) && !key_lt(k, x)
}

/// The elements of `s` whose key equals `k`'s, in order.
pub open spec fn same_key(s: Seq<Keyed>, k: Keyed) -> Seq<Keyed> {
    s.filter(key_is(k))
}

proof fn lemma_filter_none(s: Seq<Keyed>, pred: spec_fn(Keyed) -> bool)
    requires
        forall|i: int| 0 <= i < s.len() ==> !pred(#[trigger] s[i]),
    ensures
        s.filter(pred) == Seq::<Keyed>::empty(),
    decreases s.len(),
{
    reveal(Seq::filter);
    if s.len() > 0 {
        assert(!pred(s[s.len() - 1]));
        lemma_filter_none(s.drop_last(), pred);
    } else {
        assert(s =~= Seq::<Keyed>::empty());
    }
}

/// Sorting is stable: the elements with a given key come out in the order
/// they went in.
pub proof fn law_sort_keyed_stable(s: Seq<Keyed>, k: Keyed)
    ensures
        same_key(sort_keyed(s), k) == same_key(s, k),
    decreases s.len(),
{
    reveal(Seq::filter);
    let pred = key_is(k);
    if s.len() > 0 {
        let t = sort_keyed(s.drop_last());
        let x = s.last();
        law_sort_keyed_stable(s.drop_last(), k);
        law_sort_keyed_sorts(s.drop_last());
        lemma_insert_pos(t, x);
        let p = insert_pos(t, x);
        let r = t.insert(p, x);
        assert(r =~= t.take(p) + seq![x] + t.skip(p));
        assert(t =~= t.take(p) + t.skip(p));
        Seq::filter_distributes_over_add(t.take(p) + seq![x], t.skip(p), pred);
        Seq::filter_distributes_over_add(t.take(p), seq![x], pred);
        Seq::filter_distributes_over_add(t.take(p), t.skip(p), pred);
        assert(s.drop_last().filter(pred) == t.filter(pred));
        let one = seq![x];
        assert(one.drop_last() =~= Seq::<Keyed>::empty());
        assert(one.last() == x);
        if pred(x) {
            let rest = t.skip(p);
            assert forall|j: int| 0 <= j < rest.len() implies !pred(#[trigger] rest[j]) by {
                let e = rest[j];
                assert(e == t[p + j]);
                if j > 0 {
                    assert(!key_lt(t[p + j], t[p]));
                }
                lemma_key_order(x, t[p], e);
                lemma_key_order(e, t[p], x);
                lemma_key_order(x, e, k);
                lemma_key_order(k, x, e);
                lemma_key_order(e, k, x);
                lemma_key_order(x, k, e);
            }
            lemma_filter_none(rest, pred);
            assert(one.filter(pred) =~= seq![x]);
            assert(r.filter(pred) =~= t.take(p).filter(pred) + seq![x]);
            assert(t.filter(pred) =~= t.take(p).filter(pred));
        } else {
            assert(one.drop_last().filter(pred) == one.drop_last());
            assert(one.filter(pred) =~= Seq::<Keyed>::empty());
            assert(r.filter(pred) =~= t.filter(pred));
        }
    }
}

/// A name with its key, as the program holds it.
pub struct KeyedName {
    pub rank: u8,
    pub primary: Vec<char>,
    pub secondary: Vec<char>,
    pub name: String,
    pub index: usize,
}

impl DeepView for KeyedName {
    type V = Keyed;

    open spec fn deep_view(&self) -> Keyed {
        Keyed {
            rank: self.rank,
            primary: self.primary@,
            secondary: self.secondary@,
            name: self.name@,
            index: self.index as int,
        }
    }
}

/// Whether `a` comes before `b` in code point order.
fn chars_lt(a: &Vec<char>, b: &Vec<char>) -> (r: bool)
    ensures
        r == seq_lt(a@, b@),
{
    let mut k: usize = 0;
    assert(a@.skip(0) =~= a@);
    assert(b@.skip(0) =~= b@);
    while k < a.len() && k < b.len() && a[k] == b[k]
        invariant
            k <= a.len(),
            k <= b.len(),
            seq_lt(a@, b@) == seq_lt(a@.skip(k as int), b@.skip(k as int)),
        decreases a.len() - k,
    {
        assert(a@.skip(k as int).drop_first() =~= a@.skip(k + 1));
        assert(b@.skip(k as int).drop_first() =~= b@.skip(k + 1));
        k = k + 1;
    }
    if k == a.len() {
        k < b.len()
    } else if k == b.len() {
        false
    } else {
        a[k] < b[k]
    }
}

/// Whether `a` and `b` hold the same characters.
fn chars_eq(a: &Vec<char>, b: &Vec<char>) -> (r: bool)
    ensures
        r == (a@ == b@),
{
    if a.len() != b.len() {
        return false;
    }
    let mut k: usize = 0;
    while k < a.len()
        invariant
            a.len() == b.len(),
            k <= a.len(),
            forall|m: int| 0 <= m < k ==> a@[m] == b@[m],
        decreases a.len() - k,
    {
        if a[k] != b[k] {
            return false;
        }
        k = k + 1;
    }
    assert(a@ =~= b@);
    true
}

/// Whether `a`'s key comes strictly before `b`'s.
fn keyed_lt(a: &KeyedName, b: &KeyedName) -> (r: bool)
    ensures
        r == key_lt(a.deep_view(), b.deep_view()),
{
    if a.rank != b.rank {
        return a.rank < b.rank;
    }
    if chars_lt(&a.primary, &b.primary) {
        return true;
    }
    if !chars_eq(&a.primary, &b.primary) {
        return false;
    }
    chars_lt(&a.secondary, &b.secondary)
}

/// Sorts `items` by key, stably; returns their names in that order.
pub fn sort_names(items: Vec<KeyedName>) -> (r: Vec<String>)
    ensures
        r.deep_view() == names_of(sort_keyed(items.deep_view())),
{
    let res = sort_keyed_names(items);
    let ghost sorted = res.deep_view();
    let mut names: Vec<String> = Vec::new();
    let mut i: usize = 0;
    while i < res.len()
        invariant
            i <= res.len(),
            sorted == res.deep_view(),
            names.deep_view() == names_of(sorted.take(i as int)),
        decreases res.len() - i,
    {
        let ghost old_names = names.deep_view();
        let nm = res[i].name.clone();
        assert(sorted[i as int].name == nm@);
        names.push(nm);
        assert(names.deep_view() =~= old_names.push(nm@));
        assert(names_of(sorted.take(i + 1)) =~= names_of(sorted.take(i as int)).push(nm@));
        i = i + 1;
    }
    assert(sorted.take(i as int) =~= sorted);
    names
}

/// Sorts `items` by key, stably (see `sort_keyed`).
pub fn sort_keyed_names(items: Vec<KeyedName>) -> (r: Vec<KeyedName>)
    ensures
        r.deep_view() == sort_keyed(items.deep_view()),
{
    let ghost all = items.deep_view();
    let mut left = items;
    let mut res: Vec<KeyedName> = Vec::new();
    let ghost mut k: int = 0;
    proof {
        assert(left.deep_view() =~= all.skip(0));
        assert(res.deep_view() =~= sort_keyed(all.take(0)));
    }
    while left.len() > 0
        invariant
            0 <= k <= all.len(),
            left.deep_view() == all.skip(k),
            res.deep_view() == sort_keyed(all.take(k)),
        decreases left.len(),
    {
        let ghost before = left.deep_view();
        let x = left.remove(0);
        proof {
            assert(left.deep_view() =~= before.drop_first());
            assert(all.skip(k).drop_first() =~= all.skip(k + 1));
            assert(before[0] == x.deep_view());
            assert(all.skip(k)[0] == all[k]);
            assert(all.take(k + 1).drop_last() =~= all.take(k));
            assert(all.take(k + 1).last() == all[k]);
        }
        let ghost t = res.deep_view();
        let mut j: usize = 0;
        assert(t.skip(0) =~= t);
        while j < res.len() && !keyed_lt(&x, &res[j])
            invariant
                j <= res.len(),
                t == res.deep_view(),
                insert_pos(t, x.deep_view()) == j + insert_pos(t.skip(j as int), x.deep_view()),
            decreases res.len() - j,
        {
            assert(t.skip(j as int)[0] == t[j as int]);
            assert(t.skip(j as int).drop_first() =~= t.skip(j + 1));
            j = j + 1;
        }
        proof {
            if j < res.len() {
                assert(t.skip(j as int)[0] == t[j as int]);
            }
        }
        let ghost xv = x.deep_view();
        res.insert(j, x);
        proof {
            assert(res.deep_view() =~= t.insert(j as int, xv));
            k = k + 1;
        }
    }
    assert(all.take(k) =~= all);
    res
}

} // verus!

verus! {

/// `.` or `..`.
pub open spec fn is_special(n: Seq<char>) -> bool {
    n == "."@ || n == ".."@
}

/// `s` without its leading dots.
pub open spec fn trim_dots(s: Seq<char>) -> Seq<char>
    decreases s.len(),
{
    if s.len() > 0 && s[0] == '.' {
        trim_dots(s.drop_first())
    } else {
        s
    }
}

/// The alphanumeric characters of `s`, in order.
pub open spec fn filter_alnum(s: Seq<char>) -> Seq<char>
    decreases s.len(),
{
    if s.len() == 0 {
        seq![]
    } else {
        filter_alnum(s.drop_last()) + if alphanumeric(s.last()) {
            seq![s.last()]
        } else {
            seq![]
        }
    }
}

/// How a short listing orders a name: `.` and `..` first, in that order;
/// then the rest by their lowercase form without leading dots.
pub open spec fn listing_key(n: Seq<char>) -> Keyed {
    if is_special(n) {
        Keyed { rank: 0, primary: n, secondary: seq![], name: n, index: 0 }
    } else {
        Keyed { rank: 1, primary: lowercase(trim_dots(n)), secondary: seq![], name: n, index: 0 }
    }
}

/// How a long listing orders the name `n`, the `i`-th entry: by the
/// lowercase form of its alphanumeric characters, then by the name itself.
pub open spec fn long_key(n: Seq<char>, i: int) -> Keyed {
    Keyed { rank: 0, primary: lowercase(filter_alnum(n)), secondary: n, name: n, index: i }
}

/// The entries of a directory with their long-listing keys.
pub open spec fn keyed_long(entries: Seq<Seq<char>>) -> Seq<Keyed> {
    Seq::new(entries.len(), |i: int| long_key(entries[i], i))
}

/// A hidden name: one that starts with a dot.
pub open spec fn is_hidden(n: Seq<char>) -> bool {
    n.len() > 0 && n[0] == '.'
}

/// The names that a listing shows: all where hidden names are shown,
/// else those that are not hidden.
pub open spec fn visible(names: Seq<Seq<char>>, show_hidden: bool) -> Seq<Seq<char>>
    decreases names.len(),
{
    if names.len() == 0 {
        seq![]
    } else {
        visible(names.drop_last(), show_hidden) + if show_hidden || !is_hidden(names.last()) {
            seq![names.last()]
        } else {
            seq![]
        }
    }
}

/// `.` and `..`, each where hidden names are shown and it could be read.
pub open spec fn specials(dot: bool, dotdot: bool, show_hidden: bool) -> Seq<Seq<char>> {
    (if show_hidden && dot {
        seq!["."@]
    } else {
        seq![]
    }) + (if show_hidden && dotdot {
        seq![".."@]
    } else {
        seq![]
    })
}

/// The names of a short listing of a directory, in order.
pub open spec fn dir_listing(
    dot: bool,
    dotdot: bool,
    entries: Seq<Seq<char>>,
    show_hidden: bool,
) -> Seq<Seq<char>> {
    names_of(
        sort_keyed(
            (specials(dot, dotdot, show_hidden) + visible(entries, show_hidden)).map_values(
                |n: Seq<char>| listing_key(n),
            ),
        ),
    )
}

/// A row of a long listing: the directory itself, its parent, or one of
/// its entries, by position.
#[derive(Debug, Clone, Copy, PartialEq, Eq, Structural)]
pub enum ListingEntry {
    Dot,
    DotDot,
    Entry(usize),
}

/// `.` and `..` as rows, each where hidden names are shown and it could be
/// read.
pub open spec fn special_rows(dot: bool, dotdot: bool, show_hidden: bool) -> Seq<ListingEntry> {
    (if show_hidden && dot {
        seq![ListingEntry::Dot]
    } else {
        seq![]
    }) + (if show_hidden && dotdot {
        seq![ListingEntry::DotDot]
    } else {
        seq![]
    })
}

/// The rows of the sorted entries `s` that a listing shows.
pub open spec fn visible_rows(s: Seq<Keyed>, show_hidden: bool) -> Seq<ListingEntry>
    decreases s.len(),
{
    if s.len() == 0 {
        seq![]
    } else {
        visible_rows(s.drop_last(), show_hidden) + if show_hidden || !is_hidden(s.last().name) {
            seq![ListingEntry::Entry(s.last().index as usize)]
        } else {
            seq![]
        }
    }
}

/// The rows of a long listing of a directory, in order: `.` and `..`
/// first, then the entries sorted by the lowercase form of their
/// alphanumeric characters and then by name, hidden names only with `-a`.
pub open spec fn long_order(
    dot: bool,
    dotdot: bool,
    entries: Seq<Seq<char>>,
    show_hidden: bool,
) -> Seq<ListingEntry> {
    special_rows(dot, dotdot, show_hidden) + visible_rows(
        sort_keyed(keyed_long(entries)),
        show_hidden,
    )
}

/// `cs` without its leading dots.
fn trim_dots_chars(cs: &Vec<char>) -> (r: Vec<char>)
    ensures
        r@ == trim_dots(cs@),
{
    let mut i: usize = 0;
    assert(cs@.skip(0) =~= cs@);
    while i < cs.len() && cs[i] == '.'
        invariant
            i <= cs.len(),
            trim_dots(cs@) == trim_dots(cs@.skip(i as int)),
        decreases cs.len() - i,
    {
        assert(cs@.skip(i as int).drop_first() =~= cs@.skip(i + 1));
        i = i + 1;
    }
    let r = crate::text::sub_chars(cs, i, cs.len());
    assert(r@ =~= cs@.skip(i as int));
    r
}

/// The alphanumeric characters of `cs`.
fn filter_alnum_chars(cs: &Vec<char>) -> (r: Vec<char>)
    ensures
        r@ == filter_alnum(cs@),
{
    let mut r: Vec<char> = Vec::new();
    let mut i: usize = 0;
    while i < cs.len()
        invariant
            i <= cs.len(),
            r@ == filter_alnum(cs@.take(i as int)),
        decreases cs.len() - i,
    {
        assert(cs@.take(i + 1).drop_last() =~= cs@.take(i as int));
        if is_alphanumeric(cs[i]) {
            r.push(cs[i]);
        }
        i = i + 1;
        assert(r@ =~= filter_alnum(cs@.take(i as int)));
    }
    assert(cs@.take(i as int) =~= cs@);
    r
}

/// The lowercase form of the characters `cs`.
fn lowercase_chars(cs: &Vec<char>) -> (r: Vec<char>)
    ensures
        r@ == lowercase(cs@),
{
    let s = crate::text::string_from_chars(cs);
    let l = to_lowercase(s.as_str());
    chars_of(l.as_str())
}

/// `name` with its short-listing key.
fn listing_keyed(name: String) -> (r: KeyedName)
    ensures
        r.deep_view() == listing_key(name@),
{
    if str_eq(name.as_str(), ".") || str_eq(name.as_str(), "..") {
        KeyedName { rank: 0, primary: chars_of(name.as_str()), secondary: Vec::new(), name, index: 0 }
    } else {
        let cs = chars_of(name.as_str());
        let t = trim_dots_chars(&cs);
        let primary = lowercase_chars(&t);
        let r = KeyedName { rank: 1, primary, secondary: Vec::new(), name, index: 0 };
        assert(r.secondary@ =~= Seq::<char>::empty());
        r
    }
}

/// `name`, the `i`-th entry, with its long-listing key.
fn long_keyed(name: String, i: usize) -> (r: KeyedName)
    ensures
        r.deep_view() == long_key(name@, i as int),
{
    let cs = chars_of(name.as_str());
    let f = filter_alnum_chars(&cs);
    let primary = lowercase_chars(&f);
    KeyedName { rank: 0, primary, secondary: cs, name, index: i }
}

/// The names of `names` that a listing shows.
fn visible_names(names: Vec<String>, show_hidden: bool) -> (r: Vec<String>)
    ensures
        r.deep_view() == visible(names.deep_view(), show_hidden),
{
    let ghost all = names.deep_view();
    let mut left = names;
    let mut r: Vec<String> = Vec::new();
    let ghost mut k: int = 0;
    proof {
        assert(left.deep_view() =~= all.skip(0));
        assert(r.deep_view() =~= visible(all.take(0), show_hidden));
    }
    while left.len() > 0
        invariant
            0 <= k <= all.len(),
            left.deep_view() == all.skip(k),
            r.deep_view() == visible(all.take(k), show_hidden),
        decreases left.len(),
    {
        let ghost before = left.deep_view();
        let n = left.remove(0);
        proof {
            assert(left.deep_view() =~= before.drop_first());
            assert(all.skip(k).drop_first() =~= all.skip(k + 1));
            assert(before[0] == n@);
            assert(all.skip(k)[0] == all[k]);
            assert(all.take(k + 1).drop_last() =~= all.take(k));
            assert(all.take(k + 1).last() == all[k]);
        }
        let ghost old_r = r.deep_view();
        if show_hidden || !crate::text::starts_with_char(n.as_str(), '.') {
            r.push(n);
            assert(r.deep_view() =~= old_r + seq![all[k]]);
        } else {
            assert(old_r + Seq::<Seq<char>>::empty() =~= old_r);
        }
        proof {
            k = k + 1;
        }
    }
    assert(all.take(k) =~= all);
    r
}

/// `.` and `..` where hidden names are shown and they could be read.
fn special_names(dot: bool, dotdot: bool, show_hidden: bool) -> (r: Vec<String>)
    ensures
        r.deep_view() == specials(dot, dotdot, show_hidden),
{
    let mut r: Vec<String> = Vec::new();
    if show_hidden && dot {
        r.push(string_of("."));
    }
    if show_hidden && dotdot {
        let ghost before = r.deep_view();
        r.push(string_of(".."));
        assert(r.deep_view() =~= before.push(".."@));
    }
    assert(r.deep_view() =~= specials(dot, dotdot, show_hidden));
    r
}

/// The names of a short listing of a directory (`ls` without `-l`), in
/// order. `entries` are the names the directory holds, `dot` and `dotdot`
/// whether the directory and its parent could be read, `show_hidden`
/// whether `-a` was given: `.` and `..` first, then the rest, hidden
/// names only with `-a`, ordered by their lowercase form without leading
/// dots, names with equal forms in the order given.
pub fn dir_listing_names(dot: bool, dotdot: bool, entries: Vec<String>, show_hidden: bool) -> (r:
    Vec<String>)
    ensures
        r.deep_view() == dir_listing(dot, dotdot, entries.deep_view(), show_hidden),
{
    let mut names = special_names(dot, dotdot, show_hidden);
    let ghost sp = names.deep_view();
    let mut shown = visible_names(entries, show_hidden);
    let ghost vis = shown.deep_view();
    names.append(&mut shown);
    let ghost all = names.deep_view();
    assert(all =~= sp + vis);
    let mut keyed: Vec<KeyedName> = Vec::new();
    let mut left = names;
    let ghost mut k: int = 0;
    proof {
        assert(left.deep_view() =~= all.skip(0));
        assert(keyed.deep_view() =~= all.take(0).map_values(|n: Seq<char>| listing_key(n)));
    }
    while left.len() > 0
        invariant
            0 <= k <= all.len(),
            left.deep_view() == all.skip(k),
            keyed.deep_view() == all.take(k).map_values(|n: Seq<char>| listing_key(n)),
        decreases left.len(),
    {
        let ghost before = left.deep_view();
        let n = left.remove(0);
        proof {
            assert(left.deep_view() =~= before.drop_first());
            assert(all.skip(k).drop_first() =~= all.skip(k + 1));
            assert(before[0] == n@);
            assert(all.skip(k)[0] == all[k]);
        }
        let ghost old_keyed = keyed.deep_view();
        let kn = listing_keyed(n);
        keyed.push(kn);
        proof {
            assert(keyed.deep_view() =~= old_keyed.push(kn.deep_view()));
            assert(all.take(k + 1).map_values(|n: Seq<char>| listing_key(n)) =~= all.take(
                k,
            ).map_values(|n: Seq<char>| listing_key(n)).push(listing_key(all[k])));
            k = k + 1;
        }
    }
    assert(all.take(k) =~= all);
    sort_names(keyed)
}

/// The rows of a long listing of a directory (`ls -l`), in order (see
/// `long_order`). `entries` are the names the directory holds, `dot` and
/// `dotdot` whether the directory and its parent could be read,
/// `show_hidden` whether `-a` was given.
pub fn long_listing_order(dot: bool, dotdot: bool, entries: &Vec<String>, show_hidden: bool) -> (r:
    Vec<ListingEntry>)
    ensures
        r@ == long_order(dot, dotdot, entries.deep_view(), show_hidden),
{
    let ghost all = entries.deep_view();
    let mut keyed: Vec<KeyedName> = Vec::new();
    let mut i: usize = 0;
    assert(keyed.deep_view() =~= keyed_long(all).take(0));
    while i < entries.len()
        invariant
            all == entries.deep_view(),
            i <= entries.len(),
            keyed.deep_view() == keyed_long(all).take(i as int),
        decreases entries.len() - i,
    {
        let ghost old_keyed = keyed.deep_view();
        assert(all[i as int] == entries[i as int]@);
        let kn = long_keyed(entries[i].clone(), i);
        let ghost kv = kn.deep_view();
        keyed.push(kn);
        assert(keyed.deep_view() =~= old_keyed.push(kv));
        assert(keyed_long(all)[i as int] == long_key(all[i as int], i as int));
        assert(keyed_long(all).take(i + 1) =~= keyed_long(all).take(i as int).push(kv));
        i = i + 1;
    }
    assert(keyed_long(all).take(i as int) =~= keyed_long(all));
    let sorted = sort_keyed_names(keyed);
    let ghost ss = sorted.deep_view();
    let mut rows: Vec<ListingEntry> = Vec::new();
    if show_hidden && dot {
        rows.push(ListingEntry::Dot);
    }
    if show_hidden && dotdot {
        rows.push(ListingEntry::DotDot);
    }
    let ghost sp = rows@;
    assert(sp =~= special_rows(dot, dotdot, show_hidden));
    let mut j: usize = 0;
    assert(rows@ =~= sp + visible_rows(ss.take(0), show_hidden));
    while j < sorted.len()
        invariant
            ss == sorted.deep_view(),
            j <= sorted.len(),
            rows@ == sp + visible_rows(ss.take(j as int), show_hidden),
        decreases sorted.len() - j,
    {
        assert(ss.take(j + 1).drop_last() =~= ss.take(j as int));
        assert(ss.take(j + 1).last() == sorted[j as int].deep_view());
        let ghost before = rows@;
        if show_hidden || !crate::text::starts_with_char(sorted[j].name.as_str(), '.') {
            let idx = sorted[j].index;
            rows.push(ListingEntry::Entry(idx));
            assert(rows@ =~= before + seq![ListingEntry::Entry(idx)]);
        } else {
            assert(before + Seq::<ListingEntry>::empty() =~= before);
        }
        j = j + 1;
        assert(rows@ =~= sp + visible_rows(ss.take(j as int), show_hidden));
    }
    assert(ss.take(j as int) =~= ss);
    rows
}

} // verus!

verus! {

proof fn lemma_visible_hides(names: Seq<Seq<char>>)
    ensures
        forall|i: int|
            0 <= i < visible(names, false).len() ==> !is_hidden(#[trigger] visible(names, false)[i]),
    decreases names.len(),
{
    if names.len() > 0 {
        lemma_visible_hides(names.drop_last());
        let prev = visible(names.drop_last(), false);
        let v = visible(names, false);
        assert forall|i: int| 0 <= i < v.len() implies !is_hidden(#[trigger] v[i]) by {
            if i < prev.len() {
                assert(v[i] == prev[i]);
            } else {
                assert(v[i] == names.last());
            }
        }
    }
}

proof fn lemma_visible_rows_hide(s: Seq<Keyed>)
    ensures
        forall|i: int|
            0 <= i < visible_rows(s, false).len() ==> exists|k: int|
                0 <= k < s.len() && #[trigger] visible_rows(s, false)[i] == ListingEntry::Entry(
                    s[k].index as usize,
                ) && !is_hidden(s[k].name),
    decreases s.len(),
{
    if s.len() > 0 {
        let t = s.drop_last();
        lemma_visible_rows_hide(t);
        let prev = visible_rows(t, false);
        let v = visible_rows(s, false);
        assert forall|i: int| 0 <= i < v.len() implies exists|k: int|
            0 <= k < s.len() && #[trigger] v[i] == ListingEntry::Entry(s[k].index as usize)
                && !is_hidden(s[k].name) by {
            if i < prev.len() {
                assert(v[i] == prev[i]);
                let k = choose|k: int|
                    0 <= k < t.len() && prev[i] == ListingEntry::Entry(t[k].index as usize)
                        && !is_hidden(t[k].name);
                assert(t[k] == s[k]);
            } else {
                assert(v[i] == ListingEntry::Entry(s[s.len() - 1].index as usize));
            }
        }
    }
}

/// Without `-a`, neither listing shows a hidden name (one that starts
/// with a dot), `.` and `..` included.
pub proof fn law_listings_hide_dot_names(dot: bool, dotdot: bool, entries: Seq<Seq<char>>)
    ensures
        forall|i: int|
            0 <= i < dir_listing(dot, dotdot, entries, false).len() ==> !is_hidden(
                #[trigger] dir_listing(dot, dotdot, entries, false)[i],
            ),
        forall|i: int|
            0 <= i < long_order(dot, dotdot, entries, false).len() ==> exists|m: int|
                0 <= m < entries.len() && #[trigger] long_order(dot, dotdot, entries, false)[i]
                    == ListingEntry::Entry(m as usize) && !is_hidden(entries[m]),
{
    broadcast use vstd::seq_lib::group_to_multiset_ensures;

    let sp = specials(dot, dotdot, false);
    assert(sp =~= Seq::<Seq<char>>::empty());
    let vis = visible(entries, false);
    lemma_visible_hides(entries);
    let m = (sp + vis).map_values(|n: Seq<char>| listing_key(n));
    assert(sp + vis =~= vis);
    let r = sort_keyed(m);
    law_sort_keyed_sorts(m);
    assert forall|i: int| 0 <= i < dir_listing(dot, dotdot, entries, false).len() implies !is_hidden(
        #[trigger] dir_listing(dot, dotdot, entries, false)[i],
    ) by {
        assert(dir_listing(dot, dotdot, entries, false)[i] == r[i].name);
        assert(r.contains(r[i]));
        assert(m.to_multiset().count(r[i]) > 0);
        assert(m.contains(r[i]));
        let j = choose|j: int| 0 <= j < m.len() && m[j] == r[i];
        assert(m[j].name == vis[j]);
    }
    let kl = keyed_long(entries);
    let sorted = sort_keyed(kl);
    law_sort_keyed_sorts(kl);
    lemma_visible_rows_hide(sorted);
    let lo = long_order(dot, dotdot, entries, false);
    assert(special_rows(dot, dotdot, false) =~= Seq::<ListingEntry>::empty());
    assert(lo =~= visible_rows(sorted, false));
    assert forall|i: int| 0 <= i < lo.len() implies exists|m: int|
        0 <= m < entries.len() && #[trigger] lo[i] == ListingEntry::Entry(m as usize)
            && !is_hidden(entries[m]) by {
        let k = choose|k: int|
            0 <= k < sorted.len() && lo[i] == ListingEntry::Entry(sorted[k].index as usize)
                && !is_hidden(sorted[k].name);
        assert(sorted.contains(sorted[k]));
        assert(kl.to_multiset().count(sorted[k]) > 0);
        assert(kl.contains(sorted[k]));
        let j = choose|j: int| 0 <= j < kl.len() && kl[j] == sorted[k];
        assert(kl[j].index == j && kl[j].name == entries[j]);
    }
}

} // verus!
