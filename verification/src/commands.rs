use vstd::prelude::*;
use vstd::string::StringExecFns;
use crate::ls_format::FileKind;
use crate::pwd_state::{cd_record, PwdState};
use crate::text::{
    chars_of, join_words, join_with_spaces, push_char, str_eq, string_from_chars, string_of,
};

verus! {

/// `s` without its double and single quotes.
pub open spec fn strip_quotes(s: Seq<char>) -> Seq<char>
    decreases s.len(),
{
    if s.len() == 0 {
        seq![]
    } else {
        strip_quotes(s.drop_last()) + if s.last() == '"' || s.last() == '\'' {
            seq![]
        } else {
            seq![s.last()]
        }
    }
}

/// Removing quotes keeps every other character, in order.
pub proof fn law_strip_quotes_keeps_the_rest(s: Seq<char>)
    ensures
        strip_quotes(s) == s.filter(|c: char| c != '"' && c != '\''),
    decreases s.len(),
{
    reveal(Seq::filter);
    if s.len() > 0 {
        law_strip_quotes_keeps_the_rest(s.drop_last());
        let f = strip_quotes(s.drop_last());
        assert(f + Seq::<char>::empty() =~= f);
        assert(f + seq![s.last()] =~= f.push(s.last()));
    }
}

/// What `echo` prints: its arguments joined with single spaces, every
/// double and single quote removed.
pub fn echo_text(args: &Vec<String>) -> (r: String)
    ensures
        r@ == strip_quotes(join_words(args.deep_view())),
        forall|i: int| 0 <= i < r@.len() ==> r@[i] != '"' && r@[i] != '\'',
{
    let joined = join_with_spaces(args);
    let cs = chars_of(joined.as_str());
    let mut r = String::new();
    let mut i: usize = 0;
    while i < cs.len()
        invariant
            i <= cs.len(),
            r@ == strip_quotes(cs@.take(i as int)),
            forall|j: int| 0 <= j < r@.len() ==> r@[j] != '"' && r@[j] != '\'',
        decreases cs.len() - i,
    {
        assert(cs@.take(i + 1).drop_last() =~= cs@.take(i as int));
        if cs[i] != '"' && cs[i] != '\'' {
            push_char(&mut r, cs[i]);
        }
        i = i + 1;
        assert(r@ =~= strip_quotes(cs@.take(i as int)));
    }
    assert(cs@.take(i as int) =~= cs@);
    r
}

/// `s` with each backslash followed by `n` read as a newline, left to
/// right (`replace("\\n", "\n")`).
pub open spec fn unescape_newlines(s: Seq<char>) -> Seq<char>
    decreases s.len(),
{
    if s.len() == 0 {
        seq![]
    } else if s.len() >= 2 && s[0] == '\\' && s[1] == 'n' {
        seq!['\n'] + unescape_newlines(s.skip(2))
    } else {
        seq![s[0]] + unescape_newlines(s.drop_first())
    }
}

/// `s` with each newline written as a backslash and `n`
/// (`replace("\n", "\\n")`).
pub open spec fn escape_newlines(s: Seq<char>) -> Seq<char>
    decreases s.len(),
{
    if s.len() == 0 {
        seq![]
    } else {
        (if s[0] == '\n' {
            seq!['\\', 'n']
        } else {
            seq![s[0]]
        }) + escape_newlines(s.drop_first())
    }
}

/// Reads each backslash followed by `n` in `s` as a newline.
pub fn unescape_newline_text(s: &str) -> (r: String)
    ensures
        r@ == unescape_newlines(s@),
{
    let cs = chars_of(s);
    let mut out: Vec<char> = Vec::new();
    let mut i: usize = 0;
    assert(cs@.skip(0) =~= cs@);
    assert(out@ + unescape_newlines(cs@.skip(0)) =~= unescape_newlines(cs@));
    while i < cs.len()
        invariant
            i <= cs.len(),
            out@ + unescape_newlines(cs@.skip(i as int)) == unescape_newlines(cs@),
        decreases cs.len() - i,
    {
        let ghost rest = cs@.skip(i as int);
        if i + 1 < cs.len() && cs[i] == '\\' && cs[i + 1] == 'n' {
            assert(rest[0] == '\\' && rest[1] == 'n');
            assert(rest.skip(2) =~= cs@.skip(i + 2));
            out.push('\n');
            i = i + 2;
            assert(out@ + unescape_newlines(cs@.skip(i as int)) =~= unescape_newlines(cs@));
        } else {
            assert(rest[0] == cs@[i as int]);
            assert(rest.drop_first() =~= cs@.skip(i + 1));
            out.push(cs[i]);
            i = i + 1;
            assert(out@ + unescape_newlines(cs@.skip(i as int)) =~= unescape_newlines(cs@));
        }
    }
    assert(cs@.skip(i as int) =~= Seq::<char>::empty());
    assert(out@ =~= out@ + unescape_newlines(cs@.skip(i as int)));
    string_from_chars(&out)
}

/// Writes each newline in `s` as a backslash and `n`, as the prompt and
/// the messages of `cd` show directory names.
pub fn escape_newline_text(s: &str) -> (r: String)
    ensures
        r@ == escape_newlines(s@),
{
    let cs = chars_of(s);
    let mut out: Vec<char> = Vec::new();
    let mut i: usize = 0;
    assert(cs@.skip(0) =~= cs@);
    assert(out@ + escape_newlines(cs@.skip(0)) =~= escape_newlines(cs@));
    while i < cs.len()
        invariant
            i <= cs.len(),
            out@ + escape_newlines(cs@.skip(i as int)) == escape_newlines(cs@),
        decreases cs.len() - i,
    {
        let ghost rest = cs@.skip(i as int);
        assert(rest[0] == cs@[i as int]);
        assert(rest.drop_first() =~= cs@.skip(i + 1));
        if cs[i] == '\n' {
            out.push('\\');
            out.push('n');
        } else {
            out.push(cs[i]);
        }
        i = i + 1;
        assert(out@ + escape_newlines(cs@.skip(i as int)) =~= escape_newlines(cs@));
    }
    assert(cs@.skip(i as int) =~= Seq::<char>::empty());
    assert(out@ =~= out@ + escape_newlines(cs@.skip(i as int)));
    string_from_chars(&out)
}

/// `s` holds no backslash followed by `n`.
pub open spec fn no_escaped_newline(s: Seq<char>) -> bool {
    forall|i: int| 0 <= i < s.len() - 1 ==> !(#[trigger] s[i] == '\\' && s[i + 1] == 'n')
}

/// The prompt shows a directory with its newlines escaped, and `cd` reads
/// such escapes back: where the name holds no backslash followed by `n`,
/// reading back what is shown gives the name.
pub proof fn law_cd_reads_back_prompt(s: Seq<char>)
    requires
        no_escaped_newline(s),
    ensures
        unescape_newlines(escape_newlines(s)) == s,
    decreases s.len(),
{
    if s.len() > 0 {
        let t = s.drop_first();
        assert(no_escaped_newline(t)) by {
            assert forall|i: int| 0 <= i < t.len() - 1 implies !(#[trigger] t[i] == '\\' && t[i + 1] == 'n') by {
                assert(t[i] == s[i + 1] && t[i + 1] == s[i + 2]);
            }
        }
        law_cd_reads_back_prompt(t);
        let e = escape_newlines(s);
        let et = escape_newlines(t);
        if s[0] == '\n' {
            assert(e =~= seq!['\\', 'n'] + et);
            assert(e.skip(2) =~= et);
            assert(unescape_newlines(e) =~= seq!['\n'] + unescape_newlines(et));
            assert(s =~= seq!['\n'] + t);
        } else {
            assert(e =~= seq![s[0]] + et);
            assert(e.drop_first() =~= et);
            if s[0] == '\\' && e.len() >= 2 && e[1] == 'n' {
                // The next shown character is `n`: it is `t`'s first, which
                // then is `n` or the newline that shows as `\n`.
                assert(et[0] == 'n');
                if t[0] == '\n' {
                    assert(et =~= seq!['\\', 'n'] + escape_newlines(t.drop_first()));
                } else {
                    assert(et =~= seq![t[0]] + escape_newlines(t.drop_first()));
                    assert(s[1] == 'n');
                }
                assert(false);
            }
            assert(unescape_newlines(e) =~= seq![s[0]] + unescape_newlines(et));
            assert(s =~= seq![s[0]] + t);
        }
    }
}

/// Where `cd` goes.
#[derive(Debug)]
pub enum CdTarget {
    /// More than one argument: `cd` reports it and stays.
    TooManyArgs,
    /// No argument, or `~`: the home directory.
    Home,
    /// `-`: the directory before the last change.
    Previous,
    /// The directory named, its escaped newlines read back.
    Path(String),
}

pub enum CdTargetView {
    TooManyArgs,
    Home,
    Previous,
    Path(Seq<char>),
}

impl View for CdTarget {
    type V = CdTargetView;

    open spec fn view(&self) -> CdTargetView {
        match self {
            CdTarget::TooManyArgs => CdTargetView::TooManyArgs,
            CdTarget::Home => CdTargetView::Home,
            CdTarget::Previous => CdTargetView::Previous,
            CdTarget::Path(p) => CdTargetView::Path(p@),
        }
    }
}

/// Where `cd` with the arguments `args` goes.
pub open spec fn cd_target_of(args: Seq<Seq<char>>) -> CdTargetView {
    if args.len() > 1 {
        CdTargetView::TooManyArgs
    } else if args.len() == 0 {
        CdTargetView::Home
    } else {
        let a = unescape_newlines(args[0]);
        if a == "-"@ {
            CdTargetView::Previous
        } else if a == "~"@ {
            CdTargetView::Home
        } else {
            CdTargetView::Path(a)
        }
    }
}

/// Decides where `cd` goes (see `cd_target_of`).
pub fn cd_target(args: &Vec<String>) -> (r: CdTarget)
    ensures
        r@ == cd_target_of(args.deep_view()),
{
    if args.len() > 1 {
        return CdTarget::TooManyArgs;
    }
    if args.len() == 0 {
        return CdTarget::Home;
    }
    assert(args.deep_view()[0] == args[0]@);
    let a = unescape_newline_text(args[0].as_str());
    if str_eq(a.as_str(), "-") {
        CdTarget::Previous
    } else if str_eq(a.as_str(), "~") {
        CdTarget::Home
    } else {
        CdTarget::Path(a)
    }
}

/// The directory `cd` goes to, its previous directory looked up.
#[derive(Debug)]
pub enum CdDestination {
    /// More than one argument: `cd` reports it and stays.
    TooManyArgs,
    /// The home directory.
    Home,
    /// The directory named, or the previous one for `-`.
    Dir(String),
}

pub enum CdDestinationView {
    TooManyArgs,
    Home,
    Dir(Seq<char>),
}

impl View for CdDestination {
    type V = CdDestinationView;

    open spec fn view(&self) -> CdDestinationView {
        match self {
            CdDestination::TooManyArgs => CdDestinationView::TooManyArgs,
            CdDestination::Home => CdDestinationView::Home,
            CdDestination::Dir(d) => CdDestinationView::Dir(d@),
        }
    }
}

/// Where `cd` with the arguments `args` goes when the (current, previous)
/// directories are `dirs`.
pub open spec fn cd_destination_of(args: Seq<Seq<char>>, dirs: (Seq<char>, Seq<char>)) -> CdDestinationView {
    match cd_target_of(args) {
        CdTargetView::TooManyArgs => CdDestinationView::TooManyArgs,
        CdTargetView::Home => CdDestinationView::Home,
        CdTargetView::Previous => CdDestinationView::Dir(dirs.1),
        CdTargetView::Path(p) => CdDestinationView::Dir(p),
    }
}

/// Decides where `cd` goes (see `cd_destination_of`).
pub fn cd_destination(args: &Vec<String>, pwd: &PwdState) -> (r: CdDestination)
    ensures
        r@ == cd_destination_of(args.deep_view(), pwd.dirs()),
{
    match cd_target(args) {
        CdTarget::TooManyArgs => CdDestination::TooManyArgs,
        CdTarget::Home => CdDestination::Home,
        CdTarget::Previous => CdDestination::Dir(pwd.get_old_dir()),
        CdTarget::Path(p) => CdDestination::Dir(p),
    }
}

/// `cd -` goes back: after `cd` from `dirs` reached some directory, `cd -`
/// goes to the directory that was current before, and once it is reached
/// the previous directory is the one the first `cd` led to.
pub proof fn law_cd_dash_returns(dirs: (Seq<char>, Seq<char>), reached: Seq<char>)
    ensures
        cd_destination_of(seq!["-"@], cd_record(dirs, reached)) == CdDestinationView::Dir(dirs.0),
        cd_record(cd_record(dirs, reached), dirs.0) == (dirs.0, reached),
{
    reveal_strlit("-");
    let d = "-"@;
    assert(unescape_newlines(d.skip(1)) == Seq::<char>::empty());
    assert(unescape_newlines(d) =~= seq![d[0]] + unescape_newlines(d.drop_first()));
    assert(d.drop_first() =~= d.skip(1));
    assert(unescape_newlines(d) =~= d);
}

/// The first character of `s` that is not `-`, `r` or `R`.
pub open spec fn first_bad_rm_option(s: Seq<char>) -> Option<char>
    decreases s.len(),
{
    if s.len() == 0 {
        None
    } else if s[0] != '-' && s[0] != 'r' && s[0] != 'R' {
        Some(s[0])
    } else {
        first_bad_rm_option(s.drop_first())
    }
}

/// `c` is a character that an option word of `rm` may hold: `-`, `r` or
/// `R`.
pub open spec fn rm_option_char(c: char) -> bool {
    c == '-' || c == 'r' || c == 'R'
}

/// Only `-`, `r` and `R` are accepted: `first_bad_rm_option(s)` is `None`
/// exactly where every character of `s` is one of them, and otherwise it
/// is the first character of `s` that is not.
pub proof fn law_first_bad_rm_option(s: Seq<char>)
    ensures
        (first_bad_rm_option(s) is None) <==> (forall|i: int| 0 <= i < s.len() ==> rm_option_char(#[trigger] s[i])),
        first_bad_rm_option(s) is Some ==> exists|i: int|
            0 <= i < s.len() && !rm_option_char(#[trigger] s[i]) && first_bad_rm_option(s)
                == Some(s[i]) && forall|j: int| 0 <= j < i ==> rm_option_char(#[trigger] s[j]),
    decreases s.len(),
{
    if s.len() > 0 {
        let t = s.drop_first();
        law_first_bad_rm_option(t);
        if rm_option_char(s[0]) {
            assert forall|i: int| 1 <= i < s.len() implies s[i] == t[i - 1] by {}
            if first_bad_rm_option(t) is Some {
                let k = choose|i: int|
                    0 <= i < t.len() && !rm_option_char(#[trigger] t[i]) && first_bad_rm_option(t)
                        == Some(t[i]) && forall|j: int| 0 <= j < i ==> rm_option_char(#[trigger] t[j]);
                assert(s[k + 1] == t[k]);
                assert forall|j: int| 0 <= j < k + 1 implies rm_option_char(#[trigger] s[j]) by {
                    if j > 0 {
                        assert(s[j] == t[j - 1]);
                    }
                }
            } else {
                assert forall|i: int| 0 <= i < s.len() implies rm_option_char(#[trigger] s[i]) by {
                    if i > 0 {
                        assert(s[i] == t[i - 1]);
                    }
                }
            }
            if exists|i: int| 0 <= i < s.len() && !rm_option_char(#[trigger] s[i]) {
                let i = choose|i: int| 0 <= i < s.len() && !rm_option_char(#[trigger] s[i]);
                assert(!rm_option_char(t[i - 1]));
            }
        } else {
            assert(0 <= 0 < s.len() && !rm_option_char(s[0]));
        }
    }
}

/// `s` starts with `-`.
pub open spec fn is_option_word(s: Seq<char>) -> bool {
    s.len() > 0 && s[0] == '-'
}

/// After the first `n` arguments of `rm`: whether removal is recursive,
/// and the first unknown option character met.
pub open spec fn rm_scan(args: Seq<Seq<char>>, n: int) -> (bool, Option<char>)
    decreases n,
{
    if n <= 0 {
        (false, None)
    } else {
        let (rec, bad) = rm_scan(args, n - 1);
        let a = args[n - 1];
        if bad is Some {
            (rec, bad)
        } else if a == "--recursive"@ {
            (true, None)
        } else if is_option_word(a) {
            match first_bad_rm_option(a.drop_first()) {
                Some(c) => (rec, Some(c)),
                None => (true, None),
            }
        } else {
            (rec, None)
        }
    }
}

/// `a` is an option word of `rm` that names an option other than `-`,
/// `r`, `R` (`--recursive` is no such word).
pub open spec fn invalid_rm_option(a: Seq<char>) -> bool {
    is_option_word(a) && a != "--recursive"@ && first_bad_rm_option(a.drop_first()) is Some
}

/// The options of `rm`, stated directly: among its first `n` arguments,
/// an option is invalid exactly where some option word names an unknown
/// option, and it is then the first unknown character of the first such
/// word; where none is invalid, removal is recursive exactly where some
/// argument starts with `-`.
pub proof fn law_rm_options(args: Seq<Seq<char>>, n: int)
    requires
        0 <= n <= args.len(),
    ensures
        (rm_scan(args, n).1 is None) <==> (forall|i: int| 0 <= i < n ==> !invalid_rm_option(#[trigger] args[i])),
        rm_scan(args, n).1 is Some ==> exists|i: int|
            0 <= i < n && invalid_rm_option(#[trigger] args[i]) && (forall|j: int|
                0 <= j < i ==> !invalid_rm_option(#[trigger] args[j])) && rm_scan(args, n).1
                == first_bad_rm_option(args[i].drop_first()),
        rm_scan(args, n).1 is None ==> (rm_scan(args, n).0 <==> exists|i: int|
            0 <= i < n && is_option_word(#[trigger] args[i])),
    decreases n,
{
    if n > 0 {
        law_rm_options(args, n - 1);
        let a = args[n - 1];
        if a == "--recursive"@ {
            reveal_strlit("--recursive");
            assert(is_option_word(a));
        }
        if rm_scan(args, n - 1).1 is Some {
            let i = choose|i: int|
                0 <= i < n - 1 && invalid_rm_option(#[trigger] args[i]) && (forall|j: int|
                    0 <= j < i ==> !invalid_rm_option(#[trigger] args[j])) && rm_scan(args, n - 1).1
                    == first_bad_rm_option(args[i].drop_first());
            assert(0 <= i < n && invalid_rm_option(args[i]));
        }
    }
}

/// `a` is an option word of `rm`, other than `--recursive`, holding after
/// its leading `-` a character other than `-`, `r`, `R`.
pub open spec fn unknown_option_word(a: Seq<char>) -> bool {
    &&& a.len() > 0
    &&& a[0] == '-'
    &&& a != "--recursive"@
    &&& exists|k: int| 1 <= k < a.len() && !rm_option_char(#[trigger] a[k])
}

/// The `k`-th character of `a` is the first after its leading `-` that is
/// not `-`, `r` or `R`.
pub open spec fn first_unknown_at(a: Seq<char>, k: int) -> bool {
    &&& 1 <= k < a.len()
    &&& !rm_option_char(a[k])
    &&& forall|m: int| 1 <= m < k ==> rm_option_char(#[trigger] a[m])
}

proof fn lemma_unknown_option_word(a: Seq<char>)
    ensures
        invalid_rm_option(a) <==> unknown_option_word(a),
        invalid_rm_option(a) ==> exists|k: int|
            first_unknown_at(a, k) && #[trigger] first_bad_rm_option(a.drop_first()) == Some(a[k]),
{
    let t = a.drop_first();
    law_first_bad_rm_option(t);
    if a.len() > 0 {
        assert forall|i: int| 0 <= i < t.len() implies t[i] == a[i + 1] by {}
        if exists|k: int| 1 <= k < a.len() && !rm_option_char(#[trigger] a[k]) {
            let k = choose|k: int| 1 <= k < a.len() && !rm_option_char(#[trigger] a[k]);
            assert(!rm_option_char(t[k - 1]));
        }
        if first_bad_rm_option(t) is Some {
            let i = choose|i: int|
                0 <= i < t.len() && !rm_option_char(#[trigger] t[i]) && first_bad_rm_option(t)
                    == Some(t[i]) && forall|j: int| 0 <= j < i ==> rm_option_char(#[trigger] t[j]);
            assert(!rm_option_char(a[i + 1]));
            assert forall|m: int| 1 <= m < i + 1 implies rm_option_char(#[trigger] a[m]) by {
                assert(a[m] == t[m - 1]);
            }
            assert(first_unknown_at(a, i + 1));
        }
    }
}

/// `rm` accepts only `-`, `r` and `R` after a leading `-` (besides
/// `--recursive`): it reports an invalid option exactly where some
/// argument is an option word holding another character, and then it
/// reports the first such character of the first such word.
pub proof fn law_rm_rejects_unknown_options(args: Seq<Seq<char>>)
    ensures
        (rm_plan_of(args) is InvalidOption) <==> exists|i: int|
            0 <= i < args.len() && unknown_option_word(#[trigger] args[i]),
        rm_plan_of(args) is InvalidOption ==> exists|i: int, k: int|
            #![trigger first_unknown_at(args[i], k)]
            0 <= i < args.len() && unknown_option_word(args[i]) && (forall|j: int|
                0 <= j < i ==> !unknown_option_word(#[trigger] args[j])) && first_unknown_at(
                args[i],
                k,
            ) && rm_plan_of(args) == RmPlanView::InvalidOption(args[i][k]),
{
    let n = args.len() as int;
    law_rm_options(args, n);
    assert forall|i: int| 0 <= i < n implies (invalid_rm_option(#[trigger] args[i])
        <==> unknown_option_word(args[i])) by {
        lemma_unknown_option_word(args[i]);
    }
    if rm_scan(args, n).1 is Some {
        let i = choose|i: int|
            0 <= i < n && invalid_rm_option(#[trigger] args[i]) && (forall|j: int|
                0 <= j < i ==> !invalid_rm_option(#[trigger] args[j])) && rm_scan(args, n).1
                == first_bad_rm_option(args[i].drop_first());
        lemma_unknown_option_word(args[i]);
        let k = choose|k: int|
            first_unknown_at(args[i], k) && #[trigger] first_bad_rm_option(args[i].drop_first())
                == Some(args[i][k]);
        assert(forall|j: int| 0 <= j < i ==> !unknown_option_word(#[trigger] args[j]));
        assert(rm_plan_of(args) == RmPlanView::InvalidOption(args[i][k]));
    }
}

/// The arguments of `rm` that do not start with `-`.
pub open spec fn rm_targets(args: Seq<Seq<char>>) -> Seq<Seq<char>>
    decreases args.len(),
{
    if args.len() == 0 {
        seq![]
    } else {
        rm_targets(args.drop_last()) + if is_option_word(args.last()) {
            seq![]
        } else {
            seq![args.last()]
        }
    }
}

/// What `rm` does with its arguments.
#[derive(Debug)]
pub enum RmPlan {
    /// An option character other than `-`, `r`, `R`: `rm` reports it and
    /// removes nothing.
    InvalidOption(char),
    /// No name to remove.
    MissingOperand,
    /// Remove the names, directories too where `recursive`.
    Remove { recursive: bool, targets: Vec<String> },
}

pub enum RmPlanView {
    InvalidOption(char),
    MissingOperand,
    Remove { recursive: bool, targets: Seq<Seq<char>> },
}

impl View for RmPlan {
    type V = RmPlanView;

    open spec fn view(&self) -> RmPlanView {
        match self {
            RmPlan::InvalidOption(c) => RmPlanView::InvalidOption(*c),
            RmPlan::MissingOperand => RmPlanView::MissingOperand,
            RmPlan::Remove { recursive, targets } => RmPlanView::Remove {
                recursive: *recursive,
                targets: targets.deep_view(),
            },
        }
    }
}

/// The names `rm` removes are its arguments that do not start with `-`,
/// in the order given.
pub proof fn law_rm_targets_are_names(args: Seq<Seq<char>>)
    ensures
        rm_targets(args) == args.filter(|a: Seq<char>| !(a.len() > 0 && a[0] == '-')),
    decreases args.len(),
{
    reveal(Seq::filter);
    if args.len() > 0 {
        law_rm_targets_are_names(args.drop_last());
        let f = rm_targets(args.drop_last());
        assert(f + Seq::<Seq<char>>::empty() =~= f);
        assert(f + seq![args.last()] =~= f.push(args.last()));
    }
}

/// What `rm` does with `args`: `--recursive` and any word of `-`, `r`,
/// `R` after a leading `-` make it recursive; the first other option
/// character stops it; the names are the words that do not start with
/// `-`.
pub open spec fn rm_plan_of(args: Seq<Seq<char>>) -> RmPlanView {
    let (rec, bad) = rm_scan(args, args.len() as int);
    match bad {
        Some(c) => RmPlanView::InvalidOption(c),
        None => if rm_targets(args).len() == 0 {
            RmPlanView::MissingOperand
        } else {
            RmPlanView::Remove { recursive: rec, targets: rm_targets(args) }
        },
    }
}

/// Decides what `rm` does with its arguments (see `rm_plan_of`).
pub fn rm_plan(args: &Vec<String>) -> (r: RmPlan)
    ensures
        r@ == rm_plan_of(args.deep_view()),
{
    let ghost all = args.deep_view();
    let mut recursive = false;
    let mut bad: Option<char> = None;
    let mut targets: Vec<String> = Vec::new();
    let mut i: usize = 0;
    assert(targets.deep_view() =~= rm_targets(all.take(0)));
    while i < args.len()
        invariant
            all == args.deep_view(),
            i <= args.len(),
            rm_scan(all, i as int) == (recursive, bad),
            targets.deep_view() == rm_targets(all.take(i as int)),
        decreases args.len() - i,
    {
        let a = &args[i];
        assert(all[i as int] == a@);
        assert(all.take(i + 1).drop_last() =~= all.take(i as int));
        let cs = chars_of(a.as_str());
        let option_word = cs.len() > 0 && cs[0] == '-';
        if bad.is_none() {
            if str_eq(a.as_str(), "--recursive") {
                recursive = true;
            } else if option_word {
                let mut k: usize = 1;
                assert(cs@.drop_first().skip(0) =~= cs@.drop_first());
                while k < cs.len() && (cs[k] == '-' || cs[k] == 'r' || cs[k] == 'R')
                    invariant
                        1 <= k <= cs.len(),
                        cs@ == a@,
                        first_bad_rm_option(cs@.drop_first()) == first_bad_rm_option(
                            cs@.drop_first().skip(k - 1),
                        ),
                    decreases cs.len() - k,
                {
                    assert(cs@.drop_first().skip(k - 1)[0] == cs@[k as int]);
                    assert(cs@.drop_first().skip(k - 1).drop_first() =~= cs@.drop_first().skip(
                        k as int,
                    ));
                    k = k + 1;
                }
                if k < cs.len() {
                    assert(cs@.drop_first().skip(k - 1)[0] == cs@[k as int]);
                    bad = Some(cs[k]);
                } else {
                    assert(cs@.drop_first().skip(k - 1).len() == 0);
                    recursive = true;
                }
            }
        }
        if !option_word {
            let ghost before = targets.deep_view();
            targets.push(a.clone());
            assert(targets.deep_view() =~= before.push(a@));
        }
        i = i + 1;
    }
    assert(all.take(i as int) =~= all);
    match bad {
        Some(c) => RmPlan::InvalidOption(c),
        None => {
            if targets.len() == 0 {
                RmPlan::MissingOperand
            } else {
                RmPlan::Remove { recursive, targets }
            }
        },
    }
}

/// The part of `p` after its last `/`: empty where `p` ends in `/`.
pub open spec fn last_part(p: Seq<char>) -> Seq<char>
    decreases p.len(),
{
    if p.len() == 0 || p.last() == '/' {
        seq![]
    } else {
        last_part(p.drop_last()).push(p.last())
    }
}

/// The final component of the path `p`, as `Path::file_name` gives it:
/// repeated and trailing `/` and `.` parts are normalised away, and there
/// is none where nothing else is left or the last part is `..`.
pub open spec fn final_component(p: Seq<char>) -> Option<Seq<char>>
    decreases p.len(),
{
    if p.len() == 0 {
        None
    } else if p.last() == '/' {
        final_component(p.drop_last())
    } else if last_part(p) == "."@ {
        final_component(p.drop_last())
    } else if last_part(p) == ".."@ {
        None
    } else {
        Some(last_part(p))
    }
}

/// A final component is never `.` or `..`.
pub proof fn lemma_final_component_is_normal(p: Seq<char>)
    ensures
        final_component(p) != Some("."@),
        final_component(p) != Some(".."@),
    decreases p.len(),
{
    if p.len() > 0 {
        lemma_final_component_is_normal(p.drop_last());
    }
}

/// The final component of a path.
/// Trusted: calls `std::path::Path::file_name` and takes the component as
/// text. `Path::file_name` gives the last of the path's components where
/// it is a normal one; its documentation, and that of `Path::components`,
/// say that repeated separators, a trailing separator and `.` parts other
/// than a leading one are normalised away, and that the result is `None`
/// where the path terminates in `..`. `final_component` writes this out.
#[verifier::external_body]
fn file_name_of(path: &str) -> (r: Option<String>)
    ensures
        r.deep_view() == final_component(path@),
{
    let name = std::path::Path::new(path).file_name()?;
    Some(name.to_str()?.to_string())
}

/// Whether a final path component is `.` or `..`, which `rm` refuses to
/// remove.
pub fn refuses_component(name: &Option<String>) -> (r: bool)
    ensures
        r == (name.deep_view() == Some("."@) || name.deep_view() == Some(".."@)),
{
    match name {
        Some(n) => str_eq(n.as_str(), ".") || str_eq(n.as_str(), ".."),
        None => false,
    }
}

/// Whether `rm` refuses to remove `target` because its final component is
/// `.` or `..`: never, as `Path::file_name` gives no such component.
pub fn rm_refuses(target: &str) -> (r: bool)
    ensures
        r == (final_component(target@) == Some("."@) || final_component(target@) == Some(".."@)),
        !r,
{
    let name = file_name_of(target);
    proof {
        lemma_final_component_is_normal(target@);
    }
    refuses_component(&name)
}

/// What `rm` does with one name, given the type of what it names (not
/// following links).
#[derive(Debug, Clone, Copy, PartialEq, Eq, Structural)]
pub enum RmAction {
    /// Remove the link itself.
    RemoveLink,
    /// Report that it is a directory and leave it.
    RefuseDirectory,
    /// Remove the directory and all it holds.
    RemoveTree,
    /// Remove the file.
    RemoveFile,
}

/// What `rm` does with a name of type `kind`: a link is removed itself, a
/// directory only where removal is recursive, anything else as a file.
pub open spec fn rm_action_of(kind: FileKind, recursive: bool) -> RmAction {
    if kind == FileKind::Symlink {
        RmAction::RemoveLink
    } else if kind == FileKind::Directory {
        if recursive {
            RmAction::RemoveTree
        } else {
            RmAction::RefuseDirectory
        }
    } else {
        RmAction::RemoveFile
    }
}

/// `rm` removes a link itself whatever it points to, removes a directory
/// only where removal is recursive, and removes anything else as a file.
pub proof fn law_rm_actions(kind: FileKind, recursive: bool)
    ensures
        kind == FileKind::Symlink ==> rm_action_of(kind, recursive) == RmAction::RemoveLink,
        kind == FileKind::Directory && recursive ==> rm_action_of(kind, recursive)
            == RmAction::RemoveTree,
        kind == FileKind::Directory && !recursive ==> rm_action_of(kind, recursive)
            == RmAction::RefuseDirectory,
        kind != FileKind::Symlink && kind != FileKind::Directory ==> rm_action_of(kind, recursive)
            == RmAction::RemoveFile,
{
}

/// `cd` with no argument or with `~` goes home, with more than one
/// argument goes nowhere, and with `-` goes to the previous directory.
pub proof fn law_cd_destinations(args: Seq<Seq<char>>, dirs: (Seq<char>, Seq<char>))
    ensures
        args.len() == 0 ==> cd_destination_of(args, dirs) is Home,
        args == seq!["~"@] ==> cd_destination_of(args, dirs) is Home,
        args == seq!["-"@] ==> cd_destination_of(args, dirs) == CdDestinationView::Dir(dirs.1),
        args.len() > 1 ==> cd_destination_of(args, dirs) is TooManyArgs,
{
    reveal_strlit("-");
    reveal_strlit("~");
    let d = "-"@;
    assert(unescape_newlines(d.skip(1)) == Seq::<char>::empty());
    assert(unescape_newlines(d) =~= seq![d[0]] + unescape_newlines(d.drop_first()));
    assert(d.drop_first() =~= d.skip(1));
    assert(unescape_newlines(d) =~= d);
    let t = "~"@;
    assert(unescape_newlines(t.skip(1)) == Seq::<char>::empty());
    assert(unescape_newlines(t) =~= seq![t[0]] + unescape_newlines(t.drop_first()));
    assert(t.drop_first() =~= t.skip(1));
    assert(unescape_newlines(t) =~= t);
}

/// Decides what `rm` does with one name (see `rm_action_of`).
pub fn rm_action(kind: FileKind, recursive: bool) -> (r: RmAction)
    ensures
        r == rm_action_of(kind, recursive),
{
    if kind == FileKind::Symlink {
        RmAction::RemoveLink
    } else if kind == FileKind::Directory {
        if recursive {
            RmAction::RemoveTree
        } else {
            RmAction::RefuseDirectory
        }
    } else {
        RmAction::RemoveFile
    }
}

/// The path `name` inside the directory `dir`, as `PathBuf::push` builds
/// it for a relative `name`: a `/` between them unless `dir` is empty or
/// already ends in one.
pub open spec fn join_path(dir: Seq<char>, name: Seq<char>) -> Seq<char> {
    if dir.len() == 0 {
        name
    } else if dir.last() == '/' {
        dir + name
    } else {
        dir + seq!['/'] + name
    }
}

/// The path `name` inside the directory `dir` (see `join_path`).
pub fn join_path_text(dir: &str, name: &str) -> (r: String)
    ensures
        r@ == join_path(dir@, name@),
{
    let cs = chars_of(dir);
    let mut r = string_of(dir);
    if cs.len() > 0 && cs[cs.len() - 1] != '/' {
        push_char(&mut r, '/');
    }
    let ns = chars_of(name);
    let mut i: usize = 0;
    let ghost start = r@;
    while i < ns.len()
        invariant
            i <= ns.len(),
            ns@ == name@,
            r@ == start + ns@.take(i as int),
        decreases ns.len() - i,
    {
        push_char(&mut r, ns[i]);
        i = i + 1;
        assert(r@ =~= start + ns@.take(i as int));
    }
    assert(ns@.take(i as int) =~= ns@);
    proof {
        if dir@.len() == 0 {
            assert(start =~= Seq::<char>::empty());
            assert(r@ =~= name@);
        }
    }
    r
}

/// Where `source` goes when it is put into the directory `dir` under its
/// own name: `None` where its path has no final component.
pub open spec fn destination_in_of(dir: Seq<char>, source: Seq<char>) -> Option<Seq<char>> {
    match final_component(source) {
        Some(n) => Some(join_path(dir, n)),
        None => None,
    }
}

/// Where `source` goes when it is put into the directory `dir` (see
/// `destination_in_of`).
pub fn destination_in(dir: &str, source: &str) -> (r: Option<String>)
    ensures
        r.deep_view() == destination_in_of(dir@, source@),
{
    match file_name_of(source) {
        Some(n) => Some(join_path_text(dir, n.as_str())),
        None => None,
    }
}

/// What `cp` does.
#[derive(Debug)]
pub enum CpPlan {
    /// No argument.
    MissingFileOperand,
    /// Only a source, named here.
    MissingDestination(String),
    /// The source is not a regular file.
    NoSuchSource(String),
    /// The destination is a directory and the source's path has no final
    /// component to name the copy by.
    NoSourceName,
    /// Copy the source into the destination directory, under its own name:
    /// `destination` is that path.
    CopyIntoDir { source: String, destination: String },
    /// Copy the source to the destination path.
    CopyTo { source: String, destination: String },
}

pub enum CpPlanView {
    MissingFileOperand,
    MissingDestination(Seq<char>),
    NoSuchSource(Seq<char>),
    NoSourceName,
    CopyIntoDir { source: Seq<char>, destination: Seq<char> },
    CopyTo { source: Seq<char>, destination: Seq<char> },
}

impl View for CpPlan {
    type V = CpPlanView;

    open spec fn view(&self) -> CpPlanView {
        match self {
            CpPlan::MissingFileOperand => CpPlanView::MissingFileOperand,
            CpPlan::MissingDestination(s) => CpPlanView::MissingDestination(s@),
            CpPlan::NoSuchSource(s) => CpPlanView::NoSuchSource(s@),
            CpPlan::NoSourceName => CpPlanView::NoSourceName,
            CpPlan::CopyIntoDir { source, destination } => CpPlanView::CopyIntoDir {
                source: source@,
                destination: destination@,
            },
            CpPlan::CopyTo { source, destination } => CpPlanView::CopyTo {
                source: source@,
                destination: destination@,
            },
        }
    }
}

/// What `cp` does with `args`, where `source_is_file` tells whether the
/// first names a regular file and `destination_is_dir` whether the second
/// names a directory; arguments after the second are ignored.
pub open spec fn cp_plan_of(
    args: Seq<Seq<char>>,
    source_is_file: bool,
    destination_is_dir: bool,
) -> CpPlanView {
    if args.len() == 0 {
        CpPlanView::MissingFileOperand
    } else if args.len() == 1 {
        CpPlanView::MissingDestination(args[0])
    } else if !source_is_file {
        CpPlanView::NoSuchSource(args[0])
    } else if destination_is_dir {
        match destination_in_of(args[1], args[0]) {
            Some(d) => CpPlanView::CopyIntoDir { source: args[0], destination: d },
            None => CpPlanView::NoSourceName,
        }
    } else {
        CpPlanView::CopyTo { source: args[0], destination: args[1] }
    }
}

/// Decides what `cp` does (see `cp_plan_of`).
pub fn cp_plan(args: &Vec<String>, source_is_file: bool, destination_is_dir: bool) -> (r: CpPlan)
    ensures
        r@ == cp_plan_of(args.deep_view(), source_is_file, destination_is_dir),
{
    if args.len() == 0 {
        return CpPlan::MissingFileOperand;
    }
    assert(args.deep_view()[0] == args[0]@);
    if args.len() == 1 {
        return CpPlan::MissingDestination(args[0].clone());
    }
    assert(args.deep_view()[1] == args[1]@);
    if !source_is_file {
        CpPlan::NoSuchSource(args[0].clone())
    } else if destination_is_dir {
        match destination_in(args[1].as_str(), args[0].as_str()) {
            Some(d) => CpPlan::CopyIntoDir { source: args[0].clone(), destination: d },
            None => CpPlan::NoSourceName,
        }
    } else {
        CpPlan::CopyTo { source: args[0].clone(), destination: args[1].clone() }
    }
}

/// What `mv` does.
#[derive(Debug)]
pub enum MvPlan {
    /// Fewer than two arguments.
    MissingOperand,
    /// Move one path to `destination`.
    Rename { source: String, destination: String },
    /// Several sources and a last argument that is no directory.
    NotADirectory(String),
    /// Move each of `sources` to the path at the same position in
    /// `destinations`.
    MoveAll { sources: Vec<String>, destinations: Vec<String> },
}

pub enum MvPlanView {
    MissingOperand,
    Rename { source: Seq<char>, destination: Seq<char> },
    NotADirectory(Seq<char>),
    MoveAll { sources: Seq<Seq<char>>, destinations: Seq<Seq<char>> },
}

impl View for MvPlan {
    type V = MvPlanView;

    open spec fn view(&self) -> MvPlanView {
        match self {
            MvPlan::MissingOperand => MvPlanView::MissingOperand,
            MvPlan::Rename { source, destination } => MvPlanView::Rename {
                source: source@,
                destination: destination@,
            },
            MvPlan::NotADirectory(s) => MvPlanView::NotADirectory(s@),
            MvPlan::MoveAll { sources, destinations } => MvPlanView::MoveAll {
                sources: sources.deep_view(),
                destinations: destinations.deep_view(),
            },
        }
    }
}

/// The moves of the paths `srcs` into the directory `dir`, in order: the
/// paths that have a final component, and where each goes.
pub open spec fn moves_into(srcs: Seq<Seq<char>>, dir: Seq<char>) -> (
    Seq<Seq<char>>,
    Seq<Seq<char>>,
)
    decreases srcs.len(),
{
    if srcs.len() == 0 {
        (seq![], seq![])
    } else {
        let (s, d) = moves_into(srcs.drop_last(), dir);
        match destination_in_of(dir, srcs.last()) {
            Some(t) => (s.push(srcs.last()), d.push(t)),
            None => (s, d),
        }
    }
}

/// What `mv` does with `args`, where `last_is_dir` tells whether the last
/// argument names a directory: one path goes into that directory under
/// its own name (or to the directory's path where it has no final
/// component), or else to the path named; several go into the
/// directory, those without a final component left where they are.
pub open spec fn mv_plan_of(args: Seq<Seq<char>>, last_is_dir: bool) -> MvPlanView {
    if args.len() < 2 {
        MvPlanView::MissingOperand
    } else if args.len() == 2 {
        MvPlanView::Rename {
            source: args[0],
            destination: if last_is_dir {
                match destination_in_of(args[1], args[0]) {
                    Some(d) => d,
                    None => args[1],
                }
            } else {
                args[1]
            },
        }
    } else if !last_is_dir {
        MvPlanView::NotADirectory(args.last())
    } else {
        MvPlanView::MoveAll {
            sources: moves_into(args.drop_last(), args.last()).0,
            destinations: moves_into(args.drop_last(), args.last()).1,
        }
    }
}

/// Decides what `mv` does (see `mv_plan_of`).
pub fn mv_plan(args: Vec<String>, last_is_dir: bool) -> (r: MvPlan)
    ensures
        r@ == mv_plan_of(args.deep_view(), last_is_dir),
{
    let ghost all = args.deep_view();
    let mut args = args;
    if args.len() < 2 {
        return MvPlan::MissingOperand;
    }
    let last = args.pop().unwrap();
    assert(args.deep_view() =~= all.drop_last());
    assert(last@ == all.last());
    if args.len() == 1 {
        let source = args.pop().unwrap();
        assert(source@ == all[0]);
        assert(last@ == all[1]);
        let destination = if last_is_dir {
            match destination_in(last.as_str(), source.as_str()) {
                Some(d) => d,
                None => last,
            }
        } else {
            last
        };
        MvPlan::Rename { source, destination }
    } else if !last_is_dir {
        MvPlan::NotADirectory(last)
    } else {
        let ghost srcs = args.deep_view();
        let mut sources: Vec<String> = Vec::new();
        let mut destinations: Vec<String> = Vec::new();
        let mut i: usize = 0;
        assert(srcs.take(0) =~= Seq::<Seq<char>>::empty());
        while i < args.len()
            invariant
                srcs == args.deep_view(),
                i <= args.len(),
                (sources.deep_view(), destinations.deep_view()) == moves_into(
                    srcs.take(i as int),
                    last@,
                ),
            decreases args.len() - i,
        {
            assert(srcs.take(i + 1).drop_last() =~= srcs.take(i as int));
            assert(srcs.take(i + 1).last() == args[i as int]@);
            match destination_in(last.as_str(), args[i].as_str()) {
                Some(d) => {
                    let ghost (s0, d0) = (sources.deep_view(), destinations.deep_view());
                    sources.push(args[i].clone());
                    destinations.push(d);
                    assert(sources.deep_view() =~= s0.push(args[i as int]@));
                    assert(destinations.deep_view() =~= d0.push(d@));
                },
                None => {},
            }
            i = i + 1;
        }
        assert(srcs.take(i as int) =~= srcs);
        MvPlan::MoveAll { sources, destinations }
    }
}

/// `prefix`, then `s`, then `suffix`.
pub fn framed(prefix: &str, s: &str, suffix: &str) -> (r: String)
    ensures
        r@ == prefix@ + s@ + suffix@,
{
    let mut r = string_of(prefix);
    r.append(s);
    r.append(suffix);
    r
}

/// The message `rm` prints for a plan that removes nothing; `None` for a
/// plan that removes.
pub open spec fn rm_message_of(plan: RmPlanView) -> Option<Seq<char>> {
    match plan {
        RmPlanView::InvalidOption(c) => Some("rm: invalid option -- '"@ + seq![c] + "'"@),
        RmPlanView::MissingOperand => Some("rm: missing operand"@),
        RmPlanView::Remove { .. } => None,
    }
}

/// The message `rm` prints for `plan` (see `rm_message_of`).
pub fn rm_message(plan: &RmPlan) -> (r: Option<String>)
    ensures
        r.deep_view() == rm_message_of(plan@),
{
    match plan {
        RmPlan::InvalidOption(c) => {
            let mut m = string_of("rm: invalid option -- '");
            push_char(&mut m, *c);
            m.append("'");
            Some(m)
        },
        RmPlan::MissingOperand => Some(string_of("rm: missing operand")),
        RmPlan::Remove { .. } => None,
    }
}

/// The message `cp` prints for a plan that copies nothing; `None` for a
/// plan that copies.
pub open spec fn cp_message_of(plan: CpPlanView) -> Option<Seq<char>> {
    match plan {
        CpPlanView::MissingFileOperand => Some("cp: missing file operand"@),
        CpPlanView::MissingDestination(s) => Some(
            "cp: missing destination file operand after '"@ + s + "'"@,
        ),
        CpPlanView::NoSuchSource(s) => Some(
            "cp: cannot stat '"@ + s + "': No such file or directory"@,
        ),
        CpPlanView::NoSourceName => Some("cp: error getting file name from source path"@),
        _ => None,
    }
}

/// The message `cp` prints for `plan` (see `cp_message_of`).
pub fn cp_message(plan: &CpPlan) -> (r: Option<String>)
    ensures
        r.deep_view() == cp_message_of(plan@),
{
    match plan {
        CpPlan::MissingFileOperand => Some(string_of("cp: missing file operand")),
        CpPlan::MissingDestination(s) => Some(
            framed("cp: missing destination file operand after '", s.as_str(), "'"),
        ),
        CpPlan::NoSuchSource(s) => Some(
            framed("cp: cannot stat '", s.as_str(), "': No such file or directory"),
        ),
        CpPlan::NoSourceName => Some(string_of("cp: error getting file name from source path")),
        _ => None,
    }
}

/// The message `mv` prints for a plan that moves nothing; `None` for a
/// plan that moves.
pub open spec fn mv_message_of(plan: MvPlanView) -> Option<Seq<char>> {
    match plan {
        MvPlanView::MissingOperand => Some("mv: missing operand"@),
        MvPlanView::NotADirectory(d) => Some("mv: target '"@ + d + "' is not a directory"@),
        _ => None,
    }
}

/// The message `mv` prints for `plan` (see `mv_message_of`).
pub fn mv_message(plan: &MvPlan) -> (r: Option<String>)
    ensures
        r.deep_view() == mv_message_of(plan@),
{
    match plan {
        MvPlan::MissingOperand => Some(string_of("mv: missing operand")),
        MvPlan::NotADirectory(d) => Some(framed("mv: target '", d.as_str(), "' is not a directory")),
        _ => None,
    }
}

} // verus!
