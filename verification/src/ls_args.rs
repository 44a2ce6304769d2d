use vstd::prelude::*;
use crate::text::{chars_of, str_eq, string_of};

verus! {

/// The options of `ls`: `-a` (show hidden entries), `-l` (long listing),
/// `-F` (append a type indicator to names).
#[derive(Debug, Clone, Copy, PartialEq, Eq, Structural)]
pub struct Flag {
    pub a: bool,
    pub l: bool,
    pub f: bool,
}

impl Default for Flag {
    fn default() -> (r: Flag)
        ensures
            r == (Flag { a: false, l: false, f: false }),
    {
        Flag { a: false, l: false, f: false }
    }
}

/// `c` occurs in `s` after its first character.
pub open spec fn has_option(s: Seq<char>, c: char) -> bool {
    exists|i: int| 1 <= i < s.len() && s[i] == c
}

/// Every character of `s` after the first is one of `a`, `l`, `F`.
pub open spec fn only_known_options(s: Seq<char>) -> bool {
    forall|i: int| 1 <= i < s.len() ==> (s[i] == 'a' || s[i] == 'l' || s[i] == 'F')
}

/// The options after reading the option word `s` (such as `-la`) from
/// `f`, or `None` where `s` is not an option word: it is one character or
/// shorter, or names an option other than `a`, `l`, `F`.
pub open spec fn flag_after(f: Flag, s: Seq<char>) -> Option<Flag> {
    if s.len() > 1 && only_known_options(s) {
        Some(
            Flag {
                a: f.a || has_option(s, 'a'),
                l: f.l || has_option(s, 'l'),
                f: f.f || has_option(s, 'F'),
            },
        )
    } else {
        None
    }
}

/// Reads the option word `arg` into `flag`; returns whether it is one.
/// A word that is not leaves `flag` unchanged.
pub fn parse_flag(arg: &str, flag: &mut Flag) -> (r: bool)
    requires
        arg@.len() == 0 || arg@[0] <= '\u{7f}',
    ensures
        r == (flag_after(*old(flag), arg@) is Some),
        r ==> *final(flag) == flag_after(*old(flag), arg@)->Some_0,
        !r ==> *final(flag) == *old(flag),
{
    let cs = chars_of(arg);
    if cs.len() <= 1 {
        return false;
    }
    let mut i: usize = 1;
    while i < cs.len()
        invariant
            cs@ == arg@,
            1 <= i <= cs.len(),
            forall|j: int| 1 <= j < i ==> (cs@[j] == 'a' || cs@[j] == 'l' || cs@[j] == 'F'),
        decreases cs.len() - i,
    {
        let c = cs[i];
        if !(c == 'a' || c == 'l' || c == 'F') {
            return false;
        }
        i = i + 1;
    }
    let ghost start = *flag;
    let mut i: usize = 1;
    while i < cs.len()
        invariant
            cs@ == arg@,
            1 <= i <= cs.len(),
            flag.a == (start.a || exists|j: int| 1 <= j < i && cs@[j] == 'a'),
            flag.l == (start.l || exists|j: int| 1 <= j < i && cs@[j] == 'l'),
            flag.f == (start.f || exists|j: int| 1 <= j < i && cs@[j] == 'F'),
        decreases cs.len() - i,
    {
        let c = cs[i];
        if c == 'a' {
            flag.a = true;
        } else if c == 'l' {
            flag.l = true;
        } else if c == 'F' {
            flag.f = true;
        }
        i = i + 1;
    }
    true
}

/// What a path named on the command line of `ls` is.
#[derive(Debug, Clone, Copy, PartialEq, Eq, Structural)]
pub enum PathKind {
    /// Nothing is there.
    Missing,
    /// A directory, not reached through a symbolic link.
    Directory,
    /// Anything else: a file, a symbolic link, a device.
    Other,
}

/// The arguments of `ls` sorted out: its options, the files and the
/// directories to list, the names that do not exist, and the first word
/// that looked like an option and was not one.
#[derive(Debug)]
pub struct LsArgs {
    pub flag: Flag,
    pub files: Vec<String>,
    pub dirs: Vec<String>,
    pub errors: Vec<String>,
    pub bad_option: Option<String>,
}

pub struct LsArgsView {
    pub flag: Flag,
    pub files: Seq<Seq<char>>,
    pub dirs: Seq<Seq<char>>,
    pub errors: Seq<Seq<char>>,
    pub bad_option: Option<Seq<char>>,
}

impl View for LsArgs {
    type V = LsArgsView;

    open spec fn view(&self) -> LsArgsView {
        LsArgsView {
            flag: self.flag,
            files: self.files.deep_view(),
            dirs: self.dirs.deep_view(),
            errors: self.errors.deep_view(),
            bad_option: self.bad_option.deep_view(),
        }
    }
}

/// The state of `ls`'s scan of its arguments.
pub struct ScanState {
    pub flag: Flag,
    pub files: Seq<Seq<char>>,
    pub dirs: Seq<Seq<char>>,
    pub errors: Seq<Seq<char>>,
    pub after_double_dash: bool,
    pub bad_option: Option<Seq<char>>,
}

pub open spec fn scan_start() -> ScanState {
    ScanState {
        flag: Flag { a: false, l: false, f: false },
        files: seq![],
        dirs: seq![],
        errors: seq![],
        after_double_dash: false,
        bad_option: None,
    }
}

/// One argument `arg`, of kind `kind`, read in state `st`: after a bad
/// option nothing changes; `--` ends the options; before it, a word that
/// starts with `-` is an option word; anything else is a file, a
/// directory or a missing name.
pub open spec fn scan_step(st: ScanState, arg: Seq<char>, kind: PathKind) -> ScanState {
    if st.bad_option is Some {
        st
    } else if arg == "--"@ {
        ScanState { after_double_dash: true, ..st }
    } else if arg.len() > 0 && arg[0] == '-' && !st.after_double_dash {
        match flag_after(st.flag, arg) {
            Some(f) => ScanState { flag: f, ..st },
            None => ScanState { bad_option: Some(arg), ..st },
        }
    } else {
        match kind {
            PathKind::Missing => ScanState { errors: st.errors.push(arg), ..st },
            PathKind::Directory => ScanState { dirs: st.dirs.push(arg), ..st },
            PathKind::Other => ScanState { files: st.files.push(arg), ..st },
        }
    }
}

/// The state after reading the first `n` arguments.
pub open spec fn scan(args: Seq<Seq<char>>, kinds: Seq<PathKind>, n: int) -> ScanState
    decreases n,
{
    if n <= 0 {
        scan_start()
    } else {
        scan_step(scan(args, kinds, n - 1), args[n - 1], kinds[n - 1])
    }
}

/// The marker that stands in the list of missing names once `ls` stops on
/// a bad option.
pub open spec fn stop_marker() -> Seq<char> {
    "__STOP__"@
}

/// How `ls` sorts out `args`, where `kinds[i]` is what `args[i]` names: a
/// bad option (or a sole missing name that reads `__STOP__`) leaves no
/// file or directory to list and the marker `__STOP__` as the only
/// missing name.
pub open spec fn ls_args_of(args: Seq<Seq<char>>, kinds: Seq<PathKind>) -> LsArgsView {
    let st = scan(args, kinds, args.len() as int);
    if st.bad_option is Some || (st.errors.len() == 1 && st.errors[0] == stop_marker()) {
        LsArgsView {
            flag: st.flag,
            files: seq![],
            dirs: seq![],
            errors: seq![stop_marker()],
            bad_option: st.bad_option,
        }
    } else {
        LsArgsView {
            flag: st.flag,
            files: st.files,
            dirs: st.dirs,
            errors: st.errors,
            bad_option: None,
        }
    }
}

/// Sorts out the arguments of `ls`; `kinds[i]` tells what `args[i]` names.
pub fn parse_args(args: Vec<String>, kinds: &Vec<PathKind>) -> (r: LsArgs)
    requires
        args.len() == kinds.len(),
    ensures
        r@ == ls_args_of(args.deep_view(), kinds@),
{
    let ghost all = args.deep_view();
    let mut left = args;
    let mut flag = Flag { a: false, l: false, f: false };
    let mut files: Vec<String> = Vec::new();
    let mut dirs: Vec<String> = Vec::new();
    let mut errors: Vec<String> = Vec::new();
    let mut after_double_dash = false;
    let mut bad_option: Option<String> = None;
    let mut k: usize = 0;
    proof {
        assert(files.deep_view() =~= Seq::<Seq<char>>::empty());
        assert(dirs.deep_view() =~= Seq::<Seq<char>>::empty());
        assert(errors.deep_view() =~= Seq::<Seq<char>>::empty());
        assert(left.deep_view() =~= all.skip(0));
    }
    while left.len() > 0
        invariant
            all.len() == kinds.len(),
            k <= all.len(),
            left.deep_view() == all.skip(k as int),
            scan(all, kinds@, k as int) == (ScanState {
                flag: flag,
                files: files.deep_view(),
                dirs: dirs.deep_view(),
                errors: errors.deep_view(),
                after_double_dash: after_double_dash,
                bad_option: bad_option.deep_view(),
            }),
        decreases left.len(),
    {
        let ghost before = left.deep_view();
        let arg = left.remove(0);
        proof {
            assert(left.deep_view() =~= before.drop_first());
            assert(all.skip(k as int).drop_first() =~= all.skip(k + 1));
            assert(before[0] == arg@);
            assert(all.skip(k as int)[0] == all[k as int]);
        }
        let kind = kinds[k];
        if bad_option.is_none() {
            let cs = chars_of(arg.as_str());
            if str_eq(arg.as_str(), "--") {
                after_double_dash = true;
            } else if cs.len() > 0 && cs[0] == '-' && !after_double_dash {
                if !parse_flag(arg.as_str(), &mut flag) {
                    bad_option = Some(arg);
                }
            } else {
                match kind {
                    PathKind::Missing => {
                        let ghost old_v = errors.deep_view();
                        errors.push(arg);
                        assert(errors.deep_view() =~= old_v.push(arg@));
                    },
                    PathKind::Directory => {
                        let ghost old_v = dirs.deep_view();
                        dirs.push(arg);
                        assert(dirs.deep_view() =~= old_v.push(arg@));
                    },
                    PathKind::Other => {
                        let ghost old_v = files.deep_view();
                        files.push(arg);
                        assert(files.deep_view() =~= old_v.push(arg@));
                    },
                }
            }
        }
        k = k + 1;
    }
    let stop = string_of("__STOP__");
    let stopped = bad_option.is_some() || (errors.len() == 1 && str_eq(
        errors[0].as_str(),
        stop.as_str(),
    ));
    proof {
        if errors.len() == 1 {
            assert(errors.deep_view()[0] == errors[0]@);
        }
    }
    if stopped {
        let mut only: Vec<String> = Vec::new();
        only.push(stop);
        let no_files: Vec<String> = Vec::new();
        let no_dirs: Vec<String> = Vec::new();
        assert(only.deep_view() =~= seq![stop_marker()]);
        assert(no_files.deep_view() =~= Seq::<Seq<char>>::empty());
        assert(no_dirs.deep_view() =~= Seq::<Seq<char>>::empty());
        LsArgs { flag, files: no_files, dirs: no_dirs, errors: only, bad_option }
    } else {
        LsArgs { flag, files, dirs, errors, bad_option: None }
    }
}

/// What `ls` lists once its arguments are sorted out.
#[derive(Debug)]
pub struct LsLayout {
    pub flag: Flag,
    pub files: Vec<String>,
    /// The directories to list: `.` where no name was given.
    pub dirs: Vec<String>,
    pub errors: Vec<String>,
    /// After reporting the missing names, list nothing.
    pub stop_after_errors: bool,
    /// Put `name:` above the listing of each directory.
    pub show_headers: bool,
}

/// Decides what `ls` lists: the current directory `.` where no name was
/// given; nothing beyond the missing names where only missing names were
/// given; directory headers where there is more than one thing to show.
pub fn ls_layout(parsed: LsArgs) -> (r: LsLayout)
    ensures
        r.flag == parsed.flag,
        r.files.deep_view() == parsed.files.deep_view(),
        r.errors.deep_view() == parsed.errors.deep_view(),
        r.dirs.deep_view() == if parsed.files.len() == 0 && parsed.dirs.len() == 0
            && parsed.errors.len() == 0 {
            seq![seq!['.']]
        } else {
            parsed.dirs.deep_view()
        },
        r.stop_after_errors == (parsed.errors.len() > 0 && parsed.files.len() == 0
            && r.dirs.len() == 0),
        r.show_headers == (parsed.files.len() > 0 || r.dirs.len() > 1 || parsed.errors.len()
            > 0),
{
    let LsArgs { flag, files, dirs, errors, bad_option: _ } = parsed;
    let dirs = if files.len() == 0 && dirs.len() == 0 && errors.len() == 0 {
        let mut d: Vec<String> = Vec::new();
        let dot = string_of(".");
        proof {
            reveal_strlit(".");
            assert(dot@ =~= seq!['.']);
        }
        d.push(dot);
        assert(d.deep_view() =~= seq![seq!['.']]);
        d
    } else {
        dirs
    };
    let stop_after_errors = errors.len() > 0 && files.len() == 0 && dirs.len() == 0;
    let show_headers = files.len() > 0 || dirs.len() > 1 || errors.len() > 0;
    LsLayout { flag, files, dirs, errors, stop_after_errors, show_headers }
}

/// Whether a blank line goes before the listing of the `i`-th directory:
/// after the first, or after a list of files.
pub fn blank_line_before(i: usize, listed_files: bool) -> (r: bool)
    ensures
        r == (i > 0 || listed_files),
{
    i > 0 || listed_files
}

/// Some argument before the `i`-th is `--`.
pub open spec fn double_dash_before(args: Seq<Seq<char>>, i: int) -> bool {
    exists|j: int| 0 <= j < i && args[j] == "--"@
}

/// The `i`-th argument is read as an option: it is `--`, or starts with
/// `-` and comes before any `--`.
pub open spec fn is_option_arg(args: Seq<Seq<char>>, i: int) -> bool {
    args[i] == "--"@ || (args[i].len() > 0 && args[i][0] == '-' && !double_dash_before(args, i))
}

/// The arguments among the first `n` that are names (not options) of
/// kind `kind`, in the order given.
pub open spec fn names_of_kind(
    args: Seq<Seq<char>>,
    kinds: Seq<PathKind>,
    n: int,
    kind: PathKind,
) -> Seq<Seq<char>>
    decreases n,
{
    if n <= 0 {
        seq![]
    } else {
        names_of_kind(args, kinds, n - 1, kind) + if !is_option_arg(args, n - 1) && kinds[n - 1]
            == kind {
            seq![args[n - 1]]
        } else {
            seq![]
        }
    }
}

proof fn lemma_scan_names(args: Seq<Seq<char>>, kinds: Seq<PathKind>, n: int)
    requires
        0 <= n <= args.len(),
        args.len() == kinds.len(),
    ensures
        scan(args, kinds, n).bad_option is None ==> {
            &&& scan(args, kinds, n).after_double_dash == double_dash_before(args, n)
            &&& scan(args, kinds, n).dirs == names_of_kind(args, kinds, n, PathKind::Directory)
            &&& scan(args, kinds, n).files == names_of_kind(args, kinds, n, PathKind::Other)
            &&& scan(args, kinds, n).errors == names_of_kind(args, kinds, n, PathKind::Missing)
        },
    decreases n,
{
    if n > 0 {
        lemma_scan_names(args, kinds, n - 1);
        let a = args[n - 1];
        assert(double_dash_before(args, n) == (double_dash_before(args, n - 1) || a == "--"@)) by {
            if a == "--"@ {
                assert(0 <= n - 1 < n && args[n - 1] == "--"@);
            }
            if double_dash_before(args, n - 1) {
                let j = choose|j: int| 0 <= j < n - 1 && args[j] == "--"@;
                assert(0 <= j < n && args[j] == "--"@);
            }
            if double_dash_before(args, n) {
                let j = choose|j: int| 0 <= j < n && args[j] == "--"@;
                if j < n - 1 {
                    assert(double_dash_before(args, n - 1));
                }
            }
        }
        if scan(args, kinds, n).bad_option is None {
            assert(scan(args, kinds, n - 1).bad_option is None);
            let dirs = names_of_kind(args, kinds, n - 1, PathKind::Directory);
            let files = names_of_kind(args, kinds, n - 1, PathKind::Other);
            let errors = names_of_kind(args, kinds, n - 1, PathKind::Missing);
            if is_option_arg(args, n - 1) {
                assert(names_of_kind(args, kinds, n, PathKind::Directory) =~= dirs);
                assert(names_of_kind(args, kinds, n, PathKind::Other) =~= files);
                assert(names_of_kind(args, kinds, n, PathKind::Missing) =~= errors);
            } else {
                assert(dirs + seq![a] =~= dirs.push(a));
                assert(files + seq![a] =~= files.push(a));
                assert(errors + seq![a] =~= errors.push(a));
                assert(dirs + Seq::<Seq<char>>::empty() =~= dirs);
                assert(files + Seq::<Seq<char>>::empty() =~= files);
                assert(errors + Seq::<Seq<char>>::empty() =~= errors);
            }
        }
    }
}

/// `ls` keeps the names in the order given: where no option is bad, the
/// directories, the files and the missing names it sorts out are exactly
/// the arguments of each kind that are not read as options, in the order
/// of the arguments.
pub proof fn law_ls_names_in_order(args: Seq<Seq<char>>, kinds: Seq<PathKind>)
    requires
        args.len() == kinds.len(),
    ensures
        ({
            let r = ls_args_of(args, kinds);
            r.bad_option is None && r.errors != seq![stop_marker()] ==> {
                &&& r.dirs == names_of_kind(args, kinds, args.len() as int, PathKind::Directory)
                &&& r.files == names_of_kind(args, kinds, args.len() as int, PathKind::Other)
                &&& r.errors == names_of_kind(args, kinds, args.len() as int, PathKind::Missing)
            }
        }),
{
    lemma_scan_names(args, kinds, args.len() as int);
}

/// `a` is an option word that `ls` accepts: a `-` followed by one or more
/// of `a`, `l`, `F`.
pub open spec fn accepted_ls_option(a: Seq<char>) -> bool {
    &&& a.len() > 1
    &&& forall|k: int| 1 <= k < a.len() ==> (#[trigger] a[k] == 'a' || a[k] == 'l' || a[k] == 'F')
}

/// The `i`-th argument is read as an option word that `ls` does not
/// accept.
pub open spec fn rejected_ls_option(args: Seq<Seq<char>>, i: int) -> bool {
    is_option_arg(args, i) && args[i] != "--"@ && !accepted_ls_option(args[i])
}

proof fn lemma_scan_bad(args: Seq<Seq<char>>, kinds: Seq<PathKind>, n: int)
    requires
        0 <= n <= args.len(),
        args.len() == kinds.len(),
    ensures
        (scan(args, kinds, n).bad_option is None) <==> (forall|i: int|
            0 <= i < n ==> !rejected_ls_option(args, i)),
        scan(args, kinds, n).bad_option is Some ==> exists|i: int|
            0 <= i < n && rejected_ls_option(args, i) && scan(args, kinds, n).bad_option == Some(
                args[i],
            ) && forall|j: int| 0 <= j < i ==> !rejected_ls_option(args, j),
    decreases n,
{
    if n > 0 {
        lemma_scan_bad(args, kinds, n - 1);
        lemma_scan_names(args, kinds, n - 1);
        let a = args[n - 1];
        let st = scan(args, kinds, n - 1);
        if st.bad_option is None {
            assert(double_dash_before(args, n - 1) == st.after_double_dash);
            if a != "--"@ && a.len() > 0 && a[0] == '-' && !st.after_double_dash {
                assert(is_option_arg(args, n - 1));
                assert((flag_after(st.flag, a) is Some) == accepted_ls_option(a));
            } else if a != "--"@ {
                assert(!is_option_arg(args, n - 1));
            }
            if scan(args, kinds, n).bad_option is Some {
                assert(rejected_ls_option(args, n - 1));
            }
        }
    }
}

/// `ls` accepts only `-a`, `-l`, `-F` and their combinations before `--`:
/// it stops on a bad option exactly where some argument read as an
/// option is none of these, and the bad option it reports is the first
/// such argument.
pub proof fn law_ls_rejects_unknown_options(args: Seq<Seq<char>>, kinds: Seq<PathKind>)
    requires
        args.len() == kinds.len(),
    ensures
        (ls_args_of(args, kinds).bad_option is None) <==> (forall|i: int|
            0 <= i < args.len() ==> !rejected_ls_option(args, i)),
        ls_args_of(args, kinds).bad_option is Some ==> exists|i: int|
            0 <= i < args.len() && rejected_ls_option(args, i) && ls_args_of(args, kinds).bad_option
                == Some(args[i]) && forall|j: int| 0 <= j < i ==> !rejected_ls_option(args, j),
{
    lemma_scan_bad(args, kinds, args.len() as int);
}

/// Some argument among the first `n` read as an option word names the
/// option `c`.
pub open spec fn option_given(args: Seq<Seq<char>>, n: int, c: char) -> bool {
    exists|i: int, k: int|
        #![trigger args[i][k]]
        0 <= i < n && is_option_arg(args, i) && args[i] != "--"@ && 1 <= k < args[i].len()
            && args[i][k] == c
}

proof fn lemma_option_given_step(args: Seq<Seq<char>>, n: int, c: char)
    requires
        0 < n <= args.len(),
    ensures
        option_given(args, n, c) == (option_given(args, n - 1, c) || (is_option_arg(args, n - 1)
            && args[n - 1] != "--"@ && exists|k: int| 1 <= k < args[n - 1].len() && #[trigger] args[n - 1][k] == c)),
{
    if option_given(args, n, c) {
        let (i, k) = choose|i: int, k: int|
            #![trigger args[i][k]]
            0 <= i < n && is_option_arg(args, i) && args[i] != "--"@ && 1 <= k < args[i].len()
                && args[i][k] == c;
        if i < n - 1 {
            assert(option_given(args, n - 1, c));
        }
    }
    if option_given(args, n - 1, c) {
        let (i, k) = choose|i: int, k: int|
            #![trigger args[i][k]]
            0 <= i < n - 1 && is_option_arg(args, i) && args[i] != "--"@ && 1 <= k < args[i].len()
                && args[i][k] == c;
        assert(args[i][k] == c);
    }
    if is_option_arg(args, n - 1) && args[n - 1] != "--"@ && exists|k: int|
        1 <= k < args[n - 1].len() && #[trigger] args[n - 1][k] == c {
        let k = choose|k: int| 1 <= k < args[n - 1].len() && #[trigger] args[n - 1][k] == c;
        assert(args[n - 1][k] == c);
    }
}

proof fn lemma_scan_flags(args: Seq<Seq<char>>, kinds: Seq<PathKind>, n: int)
    requires
        0 <= n <= args.len(),
        args.len() == kinds.len(),
    ensures
        scan(args, kinds, n).bad_option is None ==> {
            &&& scan(args, kinds, n).flag.a == option_given(args, n, 'a')
            &&& scan(args, kinds, n).flag.l == option_given(args, n, 'l')
            &&& scan(args, kinds, n).flag.f == option_given(args, n, 'F')
        },
    decreases n,
{
    if n > 0 {
        lemma_scan_flags(args, kinds, n - 1);
        lemma_scan_names(args, kinds, n - 1);
        lemma_option_given_step(args, n, 'a');
        lemma_option_given_step(args, n, 'l');
        lemma_option_given_step(args, n, 'F');
        let a = args[n - 1];
        let st = scan(args, kinds, n - 1);
        if scan(args, kinds, n).bad_option is None {
            assert(st.bad_option is None);
            if !is_option_arg(args, n - 1) || a == "--"@ {
            } else {
                assert(a != "--"@ && a.len() > 0 && a[0] == '-' && !st.after_double_dash);
                assert(flag_after(st.flag, a) is Some);
                assert(has_option(a, 'a') == exists|k: int| 1 <= k < a.len() && #[trigger] a[k] == 'a');
                assert(has_option(a, 'l') == exists|k: int| 1 <= k < a.len() && #[trigger] a[k] == 'l');
                assert(has_option(a, 'F') == exists|k: int| 1 <= k < a.len() && #[trigger] a[k] == 'F');
            }
        }
    }
}

/// The options of `ls` are those its option words name: where no option
/// is bad, `-a`, `-l` and `-F` are on exactly where some argument read as
/// an option word holds `a`, `l` or `F` after its `-`.
pub proof fn law_ls_flags_from_options(args: Seq<Seq<char>>, kinds: Seq<PathKind>)
    requires
        args.len() == kinds.len(),
    ensures
        ls_args_of(args, kinds).bad_option is None ==> {
            &&& ls_args_of(args, kinds).flag.a == option_given(args, args.len() as int, 'a')
            &&& ls_args_of(args, kinds).flag.l == option_given(args, args.len() as int, 'l')
            &&& ls_args_of(args, kinds).flag.f == option_given(args, args.len() as int, 'F')
        },
{
    lemma_scan_flags(args, kinds, args.len() as int);
}

} // verus!
