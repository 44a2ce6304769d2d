use shell::commands::{
    cd_destination, cd_target, cp_message, cp_plan, destination_in, echo_text, escape_newline_text,
    join_path_text, mv_message, mv_plan, refuses_component, rm_action, rm_message, rm_plan,
    rm_refuses, unescape_newline_text, CdDestination, CdTarget, CpPlan, MvPlan, RmAction, RmPlan,
};
use shell::pwd_state::PwdState;
use shell::ls_format::FileKind;

fn words(v: &[&str]) -> Vec<String> {
    v.iter().map(|s| s.to_string()).collect()
}

#[test]
fn echo_joins_and_strips_quotes() {
    assert_eq!(echo_text(&words(&["\"hi\"", "it's", "x"])), "hi its x");
    assert_eq!(echo_text(&words(&[])), "");
    assert_eq!(echo_text(&words(&["a", "", "b"])), "a  b");
}

#[test]
fn newline_escapes() {
    assert_eq!(escape_newline_text("a\nb\n"), "a\\nb\\n");
    assert_eq!(unescape_newline_text("a\\nb"), "a\nb");
    assert_eq!(unescape_newline_text("a\\\\nb"), "a\\\nb");
    assert_eq!(unescape_newline_text("\\"), "\\");
}

#[test]
fn law_cd_reads_back_prompt_example() {
    let name = "dir\nwith\\newline-free\\x";
    let shown = escape_newline_text("dir\nwith\nlines\\x");
    assert_eq!(unescape_newline_text(&shown), "dir\nwith\nlines\\x");
    // A name holding a backslash followed by `n` does not read back.
    let shown = escape_newline_text(name);
    assert_ne!(unescape_newline_text(&shown), name);
}

#[test]
fn cd_targets() {
    assert!(matches!(cd_target(&words(&[])), CdTarget::Home));
    assert!(matches!(cd_target(&words(&["~"])), CdTarget::Home));
    assert!(matches!(cd_target(&words(&["-"])), CdTarget::Previous));
    assert!(matches!(cd_target(&words(&["a", "b"])), CdTarget::TooManyArgs));
    assert!(matches!(cd_target(&words(&["x\\ny"])), CdTarget::Path(p) if p == "x\ny"));
    assert!(matches!(cd_target(&words(&["/tmp"])), CdTarget::Path(p) if p == "/tmp"));
}

#[test]
fn rm_options_and_targets() {
    assert!(matches!(rm_plan(&words(&["-rf", "x"])), RmPlan::InvalidOption('f')));
    assert!(matches!(rm_plan(&words(&["x", "-q", "-z"])), RmPlan::InvalidOption('q')));
    assert!(matches!(rm_plan(&words(&["-r"])), RmPlan::MissingOperand));
    assert!(matches!(rm_plan(&words(&[])), RmPlan::MissingOperand));
    match rm_plan(&words(&["a", "-R", "b"])) {
        RmPlan::Remove { recursive, targets } => {
            assert!(recursive);
            assert_eq!(targets, words(&["a", "b"]));
        }
        other => panic!("{other:?}"),
    }
    match rm_plan(&words(&["--recursive", "d"])) {
        RmPlan::Remove { recursive, targets } => {
            assert!(recursive);
            assert_eq!(targets, words(&["d"]));
        }
        other => panic!("{other:?}"),
    }
    match rm_plan(&words(&["f"])) {
        RmPlan::Remove { recursive, targets } => {
            assert!(!recursive);
            assert_eq!(targets, words(&["f"]));
        }
        other => panic!("{other:?}"),
    }
    match rm_plan(&words(&["-", "f"])) {
        RmPlan::Remove { recursive, .. } => assert!(recursive),
        other => panic!("{other:?}"),
    }
}

#[test]
fn rm_actions() {
    assert_eq!(rm_action(FileKind::Symlink, false), RmAction::RemoveLink);
    assert_eq!(rm_action(FileKind::Directory, false), RmAction::RefuseDirectory);
    assert_eq!(rm_action(FileKind::Directory, true), RmAction::RemoveTree);
    assert_eq!(rm_action(FileKind::Regular, true), RmAction::RemoveFile);
    assert_eq!(rm_action(FileKind::Fifo, false), RmAction::RemoveFile);
}

#[test]
fn cp_plans() {
    assert!(matches!(cp_plan(&words(&[]), false, false), CpPlan::MissingFileOperand));
    assert!(matches!(cp_plan(&words(&["a"]), true, false), CpPlan::MissingDestination(s) if s == "a"));
    assert!(matches!(cp_plan(&words(&["a", "b"]), false, true), CpPlan::NoSuchSource(s) if s == "a"));
    assert!(matches!(cp_plan(&words(&["x/a", "d"]), true, true),
        CpPlan::CopyIntoDir { source, destination } if source == "x/a" && destination == "d/a"));
    assert!(matches!(cp_plan(&words(&["x/..", "d"]), true, true), CpPlan::NoSourceName));
    assert!(matches!(cp_plan(&words(&["a", "b", "c"]), true, false),
        CpPlan::CopyTo { source, destination } if source == "a" && destination == "b"));
}

#[test]
fn cp_messages() {
    let m = |args: &[&str], f: bool, d: bool| cp_message(&cp_plan(&words(args), f, d));
    assert_eq!(m(&[], false, false).as_deref(), Some("cp: missing file operand"));
    assert_eq!(m(&["a"], true, false).as_deref(),
        Some("cp: missing destination file operand after 'a'"));
    assert_eq!(m(&["a", "b"], false, false).as_deref(),
        Some("cp: cannot stat 'a': No such file or directory"));
    assert_eq!(m(&["/", "d"], true, true).as_deref(),
        Some("cp: error getting file name from source path"));
    assert_eq!(m(&["a", "b"], true, false), None);
}

#[test]
fn mv_plans() {
    assert!(matches!(mv_plan(words(&["a"]), true), MvPlan::MissingOperand));
    assert!(matches!(mv_plan(words(&["x/a", "b"]), true),
        MvPlan::Rename { source, destination } if source == "x/a" && destination == "b/a"));
    assert!(matches!(mv_plan(words(&["x/a", "b/"]), true),
        MvPlan::Rename { destination, .. } if destination == "b/a"));
    // Into a directory, a source with no final component goes to the
    // directory's own path.
    assert!(matches!(mv_plan(words(&["..", "b"]), true),
        MvPlan::Rename { destination, .. } if destination == "b"));
    assert!(matches!(mv_plan(words(&["a", "b"]), false),
        MvPlan::Rename { destination, .. } if destination == "b"));
    assert!(matches!(mv_plan(words(&["a", "b", "c"]), false), MvPlan::NotADirectory(d) if d == "c"));
    assert!(matches!(mv_plan(words(&["a", "y/..", "p/b/", "c"]), true),
        MvPlan::MoveAll { sources, destinations }
            if sources == words(&["a", "p/b/"]) && destinations == words(&["c/a", "c/b"])));
}

#[test]
fn mv_messages() {
    assert_eq!(mv_message(&mv_plan(words(&["a"]), false)).as_deref(), Some("mv: missing operand"));
    assert_eq!(mv_message(&mv_plan(words(&["a", "b", "c"]), false)).as_deref(),
        Some("mv: target 'c' is not a directory"));
    assert_eq!(mv_message(&mv_plan(words(&["a", "b"]), false)), None);
}

#[test]
fn rm_messages() {
    assert_eq!(rm_message(&rm_plan(&words(&["-x", "a"]))).as_deref(),
        Some("rm: invalid option -- 'x'"));
    assert_eq!(rm_message(&rm_plan(&words(&["-r"]))).as_deref(), Some("rm: missing operand"));
    assert_eq!(rm_message(&rm_plan(&words(&["a"]))), None);
    // The first unknown character of the first bad option word.
    assert_eq!(rm_message(&rm_plan(&words(&["--recursive", "-rfx", "-q", "a"]))).as_deref(),
        Some("rm: invalid option -- 'f'"));
    // Any word starting with `-` makes removal recursive.
    assert!(matches!(rm_plan(&words(&["a", "--"])), RmPlan::Remove { recursive: true, .. }));
    assert!(matches!(rm_plan(&words(&["a"])), RmPlan::Remove { recursive: false, .. }));
}

#[test]
fn paths_inside_directories() {
    assert_eq!(join_path_text("d", "a"), "d/a");
    assert_eq!(join_path_text("d/", "a"), "d/a");
    assert_eq!(join_path_text("/", "a"), "/a");
    assert_eq!(join_path_text("", "a"), "a");
    assert_eq!(destination_in("d", "x/y/a.txt").as_deref(), Some("d/a.txt"));
    assert_eq!(destination_in("d", "x/a/./").as_deref(), Some("d/a"));
    assert_eq!(destination_in("d", "./a").as_deref(), Some("d/a"));
    assert_eq!(destination_in("d", "."), None);
    assert_eq!(destination_in("d", "a/.."), None);
    assert_eq!(destination_in("d", "//"), None);
}

#[test]
fn cd_dash_goes_back() {
    let mut pwd = PwdState::new("/home/u".to_string(), "/home/u".to_string());
    assert!(matches!(cd_destination(&words(&["/tmp"]), &pwd), CdDestination::Dir(d) if d == "/tmp"));
    pwd.record_cd("/tmp".to_string());
    assert_eq!(pwd.get_current_dir(), "/tmp");
    assert_eq!(pwd.get_old_dir(), "/home/u");
    assert!(matches!(cd_destination(&words(&["-"]), &pwd), CdDestination::Dir(d) if d == "/home/u"));
    pwd.record_cd("/home/u".to_string());
    assert_eq!(pwd.get_current_dir(), "/home/u");
    assert_eq!(pwd.get_old_dir(), "/tmp");
    assert!(matches!(cd_destination(&words(&[]), &pwd), CdDestination::Home));
    assert!(matches!(cd_destination(&words(&["~"]), &pwd), CdDestination::Home));
    assert!(matches!(cd_destination(&words(&["a", "b"]), &pwd), CdDestination::TooManyArgs));
    assert!(matches!(cd_destination(&words(&["a\\nb"]), &pwd), CdDestination::Dir(d) if d == "a\nb"));
}

#[test]
fn rm_refusal_of_dot_components() {
    assert!(refuses_component(&Some(".".to_string())));
    assert!(refuses_component(&Some("..".to_string())));
    assert!(!refuses_component(&Some("a".to_string())));
    assert!(!refuses_component(&None));
    // `Path::file_name` never yields `.` or `..`: such paths are not refused here.
    assert!(!rm_refuses("."));
    assert!(!rm_refuses(".."));
    assert!(!rm_refuses("a/.."));
    assert!(!rm_refuses("dir/file"));
}
