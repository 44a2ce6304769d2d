use shell::check_quotes::quotes_balanced;
use shell::executor::{execute_all, plan_command, Step};
use shell::parser::{parse_input, parse_input_and_clears, CommandEnum, ParseResult};
use shell::pwd_state::PwdState;
use shell::tokenizer::parse_tokens;

fn words(v: &[&str]) -> Vec<String> {
    v.iter().map(|s| s.to_string()).collect()
}

fn tokens(input: &str) -> Vec<Vec<String>> {
    parse_tokens(input).expect("complete input")
}

#[test]
fn tokens_split_on_whitespace() {
    assert_eq!(tokens("ls -la /tmp"), vec![words(&["ls", "-la", "/tmp"])]);
    assert_eq!(tokens("  a \t b  "), vec![words(&["a", "b"])]);
    assert_eq!(tokens(""), Vec::<Vec<String>>::new());
    assert_eq!(tokens("   "), Vec::<Vec<String>>::new());
}

#[test]
fn tokens_unicode_whitespace_separates() {
    assert_eq!(tokens("a\u{3000}b\u{a0}c"), vec![words(&["a", "b", "c"])]);
}

#[test]
fn tokens_quotes_group_words() {
    assert_eq!(tokens("echo \"a b\" 'c d'"), vec![words(&["echo", "a b", "c d"])]);
    assert_eq!(tokens("x\"y z\"w"), vec![words(&["xy zw"])]);
    assert_eq!(tokens("''"), Vec::<Vec<String>>::new());
}

#[test]
fn tokens_backslash_escapes() {
    assert_eq!(tokens("a\\ b"), vec![words(&["a b"])]);
    assert_eq!(tokens("\"a\\\"b\""), vec![words(&["a\"b"])]);
    assert_eq!(tokens("\"a\\\\b\""), vec![words(&["a\\b"])]);
    assert_eq!(tokens("\"a\\nb\""), vec![words(&["a\\nb"])]);
    assert_eq!(tokens("'a\\b'"), vec![words(&["a\\b"])]);
    assert_eq!(tokens("\\&\\&"), vec![words(&["&&"])]);
}

#[test]
fn tokens_double_ampersand_chains() {
    assert_eq!(tokens("a && b c"), vec![words(&["a"]), words(&["b", "c"])]);
    assert_eq!(tokens("a&&b"), vec![words(&["a"]), words(&["b"])]);
    assert_eq!(tokens("&& a &&"), vec![words(&["a"])]);
    assert_eq!(tokens("a & b"), vec![words(&["a", "&", "b"])]);
    assert_eq!(tokens("a&&&b"), vec![words(&["a"]), words(&["&b"])]);
    assert_eq!(tokens("\"a && b\""), vec![words(&["a && b"])]);
}

#[test]
fn tokens_incomplete_input() {
    for input in ["\"abc", "abc\\", "'x", "\"a\\", "a 'b c"] {
        match parse_tokens(input) {
            Err(e) => assert_eq!(e, "Incomplete"),
            Ok(v) => panic!("{input:?} parsed to {v:?}"),
        }
    }
}

#[test]
fn law_and_chains_commands_example() {
    let a = "echo 'x y'";
    let b = "ls -l";
    let mut both = tokens(a);
    both.extend(tokens(b));
    assert_eq!(tokens(&format!("{a} && {b}")), both);
    assert!(parse_tokens(&format!("{a} && \"open")).is_err());
}

#[test]
fn words_are_never_empty() {
    for cmd in tokens("'' a \"\" && '' && b") {
        assert!(!cmd.is_empty());
        for w in cmd {
            assert!(!w.is_empty());
        }
    }
}

#[test]
fn parse_input_names_commands() {
    match parse_input("  ls -a  ") {
        ParseResult::Parsed(cmds) => {
            assert_eq!(cmds.len(), 1);
            assert!(matches!(&cmds[0], CommandEnum::Ls(a) if *a == words(&["-a"])));
        }
        other => panic!("{other:?}"),
    }
    match parse_input("cd x && pwd && mkdir a b && exit && cat f && cp a b && mv a b && rm a && echo hi") {
        ParseResult::Parsed(cmds) => {
            assert_eq!(cmds.len(), 9);
            assert!(matches!(&cmds[0], CommandEnum::Cd(a) if *a == words(&["x"])));
            assert!(matches!(&cmds[1], CommandEnum::Pwd));
            assert!(matches!(&cmds[2], CommandEnum::Mkdir(a) if *a == words(&["a", "b"])));
            assert!(matches!(&cmds[3], CommandEnum::Exit));
            assert!(matches!(&cmds[4], CommandEnum::Cat(a) if *a == words(&["f"])));
            assert!(matches!(&cmds[5], CommandEnum::Cp(a) if *a == words(&["a", "b"])));
            assert!(matches!(&cmds[6], CommandEnum::Mv(a) if *a == words(&["a", "b"])));
            assert!(matches!(&cmds[7], CommandEnum::Rm(a) if *a == words(&["a"])));
            assert!(matches!(&cmds[8], CommandEnum::Echo(a) if *a == words(&["hi"])));
        }
        other => panic!("{other:?}"),
    }
}

#[test]
fn parse_input_unknown_command() {
    match parse_input("frobnicate --now") {
        ParseResult::Parsed(cmds) => {
            assert!(matches!(&cmds[0], CommandEnum::Unknown(n) if n == "frobnicate"));
        }
        other => panic!("{other:?}"),
    }
}

#[test]
fn parse_input_blank_and_incomplete() {
    assert!(matches!(parse_input(""), ParseResult::Parsed(c) if c.is_empty()));
    assert!(matches!(parse_input(" \n\t "), ParseResult::Parsed(c) if c.is_empty()));
    assert!(matches!(parse_input("echo \"unterminated"), ParseResult::Incomplete));
    assert!(matches!(parse_input("ls \\"), ParseResult::Incomplete));
}

#[test]
fn parse_input_counts_clears() {
    let (r, clears) = parse_input_and_clears("clear && pwd && clear");
    assert_eq!(clears, 2);
    assert!(matches!(r, ParseResult::Parsed(c) if c.len() == 1 && matches!(c[0], CommandEnum::Pwd)));
    let (r, clears) = parse_input_and_clears("clear");
    assert_eq!(clears, 1);
    assert!(matches!(r, ParseResult::Parsed(c) if c.is_empty()));
    let (r, clears) = parse_input_and_clears("clear \"");
    assert_eq!(clears, 0);
    assert!(matches!(r, ParseResult::Incomplete));
}

#[test]
fn quotes_balanced_counts_both_kinds() {
    assert!(quotes_balanced(""));
    assert!(quotes_balanced("\"a\" 'b'"));
    assert!(!quotes_balanced("'a"));
    assert!(!quotes_balanced("it's"));
    assert!(!quotes_balanced("\"\"\""));
    assert!(quotes_balanced("no quotes"));
}

#[test]
fn execute_all_stops_at_exit() {
    let cmds = vec![CommandEnum::Pwd, CommandEnum::Exit, CommandEnum::Ls(vec![])];
    assert_eq!(execute_all(&cmds), (1, false));
    let cmds = vec![CommandEnum::Pwd, CommandEnum::Echo(vec![])];
    assert_eq!(execute_all(&cmds), (2, true));
    assert_eq!(execute_all(&vec![]), (0, true));
    assert_eq!(execute_all(&vec![CommandEnum::Exit]), (0, false));
}

fn pwd() -> PwdState {
    PwdState::new("/home/u".to_string(), "/tmp".to_string())
}

#[test]
fn plan_command_reports_and_dispatches() {
    let p = pwd();
    match plan_command(CommandEnum::Rm(vec![]), &p) {
        Step::Report { message, to_stderr } => {
            assert_eq!(message, "rm: missing operand");
            assert!(!to_stderr);
        }
        other => panic!("{other:?}"),
    }
    match plan_command(CommandEnum::Cp(words(&["a"])), &p) {
        Step::Report { message, to_stderr } => {
            assert_eq!(message, "cp: missing file operand");
            assert!(!to_stderr);
        }
        other => panic!("{other:?}"),
    }
    assert!(matches!(plan_command(CommandEnum::Cp(words(&["a", "b"])), &p), Step::Dispatch(CommandEnum::Cp(_))));
    assert!(matches!(plan_command(CommandEnum::Rm(words(&["a"])), &p), Step::Dispatch(CommandEnum::Rm(_))));
    match plan_command(CommandEnum::Pwd, &p) {
        Step::Report { message, to_stderr } => {
            assert_eq!(message, "/home/u");
            assert!(to_stderr);
        }
        other => panic!("{other:?}"),
    }
    match plan_command(CommandEnum::Unknown("zz".to_string()), &p) {
        Step::Report { message, to_stderr } => {
            assert_eq!(message, "command not found: zz");
            assert!(to_stderr);
        }
        other => panic!("{other:?}"),
    }
    assert!(matches!(plan_command(CommandEnum::Exit, &p), Step::Stop));
    assert!(matches!(plan_command(CommandEnum::Ls(vec![]), &p), Step::Dispatch(CommandEnum::Ls(_))));
}

#[test]
fn pwd_state_records_previous_directory() {
    let mut p = pwd();
    assert_eq!(p.get_current_dir(), "/home/u");
    assert_eq!(p.get_old_dir(), "/tmp");
    let before = p.get_current_dir();
    p.set_states("/var".to_string(), before);
    assert_eq!(p.get_current_dir(), "/var");
    assert_eq!(p.get_old_dir(), "/home/u");
}

#[test]
fn law_single_quotes_literal_example() {
    assert_eq!(tokens("'a \\\" && b'"), vec![words(&["a \\\" && b"])]);
    assert_eq!(tokens("' '"), vec![words(&[" "])]);
}

#[test]
fn law_unbalanced_quotes_incomplete_example() {
    for line in ["echo \"a", "\"x\" \"y", "a\"b\"c\""] {
        assert!(!quotes_balanced(line));
        assert!(matches!(parse_input(line), ParseResult::Incomplete));
    }
    for line in ["echo \"a\"", "\"\"", "plain words"] {
        assert!(quotes_balanced(line));
        assert!(matches!(parse_input(line), ParseResult::Parsed(_)));
    }
    // With a single quote the two may differ.
    assert!(!quotes_balanced("\"it's\""));
    assert!(matches!(parse_input("echo \"it's\""), ParseResult::Parsed(_)));
}

#[test]
fn readme_scenario_echo() {
    match parse_input("echo Hello world") {
        ParseResult::Parsed(cmds) => match &cmds[0] {
            CommandEnum::Echo(a) => assert_eq!(shell::commands::echo_text(a), "Hello world"),
            other => panic!("{other:?}"),
        },
        other => panic!("{other:?}"),
    }
    match parse_input("cd ..") {
        ParseResult::Parsed(cmds) => assert!(matches!(&cmds[0], CommandEnum::Cd(a) if *a == words(&[".."]))),
        other => panic!("{other:?}"),
    }
}

#[test]
fn parse_input_mv_line() {
    match parse_input("mv a b") {
        ParseResult::Parsed(cmds) => {
            assert_eq!(cmds.len(), 1);
            assert!(matches!(&cmds[0], CommandEnum::Mv(a) if *a == words(&["a", "b"])));
        }
        other => panic!("{other:?}"),
    }
}
