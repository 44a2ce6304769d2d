use shell::parser::CommandEnum;
use shell::repl::{Key, KeyOutcome, LineEditor, Next};

fn typed(e: &mut LineEditor, s: &str) {
    for c in s.chars() {
        assert!(matches!(e.on_key(Key::Char { c, control: false }), KeyOutcome::Echo(d) if d == c));
    }
}

#[test]
fn enter_runs_first_command() {
    let mut e = LineEditor::new();
    typed(&mut e, "ls -a && pwd");
    match e.on_key(Key::Enter) {
        KeyOutcome::Submit { clears: 0, next: Next::Run(CommandEnum::Ls(a)) } => {
            assert_eq!(a, vec!["-a".to_string()]);
        }
        other => panic!("{other:?}"),
    }
    assert!(e.buffer.is_empty() && e.line.is_empty() && !e.is_continuation);
}

#[test]
fn backspace_edits_line() {
    let mut e = LineEditor::new();
    typed(&mut e, "lsx");
    assert!(matches!(e.on_key(Key::Backspace), KeyOutcome::Redraw));
    assert_eq!(e.line_text(), "ls");
    assert!(matches!(e.on_key(Key::Backspace), KeyOutcome::Redraw));
    assert!(matches!(e.on_key(Key::Backspace), KeyOutcome::Redraw));
    assert!(matches!(e.on_key(Key::Backspace), KeyOutcome::Ignore));
    assert!(e.buffer.is_empty());
}

#[test]
fn law_backspace_undoes_typing_example() {
    let mut e = LineEditor::new();
    typed(&mut e, "ab");
    let (b, l) = (e.buffer.clone(), e.line.clone());
    typed(&mut e, "z");
    e.on_key(Key::Backspace);
    assert_eq!((e.buffer.clone(), e.line.clone()), (b, l));
}

#[test]
fn control_keys() {
    let mut e = LineEditor::new();
    typed(&mut e, "abc");
    assert!(matches!(e.on_key(Key::Char { c: 'c', control: true }), KeyOutcome::Cancel));
    assert!(e.buffer.is_empty() && e.line.is_empty());
    assert!(matches!(e.on_key(Key::Char { c: 'd', control: true }), KeyOutcome::Quit));
    assert!(matches!(e.on_key(Key::Char { c: 'x', control: true }), KeyOutcome::Echo('x')));
    assert!(matches!(e.on_key(Key::Other), KeyOutcome::Ignore));
}

#[test]
fn incomplete_line_continues() {
    let mut e = LineEditor::new();
    typed(&mut e, "echo \"a");
    assert!(matches!(e.on_key(Key::Enter), KeyOutcome::Submit { next: Next::More, .. }));
    assert!(e.is_continuation && e.line.is_empty());
    assert_eq!(e.buffer.last(), Some(&'\n'));
    // Backspace on the new, empty line does not reach the previous one.
    assert!(matches!(e.on_key(Key::Backspace), KeyOutcome::Ignore));
    typed(&mut e, "b\"");
    match e.on_key(Key::Enter) {
        KeyOutcome::Submit { next: Next::Run(CommandEnum::Echo(a)), .. } => {
            assert_eq!(a, vec!["a\nb".to_string()]);
        }
        other => panic!("{other:?}"),
    }
    assert!(!e.is_continuation);
}

#[test]
fn blank_and_clear_lines() {
    let mut e = LineEditor::new();
    assert!(matches!(e.on_key(Key::Enter), KeyOutcome::Submit { clears: 0, next: Next::Nothing }));
    typed(&mut e, "clear");
    assert!(matches!(e.on_key(Key::Enter), KeyOutcome::Submit { clears: 1, next: Next::Nothing }));
}
