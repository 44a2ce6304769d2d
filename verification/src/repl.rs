use vstd::prelude::*;
use crate::parser::{
    clears_in, parse_input_and_clears, parse_view, CommandEnum, CommandView, ParseResult,
    ParseView,
};
use crate::text::string_from_chars;

verus! {

/// A key press as the prompt sees it.
#[derive(Debug, Clone, Copy, PartialEq, Eq, Structural)]
pub enum Key {
    /// A character, typed with or without the control key.
    Char { c: char, control: bool },
    Backspace,
    Enter,
    /// Any other key.
    Other,
}

/// What comes of submitting a line.
#[derive(Debug)]
pub enum Next {
    /// Run the line's first command.
    Run(CommandEnum),
    /// The line holds no command.
    Nothing,
    /// The line is incomplete: prompt for its continuation.
    More,
    /// The line could not be parsed.
    Failed(String),
}

/// What a key press does, beyond the change of the editor's state.
#[derive(Debug)]
pub enum KeyOutcome {
    /// Control-D: leave the shell.
    Quit,
    /// Control-C: drop the line and prompt anew.
    Cancel,
    /// Show the typed character.
    Echo(char),
    /// Redraw the current line after the prompt.
    Redraw,
    /// Nothing to do.
    Ignore,
    /// Enter: clear the screen `clears` times, then go on as `next` says,
    /// and prompt anew.
    Submit { clears: usize, next: Next },
}

pub enum NextView {
    Run(CommandView),
    Nothing,
    More,
    Failed(Seq<char>),
}

pub enum OutcomeView {
    Quit,
    Cancel,
    Echo(char),
    Redraw,
    Ignore,
    Submit { clears: nat, next: NextView },
}

impl View for KeyOutcome {
    type V = OutcomeView;

    open spec fn view(&self) -> OutcomeView {
        match self {
            KeyOutcome::Quit => OutcomeView::Quit,
            KeyOutcome::Cancel => OutcomeView::Cancel,
            KeyOutcome::Echo(c) => OutcomeView::Echo(*c),
            KeyOutcome::Redraw => OutcomeView::Redraw,
            KeyOutcome::Ignore => OutcomeView::Ignore,
            KeyOutcome::Submit { clears, next } => OutcomeView::Submit {
                clears: *clears as nat,
                next: match next {
                    Next::Run(c) => NextView::Run(c.deep_view()),
                    Next::Nothing => NextView::Nothing,
                    Next::More => NextView::More,
                    Next::Failed(e) => NextView::Failed(e@),
                },
            },
        }
    }
}

/// The prompt's line editor: all that was typed since the last command
/// (earlier lines of an incomplete command included), the line being
/// typed, and whether that line continues an incomplete command.
pub struct LineEditor {
    pub buffer: Vec<char>,
    pub line: Vec<char>,
    pub is_continuation: bool,
}

pub struct EditorView {
    pub buffer: Seq<char>,
    pub line: Seq<char>,
    pub is_continuation: bool,
}

impl View for LineEditor {
    type V = EditorView;

    open spec fn view(&self) -> EditorView {
        EditorView {
            buffer: self.buffer@,
            line: self.line@,
            is_continuation: self.is_continuation,
        }
    }
}

/// The line being typed ends the text typed since the last command.
pub open spec fn editor_wf(e: EditorView) -> bool {
    &&& e.line.len() <= e.buffer.len()
    &&& e.buffer.skip(e.buffer.len() - e.line.len()) == e.line
}

pub open spec fn fresh_editor() -> EditorView {
    EditorView { buffer: seq![], line: seq![], is_continuation: false }
}

/// A key press in state `e`: the next state and what to do.
/// Control-D quits; control-C drops all typed text; any other character
/// is typed; backspace removes the last character of the current line,
/// if any; enter submits all typed text: an incomplete command keeps it,
/// with a newline, for its continuation, anything else drops it.
pub open spec fn key_step(e: EditorView, key: Key) -> (EditorView, OutcomeView) {
    match key {
        Key::Char { c, control } => if control && c == 'd' {
            (e, OutcomeView::Quit)
        } else if control && c == 'c' {
            (fresh_editor(), OutcomeView::Cancel)
        } else {
            (
                EditorView { buffer: e.buffer.push(c), line: e.line.push(c), ..e },
                OutcomeView::Echo(c),
            )
        },
        Key::Backspace => if e.line.len() > 0 {
            (
                EditorView {
                    buffer: if e.buffer.len() > 0 {
                        e.buffer.drop_last()
                    } else {
                        e.buffer
                    },
                    line: e.line.drop_last(),
                    ..e
                },
                OutcomeView::Redraw,
            )
        } else {
            (e, OutcomeView::Ignore)
        },
        Key::Enter => {
            let clears = clears_in(e.buffer);
            match parse_view(e.buffer) {
                ParseView::Parsed(cs) => (
                    fresh_editor(),
                    OutcomeView::Submit {
                        clears: clears,
                        next: if cs.len() == 0 {
                            NextView::Nothing
                        } else {
                            NextView::Run(cs[0])
                        },
                    },
                ),
                ParseView::Incomplete => (
                    EditorView { buffer: e.buffer.push('\n'), line: seq![], is_continuation: true },
                    OutcomeView::Submit { clears: clears, next: NextView::More },
                ),
                ParseView::Failed(m) => (
                    fresh_editor(),
                    OutcomeView::Submit { clears: clears, next: NextView::Failed(m) },
                ),
            }
        },
        Key::Other => (e, OutcomeView::Ignore),
    }
}

impl LineEditor {
    /// An editor with nothing typed.
    pub fn new() -> (r: LineEditor)
        ensures
            r@ == fresh_editor(),
            editor_wf(r@),
    {
        let r = LineEditor { buffer: Vec::new(), line: Vec::new(), is_continuation: false };
        assert(r.buffer@ =~= Seq::<char>::empty());
        assert(r.line@ =~= Seq::<char>::empty());
        assert(r.buffer@.skip(0) =~= r.line@);
        r
    }

    /// The line being typed.
    pub fn line_text(&self) -> (r: String)
        ensures
            r@ == self.line@,
    {
        string_from_chars(&self.line)
    }

    /// Handles a key press (see `key_step`); keeps the current line the
    /// end of the typed text.
    pub fn on_key(&mut self, key: Key) -> (r: KeyOutcome)
        ensures
            (final(self)@, r@) == key_step(old(self)@, key),
            editor_wf(old(self)@) ==> editor_wf(final(self)@),
    {
        let ghost e = self@;
        match key {
            Key::Char { c, control } => {
                if control && c == 'd' {
                    KeyOutcome::Quit
                } else if control && c == 'c' {
                    self.buffer = Vec::new();
                    self.line = Vec::new();
                    self.is_continuation = false;
                    assert(self.buffer@ =~= Seq::<char>::empty());
                    assert(self.line@ =~= Seq::<char>::empty());
                    assert(self.buffer@.skip(0) =~= self.line@);
                    KeyOutcome::Cancel
                } else {
                    self.line.push(c);
                    self.buffer.push(c);
                    proof {
                        if editor_wf(e) {
                            let b = self.buffer@;
                            assert(b.skip(b.len() - self.line@.len()) =~= e.buffer.skip(
                                e.buffer.len() - e.line.len(),
                            ).push(c));
                        }
                    }
                    KeyOutcome::Echo(c)
                }
            },
            Key::Backspace => {
                if self.line.len() > 0 {
                    self.buffer.pop();
                    self.line.pop();
                    proof {
                        if e.buffer.len() > 0 {
                            assert(self.buffer@ =~= e.buffer.drop_last());
                        }
                        assert(self.line@ =~= e.line.drop_last());
                        if editor_wf(e) {
                            let b = self.buffer@;
                            assert(b.skip(b.len() - self.line@.len()) =~= e.buffer.skip(
                                e.buffer.len() - e.line.len(),
                            ).drop_last());
                        }
                    }
                    KeyOutcome::Redraw
                } else {
                    KeyOutcome::Ignore
                }
            },
            Key::Enter => {
                let text = string_from_chars(&self.buffer);
                let (parsed, clears) = parse_input_and_clears(text.as_str());
                self.line = Vec::new();
                assert(self.line@ =~= Seq::<char>::empty());
                match parsed {
                    ParseResult::Parsed(cmds) => {
                        self.buffer = Vec::new();
                        self.is_continuation = false;
                        assert(self.buffer@ =~= Seq::<char>::empty());
                        assert(self.buffer@.skip(0) =~= self.line@);
                        if cmds.len() == 0 {
                            KeyOutcome::Submit { clears, next: Next::Nothing }
                        } else {
                            let ghost all = cmds.deep_view();
                            let mut cmds = cmds;
                            let first = cmds.remove(0);
                            assert(first.deep_view() == all[0]);
                            KeyOutcome::Submit { clears, next: Next::Run(first) }
                        }
                    },
                    ParseResult::Incomplete => {
                        self.buffer.push('\n');
                        self.is_continuation = true;
                        proof {
                            let b = self.buffer@;
                            assert(b.skip(b.len() as int) =~= Seq::<char>::empty());
                        }
                        KeyOutcome::Submit { clears, next: Next::More }
                    },
                    ParseResult::Failed(m) => {
                        self.buffer = Vec::new();
                        self.is_continuation = false;
                        assert(self.buffer@ =~= Seq::<char>::empty());
                        assert(self.buffer@.skip(0) =~= self.line@);
                        KeyOutcome::Submit { clears, next: Next::Failed(m) }
                    },
                }
            },
            Key::Other => KeyOutcome::Ignore,
        }
    }
}

/// Typing a character and then backspace leaves the editor as it was.
pub proof fn law_backspace_undoes_typing(e: EditorView, c: char, control: bool)
    requires
        !(control && (c == 'c' || c == 'd')),
    ensures
        key_step(key_step(e, Key::Char { c, control }).0, Key::Backspace).0 == e,
        key_step(key_step(e, Key::Char { c, control }).0, Key::Backspace).1 == OutcomeView::Redraw,
{
    let e1 = key_step(e, Key::Char { c, control }).0;
    assert(e1.buffer.drop_last() =~= e.buffer);
    assert(e1.line.drop_last() =~= e.line);
}

} // verus!
