use vstd::prelude::*;
use crate::text::{chars_of, trim, trim_start, trim_end, trim_chars, str_eq, is_space};
use crate::check_quotes::count_char;
use crate::tokenizer::{
    tokens_of, tokenize_chars, well_formed_cmds, tokenize, step, init_state, Mode, TokState,
};

verus! {

/// A command of the shell, with its arguments.
#[derive(Debug)]
pub enum CommandEnum {
    Rm(Vec<String>),
    Cp(Vec<String>),
    Mv(Vec<String>),
    Pwd,
    Cd(Vec<String>),
    Echo(Vec<String>),
    Mkdir(Vec<String>),
    Exit,
    Unknown(String),
    Cat(Vec<String>),
    Ls(Vec<String>),
}

/// What a command line parses to.
#[derive(Debug)]
pub enum ParseResult {
    Parsed(Vec<CommandEnum>),
    Incomplete,
    Failed(String),
}

/// A command, its arguments taken as character sequences.
pub enum CommandView {
    Rm(Seq<Seq<char>>),
    Cp(Seq<Seq<char>>),
    Mv(Seq<Seq<char>>),
    Pwd,
    Cd(Seq<Seq<char>>),
    Echo(Seq<Seq<char>>),
    Mkdir(Seq<Seq<char>>),
    Exit,
    Unknown(Seq<char>),
    Cat(Seq<Seq<char>>),
    Ls(Seq<Seq<char>>),
}

/// A parse result, its strings taken as character sequences.
pub enum ParseView {
    Parsed(Seq<CommandView>),
    Incomplete,
    Failed(Seq<char>),
}

impl DeepView for CommandEnum {
    type V = CommandView;

    open spec fn deep_view(&self) -> CommandView {
        match self {
            CommandEnum::Rm(a) => CommandView::Rm(a.deep_view()),
            CommandEnum::Cp(a) => CommandView::Cp(a.deep_view()),
            CommandEnum::Mv(a) => CommandView::Mv(a.deep_view()),
            CommandEnum::Pwd => CommandView::Pwd,
            CommandEnum::Cd(a) => CommandView::Cd(a.deep_view()),
            CommandEnum::Echo(a) => CommandView::Echo(a.deep_view()),
            CommandEnum::Mkdir(a) => CommandView::Mkdir(a.deep_view()),
            CommandEnum::Exit => CommandView::Exit,
            CommandEnum::Unknown(s) => CommandView::Unknown(s@),
            CommandEnum::Cat(a) => CommandView::Cat(a.deep_view()),
            CommandEnum::Ls(a) => CommandView::Ls(a.deep_view()),
        }
    }
}

impl View for CommandEnum {
    type V = CommandView;

    open spec fn view(&self) -> CommandView {
        self.deep_view()
    }
}

impl View for ParseResult {
    type V = ParseView;

    open spec fn view(&self) -> ParseView {
        match self {
            ParseResult::Parsed(cmds) => ParseView::Parsed(cmds.deep_view()),
            ParseResult::Incomplete => ParseView::Incomplete,
            ParseResult::Failed(e) => ParseView::Failed(e@),
        }
    }
}

/// The command that the words `args` name, where `args[0]` is the
/// command's name and the rest its arguments; `None` for `clear`, which
/// clears the screen and runs no command.
pub open spec fn command_of(args: Seq<Seq<char>>) -> Option<CommandView> {
    let name = args[0];
    let rest = args.drop_first();
    if name == "ls"@ {
        Some(CommandView::Ls(rest))
    } else if name == "cat"@ {
        Some(CommandView::Cat(rest))
    } else if name == "cp"@ {
        Some(CommandView::Cp(rest))
    } else if name == "mv"@ {
        Some(CommandView::Mv(rest))
    } else if name == "pwd"@ {
        Some(CommandView::Pwd)
    } else if name == "cd"@ {
        Some(CommandView::Cd(rest))
    } else if name == "echo"@ {
        Some(CommandView::Echo(rest))
    } else if name == "rm"@ {
        Some(CommandView::Rm(rest))
    } else if name == "mkdir"@ {
        Some(CommandView::Mkdir(rest))
    } else if name == "exit"@ {
        Some(CommandView::Exit)
    } else if name == "clear"@ {
        None
    } else {
        Some(CommandView::Unknown(name))
    }
}

/// The names of the commands: `ls`, `cat`, `cp`, `mv`, `cd`, `echo`,
/// `rm` and `mkdir` take the words after them as arguments; `pwd` and
/// `exit` drop them; `clear` runs no command; any other first word names
/// an unknown command.
pub proof fn law_command_names(name: Seq<char>, rest: Seq<Seq<char>>)
    ensures
        name == "ls"@ ==> command_of(seq![name] + rest) == Some(CommandView::Ls(rest)),
        name == "cat"@ ==> command_of(seq![name] + rest) == Some(CommandView::Cat(rest)),
        name == "cp"@ ==> command_of(seq![name] + rest) == Some(CommandView::Cp(rest)),
        name == "mv"@ ==> command_of(seq![name] + rest) == Some(CommandView::Mv(rest)),
        name == "cd"@ ==> command_of(seq![name] + rest) == Some(CommandView::Cd(rest)),
        name == "echo"@ ==> command_of(seq![name] + rest) == Some(CommandView::Echo(rest)),
        name == "rm"@ ==> command_of(seq![name] + rest) == Some(CommandView::Rm(rest)),
        name == "mkdir"@ ==> command_of(seq![name] + rest) == Some(CommandView::Mkdir(rest)),
        name == "pwd"@ ==> command_of(seq![name] + rest) == Some(CommandView::Pwd),
        name == "exit"@ ==> command_of(seq![name] + rest) == Some(CommandView::Exit),
        name == "clear"@ ==> command_of(seq![name] + rest) is None,
        !(name == "ls"@ || name == "cat"@ || name == "cp"@ || name == "mv"@ || name == "cd"@ || name
            == "echo"@ || name == "rm"@ || name == "mkdir"@ || name == "pwd"@ || name == "exit"@
            || name == "clear"@) ==> command_of(seq![name] + rest) == Some(
            CommandView::Unknown(name),
        ),
{
    reveal_strlit("ls");
    reveal_strlit("cat");
    reveal_strlit("cp");
    reveal_strlit("mv");
    reveal_strlit("cd");
    reveal_strlit("echo");
    reveal_strlit("rm");
    reveal_strlit("mkdir");
    reveal_strlit("pwd");
    reveal_strlit("exit");
    reveal_strlit("clear");
    assert("cat"@.len() != "ls"@.len());
    assert("cp"@[0] != "ls"@[0]);
    assert("cp"@.len() != "cat"@.len());
    assert("mv"@[0] != "ls"@[0]);
    assert("mv"@.len() != "cat"@.len());
    assert("mv"@[0] != "cp"@[0]);
    assert("cd"@[0] != "ls"@[0]);
    assert("cd"@.len() != "cat"@.len());
    assert("cd"@[1] != "cp"@[1]);
    assert("cd"@[0] != "mv"@[0]);
    assert("echo"@.len() != "ls"@.len());
    assert("echo"@.len() != "cat"@.len());
    assert("echo"@.len() != "cp"@.len());
    assert("echo"@.len() != "mv"@.len());
    assert("echo"@.len() != "cd"@.len());
    assert("rm"@[0] != "ls"@[0]);
    assert("rm"@.len() != "cat"@.len());
    assert("rm"@[0] != "cp"@[0]);
    assert("rm"@[0] != "mv"@[0]);
    assert("rm"@[0] != "cd"@[0]);
    assert("rm"@.len() != "echo"@.len());
    assert("mkdir"@.len() != "ls"@.len());
    assert("mkdir"@.len() != "cat"@.len());
    assert("mkdir"@.len() != "cp"@.len());
    assert("mkdir"@.len() != "mv"@.len());
    assert("mkdir"@.len() != "cd"@.len());
    assert("mkdir"@.len() != "echo"@.len());
    assert("mkdir"@.len() != "rm"@.len());
    assert("pwd"@.len() != "ls"@.len());
    assert("pwd"@[0] != "cat"@[0]);
    assert("pwd"@.len() != "cp"@.len());
    assert("pwd"@.len() != "mv"@.len());
    assert("pwd"@.len() != "cd"@.len());
    assert("pwd"@.len() != "echo"@.len());
    assert("pwd"@.len() != "rm"@.len());
    assert("pwd"@.len() != "mkdir"@.len());
    assert("exit"@.len() != "ls"@.len());
    assert("exit"@.len() != "cat"@.len());
    assert("exit"@.len() != "cp"@.len());
    assert("exit"@.len() != "mv"@.len());
    assert("exit"@.len() != "cd"@.len());
    assert("exit"@[1] != "echo"@[1]);
    assert("exit"@.len() != "rm"@.len());
    assert("exit"@.len() != "mkdir"@.len());
    assert("exit"@.len() != "pwd"@.len());
    assert("clear"@.len() != "ls"@.len());
    assert("clear"@.len() != "cat"@.len());
    assert("clear"@.len() != "cp"@.len());
    assert("clear"@.len() != "mv"@.len());
    assert("clear"@.len() != "cd"@.len());
    assert("clear"@.len() != "echo"@.len());
    assert("clear"@.len() != "rm"@.len());
    assert("clear"@[0] != "mkdir"@[0]);
    assert("clear"@.len() != "pwd"@.len());
    assert("clear"@.len() != "exit"@.len());
    let a = seq![name] + rest;
    assert(a[0] == name);
    assert(a.drop_first() =~= rest);
}

/// The commands of a tokenized line, in order, `clear` left out.
pub open spec fn commands_of(cmds: Seq<Seq<Seq<char>>>) -> Seq<CommandView>
    decreases cmds.len(),
{
    if cmds.len() == 0 {
        seq![]
    } else {
        let prev = commands_of(cmds.drop_last());
        match command_of(cmds.last()) {
            Some(c) => prev.push(c),
            None => prev,
        }
    }
}

/// How many `clear` commands a tokenized line holds.
pub open spec fn clears_of(cmds: Seq<Seq<Seq<char>>>) -> nat
    decreases cmds.len(),
{
    if cmds.len() == 0 {
        0
    } else {
        clears_of(cmds.drop_last()) + if command_of(cmds.last()) is None {
            1nat
        } else {
            0nat
        }
    }
}

/// What the line `s` parses to: no command for a blank line, the
/// commands where it tokenizes, `Incomplete` where it ends inside quotes
/// or after an escaping backslash.
pub open spec fn parse_view(s: Seq<char>) -> ParseView {
    let t = trim(s);
    if t.len() == 0 {
        ParseView::Parsed(seq![])
    } else {
        match tokens_of(t) {
            Ok(c) => ParseView::Parsed(commands_of(c)),
            Err(_) => ParseView::Incomplete,
        }
    }
}

/// How many times parsing the line `s` clears the screen.
pub open spec fn clears_in(s: Seq<char>) -> nat {
    let t = trim(s);
    if t.len() == 0 {
        0
    } else {
        match tokens_of(t) {
            Ok(c) => clears_of(c),
            Err(_) => 0,
        }
    }
}

/// The command that a non-empty word list names, or `None` for `clear`.
fn command_from_words(args: Vec<String>) -> (r: Option<CommandEnum>)
    requires
        args.len() > 0,
    ensures
        r.deep_view() == command_of(args.deep_view()),
{
    let mut rest = args;
    let ghost all = rest.deep_view();
    let name = rest.remove(0);
    assert(rest.deep_view() =~= all.drop_first());
    let n = name.as_str();
    if str_eq(n, "ls") {
        Some(CommandEnum::Ls(rest))
    } else if str_eq(n, "cat") {
        Some(CommandEnum::Cat(rest))
    } else if str_eq(n, "cp") {
        Some(CommandEnum::Cp(rest))
    } else if str_eq(n, "mv") {
        Some(CommandEnum::Mv(rest))
    } else if str_eq(n, "pwd") {
        Some(CommandEnum::Pwd)
    } else if str_eq(n, "cd") {
        Some(CommandEnum::Cd(rest))
    } else if str_eq(n, "echo") {
        Some(CommandEnum::Echo(rest))
    } else if str_eq(n, "rm") {
        Some(CommandEnum::Rm(rest))
    } else if str_eq(n, "mkdir") {
        Some(CommandEnum::Mkdir(rest))
    } else if str_eq(n, "exit") {
        Some(CommandEnum::Exit)
    } else if str_eq(n, "clear") {
        None
    } else {
        Some(CommandEnum::Unknown(name))
    }
}

/// Parses a command line and counts the `clear` commands in it: the
/// screen is to be cleared that many times, and the commands returned
/// leave them out.
pub fn parse_input_and_clears(input: &str) -> (r: (ParseResult, usize))
    ensures
        r.0@ == parse_view(input@),
        r.1 == clears_in(input@),
{
    let cs = chars_of(input);
    let t = trim_chars(&cs);
    if t.len() == 0 {
        let none: Vec<CommandEnum> = Vec::new();
        assert(none.deep_view() =~= Seq::<CommandView>::empty());
        return (ParseResult::Parsed(none), 0);
    }
    match tokenize_chars(&t) {
        Ok(tokens) => {
            let ghost all = tokens.deep_view();
            let mut left = tokens;
            assert(all.len() == left.len());
            let mut cmds: Vec<CommandEnum> = Vec::new();
            let mut clears: usize = 0;
            let ghost mut k: int = 0;
            assert(all.take(0) =~= Seq::<Seq<Seq<char>>>::empty());
            assert(cmds.deep_view() =~= Seq::<CommandView>::empty());
            assert(left.deep_view() =~= all.skip(0));
            while left.len() > 0
                invariant
                    0 <= k <= all.len(),
                    well_formed_cmds(all),
                    left.deep_view() == all.skip(k),
                    cmds.deep_view() == commands_of(all.take(k)),
                    clears == clears_of(all.take(k)),
                    clears <= k,
                    all.len() <= usize::MAX,
                decreases left.len(),
            {
                let ghost before = left.deep_view();
                let args = left.remove(0);
                proof {
                    assert(left.deep_view() =~= before.drop_first());
                    assert(all.skip(k).drop_first() =~= all.skip(k + 1));
                    assert(before[0] == args.deep_view());
                    assert(all.skip(k)[0] == all[k]);
                    assert(all.take(k + 1).drop_last() =~= all.take(k));
                    assert(all.take(k + 1).last() == all[k]);
                    k = k + 1;
                }
                match command_from_words(args) {
                    Some(c) => {
                        let ghost old_cmds = cmds.deep_view();
                        cmds.push(c);
                        assert(cmds.deep_view() =~= old_cmds.push(c.deep_view()));
                    },
                    None => {
                        clears = clears + 1;
                    },
                }
            }
            assert(all.take(k) =~= all);
            (ParseResult::Parsed(cmds), clears)
        },
        Err(_) => (ParseResult::Incomplete, 0),
    }
}

/// Parses a command line: no command for a blank line, the commands in
/// order (`clear` left out) where it tokenizes, `Incomplete` where it
/// ends inside quotes or after an escaping backslash.
pub fn parse_input(input: &str) -> (r: ParseResult)
    ensures
        r@ == parse_view(input@),
{
    parse_input_and_clears(input).0
}

} // verus!

verus! {

/// `s` holds neither a backslash nor a single quote.
pub open spec fn plain_double_quoted(s: Seq<char>) -> bool {
    forall|i: int| 0 <= i < s.len() ==> #[trigger] s[i] != '\\' && s[i] != '\''
}

/// Counting from the front.
proof fn lemma_count_front(s: Seq<char>, c: char)
    requires
        s.len() > 0,
    ensures
        count_char(s, c) == count_char(s.drop_first(), c) + if s[0] == c {
            1nat
        } else {
            0nat
        },
    decreases s.len(),
{
    if s.len() > 1 {
        lemma_count_front(s.drop_last(), c);
        assert(s.drop_last().drop_first() =~= s.drop_first().drop_last());
        assert(s.drop_first().last() == s.last());
        assert(s.drop_last()[0] == s[0]);
        assert(count_char(s.drop_first(), c) == count_char(s.drop_first().drop_last(), c) + if s.drop_first().last() == c {
            1nat
        } else {
            0nat
        });
    } else {
        assert(s.drop_first().len() == 0);
        assert(s.drop_last().len() == 0);
        assert(s.last() == s[0]);
        assert(count_char(s.drop_first(), c) == 0);
        assert(count_char(s.drop_last(), c) == 0);
    }
}

proof fn lemma_no_single_quotes(s: Seq<char>)
    requires
        plain_double_quoted(s),
    ensures
        count_char(s, '\'') == 0,
    decreases s.len(),
{
    if s.len() > 0 {
        assert(s[s.len() - 1] != '\'');
        lemma_no_single_quotes(s.drop_last());
    }
}

/// Trimming whitespace keeps the characters that are not whitespace.
proof fn lemma_trim_keeps(s: Seq<char>)
    requires
        plain_double_quoted(s),
    ensures
        plain_double_quoted(trim(s)),
        count_char(trim(s), '"') == count_char(s, '"'),
{
    lemma_trim_start_keeps(s);
    lemma_trim_end_keeps(trim_start(s));
}

proof fn lemma_trim_start_keeps(s: Seq<char>)
    requires
        plain_double_quoted(s),
    ensures
        plain_double_quoted(trim_start(s)),
        count_char(trim_start(s), '"') == count_char(s, '"'),
    decreases s.len(),
{
    if s.len() > 0 && is_space(s[0]) {
        let t = s.drop_first();
        assert(plain_double_quoted(t)) by {
            assert forall|i: int| 0 <= i < t.len() implies #[trigger] t[i] != '\\' && t[i] != '\'' by {
                assert(t[i] == s[i + 1]);
            }
        }
        lemma_count_front(s, '"');
        lemma_trim_start_keeps(t);
    }
}

proof fn lemma_trim_end_keeps(s: Seq<char>)
    requires
        plain_double_quoted(s),
    ensures
        plain_double_quoted(trim_end(s)),
        count_char(trim_end(s), '"') == count_char(s, '"'),
    decreases s.len(),
{
    if s.len() > 0 && is_space(s.last()) {
        let t = s.drop_last();
        assert(plain_double_quoted(t)) by {
            assert forall|i: int| 0 <= i < t.len() implies #[trigger] t[i] != '\\' && t[i] != '\'' by {
                assert(t[i] == s[i]);
            }
        }
        lemma_trim_end_keeps(t);
    }
}

/// Without backslashes and single quotes the tokenizer is never escaped
/// nor in single quotes, and it ends outside quotes exactly where it
/// started outside them and read an even number of double quotes, or
/// started inside them and read an odd number.
proof fn lemma_tokenize_double_quotes(st: TokState, s: Seq<char>)
    requires
        plain_double_quoted(s),
        !st.escaped,
        st.mode != Mode::Single,
    ensures
        !tokenize(st, s).escaped,
        tokenize(st, s).mode != Mode::Single,
        (tokenize(st, s).mode == Mode::Normal) == ((st.mode == Mode::Normal) == (count_char(s, '"')
            % 2 == 0)),
    decreases s.len(),
{
    if s.len() == 0 {
    } else {
        let (next, k) = step(st, s);
        assert(s[0] != '\\' && s[0] != '\'');
        lemma_count_front(s, '"');
        let t = s.drop_first();
        assert(plain_double_quoted(t)) by {
            assert forall|i: int| 0 <= i < t.len() implies #[trigger] t[i] != '\\' && t[i] != '\'' by {
                assert(t[i] == s[i + 1]);
            }
        }
        if k == 2 {
            lemma_count_front(t, '"');
            assert(s.skip(2) =~= t.drop_first());
            let u = t.drop_first();
            assert(plain_double_quoted(u)) by {
                assert forall|i: int| 0 <= i < u.len() implies #[trigger] u[i] != '\\' && u[i] != '\'' by {
                    assert(u[i] == t[i + 1]);
                }
            }
            lemma_tokenize_double_quotes(next, u);
        } else {
            assert(s.skip(1) =~= t);
            lemma_tokenize_double_quotes(next, t);
        }
    }
}

/// Where a line holds no backslash and no single quote, parsing finds it
/// incomplete exactly where `quotes_balanced` finds its quotes unbalanced.
pub proof fn law_unbalanced_quotes_incomplete(s: Seq<char>)
    requires
        plain_double_quoted(s),
    ensures
        (parse_view(s) is Incomplete) == !(count_char(s, '"') % 2 == 0 && count_char(s, '\'') % 2
            == 0),
{
    lemma_no_single_quotes(s);
    lemma_trim_keeps(s);
    let t = trim(s);
    if t.len() == 0 {
        assert(count_char(t, '"') == 0);
    } else {
        lemma_tokenize_double_quotes(init_state(), t);
    }
}

} // verus!
