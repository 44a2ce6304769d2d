use vstd::prelude::*;
use vstd::string::StringExecFns;
use crate::parser::{CommandEnum, CommandView};
use crate::pwd_state::PwdState;
use crate::text::string_of;

verus! {

/// What running one command comes to: print a message and go on, run a
/// built-in command, or stop the shell.
#[derive(Debug)]
pub enum Step {
    Report { message: String, to_stderr: bool },
    Dispatch(CommandEnum),
    Stop,
}

pub enum StepView {
    Report { message: Seq<char>, to_stderr: bool },
    Dispatch(CommandView),
    Stop,
}

impl View for Step {
    type V = StepView;

    open spec fn view(&self) -> StepView {
        match self {
            Step::Report { message, to_stderr } => StepView::Report {
                message: message@,
                to_stderr: *to_stderr,
            },
            Step::Dispatch(c) => StepView::Dispatch(c.deep_view()),
            Step::Stop => StepView::Stop,
        }
    }
}

/// The step that running `cmd` takes when the shell is in `pwd`: `rm`
/// without operands and `cp` without exactly two report a missing
/// operand on standard output; `pwd` prints the current directory and an
/// unknown command is reported, both on standard error; `exit` stops the
/// shell; every other command runs.
pub open spec fn step_of(cmd: CommandView, pwd: Seq<char>) -> StepView {
    match cmd {
        CommandView::Rm(a) => if a.len() == 0 {
            StepView::Report { message: "rm: missing operand"@, to_stderr: false }
        } else {
            StepView::Dispatch(cmd)
        },
        CommandView::Cp(a) => if a.len() != 2 {
            StepView::Report { message: "cp: missing file operand"@, to_stderr: false }
        } else {
            StepView::Dispatch(cmd)
        },
        CommandView::Pwd => StepView::Report { message: pwd, to_stderr: true },
        CommandView::Exit => StepView::Stop,
        CommandView::Unknown(name) => StepView::Report {
            message: "command not found: "@ + name,
            to_stderr: true,
        },
        _ => StepView::Dispatch(cmd),
    }
}

/// `cp` runs only with exactly two operands: with any other number it
/// reports a missing operand on standard output and copies nothing.
pub proof fn law_cp_needs_two_operands(args: Seq<Seq<char>>, pwd: Seq<char>)
    ensures
        (step_of(CommandView::Cp(args), pwd) is Dispatch) <==> args.len() == 2,
        args.len() == 2 ==> step_of(CommandView::Cp(args), pwd) == StepView::Dispatch(
            CommandView::Cp(args),
        ),
        args.len() != 2 ==> step_of(CommandView::Cp(args), pwd) == (StepView::Report {
            message: "cp: missing file operand"@,
            to_stderr: false,
        }),
{
}

/// `rm` runs only with at least one operand: without one it reports a
/// missing operand on standard output.
pub proof fn law_rm_needs_an_operand(args: Seq<Seq<char>>, pwd: Seq<char>)
    ensures
        (step_of(CommandView::Rm(args), pwd) is Dispatch) <==> args.len() > 0,
        args.len() == 0 ==> step_of(CommandView::Rm(args), pwd) == (StepView::Report {
            message: "rm: missing operand"@,
            to_stderr: false,
        }),
{
}

/// What each command comes to: `pwd` prints the current directory on
/// standard error; `exit` stops the shell; an unknown command is reported
/// on standard error by its name; `ls`, `cat`, `mv`, `cd`, `echo` and
/// `mkdir` always run, unchanged.
pub proof fn law_command_steps(cmd: CommandView, pwd: Seq<char>)
    ensures
        cmd is Pwd ==> step_of(cmd, pwd) == (StepView::Report { message: pwd, to_stderr: true }),
        cmd is Exit ==> step_of(cmd, pwd) is Stop,
        cmd matches CommandView::Unknown(name) ==> step_of(cmd, pwd) == (StepView::Report {
            message: "command not found: "@ + name,
            to_stderr: true,
        }),
        (cmd is Ls || cmd is Cat || cmd is Mv || cmd is Cd || cmd is Echo || cmd is Mkdir)
            ==> step_of(cmd, pwd) == StepView::Dispatch(cmd),
        (step_of(cmd, pwd) is Stop) <==> (cmd is Exit),
{
}

/// Decides what running `cmd` does (see `step_of`).
pub fn plan_command(cmd: CommandEnum, pwd: &PwdState) -> (r: Step)
    ensures
        r@ == step_of(cmd.deep_view(), pwd.current_dir@),
{
    match cmd {
        CommandEnum::Rm(a) => {
            if a.len() == 0 {
                Step::Report { message: string_of("rm: missing operand"), to_stderr: false }
            } else {
                Step::Dispatch(CommandEnum::Rm(a))
            }
        },
        CommandEnum::Cp(a) => {
            if a.len() != 2 {
                Step::Report { message: string_of("cp: missing file operand"), to_stderr: false }
            } else {
                Step::Dispatch(CommandEnum::Cp(a))
            }
        },
        CommandEnum::Pwd => Step::Report { message: pwd.get_current_dir(), to_stderr: true },
        CommandEnum::Exit => Step::Stop,
        CommandEnum::Unknown(name) => {
            let mut m = string_of("command not found: ");
            m.append(name.as_str());
            Step::Report { message: m, to_stderr: true }
        },
        other => Step::Dispatch(other),
    }
}

/// The position of the first `exit` among `cmds`, or their number where
/// there is none.
pub open spec fn first_exit(cmds: Seq<CommandView>) -> int
    decreases cmds.len(),
{
    if cmds.len() == 0 {
        0
    } else if cmds[0] is Exit {
        0
    } else {
        1 + first_exit(cmds.drop_first())
    }
}

/// Runs a list of commands until `exit`: returns how many of them, from
/// the first, are to run, and whether the shell keeps running afterwards,
/// which is so exactly when no command is `exit`.
pub fn execute_all(cmds: &Vec<CommandEnum>) -> (r: (usize, bool))
    ensures
        r.0 == first_exit(cmds.deep_view()),
        r.0 <= cmds.len(),
        forall|j: int| 0 <= j < r.0 ==> !(cmds.deep_view()[j] is Exit),
        r.0 < cmds.len() ==> cmds.deep_view()[r.0 as int] is Exit,
        r.1 == (r.0 == cmds.len()),
{
    let ghost all = cmds.deep_view();
    let mut i: usize = 0;
    assert(all.skip(0) =~= all);
    while i < cmds.len()
        invariant
            all == cmds.deep_view(),
            i <= cmds.len(),
            forall|j: int| 0 <= j < i ==> !(all[j] is Exit),
            first_exit(all) == i + first_exit(all.skip(i as int)),
        decreases cmds.len() - i,
    {
        if let CommandEnum::Exit = &cmds[i] {
            assert(all[i as int] is Exit);
            assert(all.skip(i as int)[0] is Exit);
            return (i, false);
        }
        assert(!(all[i as int] is Exit));
        assert(all.skip(i as int).drop_first() =~= all.skip(i + 1));
        i = i + 1;
    }
    assert(all.skip(i as int).len() == 0);
    (i, true)
}

} // verus!
