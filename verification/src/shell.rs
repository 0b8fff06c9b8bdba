//! The shell passthrough: a command goes to the shell as it was typed, but
//! one that deletes files only after the user has said yes.

use crate::notification::Invocation;
use crate::text::{
    contains, has_prefix, has_substring, opt_text, starts_with, texts, trim, trimmed,
};
use vstd::prelude::*;

verus! {

/// The question that is put before a command that deletes files.
pub const CONFIRM_PROMPT: &'static str =
    "\u{26A0}\u{FE0F}  You are about to delete files. Proceed? (y/n)";

/// The line that is printed when such a command is not confirmed.
pub const CANCELLED_LINE: &'static str = "\u{274C} Cancelled.";

/// The line that is printed after a command has run.
pub const DONE_LINE: &'static str = "\u{2714}\u{FE0F}  done";

/// What is to be done with a command.
#[derive(Debug, PartialEq, Eq)]
pub enum ShellStep {
    /// Ask the user whether to proceed, and come back with the answer.
    Confirm,
    /// Run the shell.
    Run(Invocation),
    /// Do nothing: the user did not confirm.
    Cancelled,
}

/// A `ShellStep` as plain mathematical values.
pub enum ShellStepView {
    Confirm,
    Run { program: Seq<char>, args: Seq<Seq<char>> },
    Cancelled,
}

impl View for ShellStep {
    type V = ShellStepView;

    open spec fn view(&self) -> ShellStepView {
        match self {
            ShellStep::Confirm => ShellStepView::Confirm,
            ShellStep::Run(call) => ShellStepView::Run {
                program: call.program@,
                args: texts(call.args@),
            },
            ShellStep::Cancelled => ShellStepView::Cancelled,
        }
    }
}

/// The command deletes files, as far as its text shows: it begins with
/// `rm ` or holds ` rm `.
pub open spec fn needs_confirmation(cmd: Seq<char>) -> bool {
    starts_with(cmd, "rm "@) || contains(cmd, " rm "@)
}

/// The answer is a yes: the letter `y`, with nothing but white space around
/// it.
pub open spec fn is_yes(answer: Seq<char>) -> bool {
    trimmed(answer) == "y"@
}

/// The shell is run with the command as its one script.
pub open spec fn shell_call(cmd: Seq<char>) -> ShellStepView {
    ShellStepView::Run { program: "bash"@, args: seq!["-c"@, cmd] }
}

/// What is to be done with the command `cmd`, where `answer` is what the
/// user answered when asked, or `None` where the user was not asked yet.
pub open spec fn shell_step(cmd: Seq<char>, answer: Option<Seq<char>>) -> ShellStepView {
    if !needs_confirmation(cmd) {
        shell_call(cmd)
    } else {
        match answer {
            None => ShellStepView::Confirm,
            Some(given) => if is_yes(given) {
                shell_call(cmd)
            } else {
                ShellStepView::Cancelled
            },
        }
    }
}

/// The confirmation before deleting: a command that begins with `rm ` or
/// holds ` rm ` is run only after the answer `y`. Before any answer the user
/// is asked; any other answer cancels it. The command that is run is the one
/// that was typed.
pub proof fn law_rm_needs_yes(cmd: Seq<char>, answer: Option<Seq<char>>)
    requires
        starts_with(cmd, "rm "@) || contains(cmd, " rm "@),
    ensures
        shell_step(cmd, answer) is Run <==> (answer matches Some(given) && trimmed(given) == "y"@),
        answer is None ==> shell_step(cmd, answer) is Confirm,
        shell_step(cmd, answer) is Run ==> shell_step(cmd, answer) == shell_call(cmd),
{
}

/// What is to be done with the command `cmd`: `answer` is what the user
/// answered when asked whether to proceed, or `None` where the user was not
/// asked yet.
pub fn run_smart_shell(cmd: &str, answer: Option<&str>) -> (step: ShellStep)
    ensures
        step@ == shell_step(cmd@, opt_text(answer)),
{
    if has_prefix(cmd, "rm ") || has_substring(cmd, " rm ") {
        match answer {
            None => {
                return ShellStep::Confirm;
            },
            Some(given) => {
                if !trim(given).as_str().eq("y") {
                    return ShellStep::Cancelled;
                }
            },
        }
    }
    let mut args: Vec<String> = Vec::new();
    args.push("-c".to_owned());
    args.push(cmd.to_owned());
    assert(texts(args@) =~= seq!["-c"@, cmd@]);
    ShellStep::Run(Invocation { program: "bash".to_owned(), args })
}

} // verus!
