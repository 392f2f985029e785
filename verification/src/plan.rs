//! What the shell does with one command line once it is split.

use vstd::prelude::*;
use crate::builtins::{builtin_named, builtin_of, cd_goes_to, cd_target, echo_line, Builtin, CdTarget};
use crate::lexer::{ParsedCommand, Redirect, RedirectView};
use crate::text::{spaced, texts};

verus! {

/// What a built-in command is asked to do.
#[derive(Debug)]
pub enum BuiltinAction {
    /// Leave the shell.
    Exit,
    /// Print this line.
    Echo(String),
    /// Tell, for each argument, what kind of command it names.
    Type,
    /// Print the working directory.
    Pwd,
    /// Change the working directory.
    Cd(CdTarget),
}

/// What the shell does with a command line.
#[derive(Debug)]
pub enum LinePlan {
    /// The line names no command: nothing runs.
    Nothing,
    /// A built-in command runs inside the shell.  The shell's own standard
    /// output (error) is saved first and put back afterwards when a
    /// redirection of the line replaces it.
    Builtin { action: BuiltinAction, save_stdout: bool, save_stderr: bool },
    /// The command is looked up on the search path and run as a program.
    External,
}

/// Whether one of `redirects` sends descriptor `fd` somewhere.
pub open spec fn redirects_fd(redirects: Seq<RedirectView>, fd: u32) -> bool {
    exists|k: int| 0 <= k < redirects.len() && #[trigger] redirects[k].fd == fd
}

/// Whether one of `redirects` sends descriptor `fd` somewhere.
pub fn redirects_descriptor(redirects: &Vec<Redirect>, fd: u32) -> (res: bool)
    ensures
        res == redirects_fd(redirects@.map_values(|r: Redirect| r@), fd),
{
    let ghost views = redirects@.map_values(|r: Redirect| r@);
    let mut i: usize = 0;
    while i < redirects.len()
        invariant
            i <= redirects.len(),
            views == redirects@.map_values(|r: Redirect| r@),
            forall|k: int| 0 <= k < i ==> #[trigger] views[k].fd != fd,
        decreases redirects.len() - i,
    {
        if redirects[i].fd == fd {
            assert(views[i as int].fd == fd);
            return true;
        }
        i = i + 1;
    }
    false
}

/// What the built-in command `builtin` does with the arguments `args`.
pub open spec fn acts_as(builtin: Builtin, args: Seq<Seq<char>>, action: BuiltinAction) -> bool {
    match builtin {
        Builtin::Exit => action is Exit,
        Builtin::Echo => action matches BuiltinAction::Echo(line) && line@ == spaced(args),
        Builtin::Type => action is Type,
        Builtin::Pwd => action is Pwd,
        Builtin::Cd => action matches BuiltinAction::Cd(target) && cd_goes_to(args, target),
    }
}

/// What the built-in command `builtin` does with the arguments `args`.
pub fn builtin_action(builtin: Builtin, args: &Vec<String>) -> (action: BuiltinAction)
    ensures
        acts_as(builtin, texts(args@), action),
{
    match builtin {
        Builtin::Exit => BuiltinAction::Exit,
        Builtin::Echo => BuiltinAction::Echo(echo_line(args)),
        Builtin::Type => BuiltinAction::Type,
        Builtin::Pwd => BuiltinAction::Pwd,
        Builtin::Cd => BuiltinAction::Cd(cd_target(args)),
    }
}

/// What the shell does with the split command line `parsed`, where
/// `stdout_fd` and `stderr_fd` are the shell's standard output and error.
pub fn plan_line(parsed: &ParsedCommand, stdout_fd: u32, stderr_fd: u32) -> (plan: LinePlan)
    ensures
        (plan is Nothing) == (parsed@.command.len() == 0),
        (plan is External) == (parsed@.command.len() > 0 && builtin_named(parsed@.command) is None),
        plan matches LinePlan::Builtin { action, save_stdout, save_stderr } ==> {
            &&& builtin_named(parsed@.command) matches Some(b)
            &&& acts_as(b, parsed@.args, action)
            &&& save_stdout == redirects_fd(parsed@.redirects, stdout_fd)
            &&& save_stderr == redirects_fd(parsed@.redirects, stderr_fd)
        },
{
    if parsed.command.as_str().is_empty() {
        return LinePlan::Nothing;
    }
    match builtin_of(parsed.command.as_str()) {
        Some(b) => {
            let action = builtin_action(b, &parsed.args);
            let save_stdout = redirects_descriptor(&parsed.redirects, stdout_fd);
            let save_stderr = redirects_descriptor(&parsed.redirects, stderr_fd);
            LinePlan::Builtin { action, save_stdout, save_stderr }
        },
        None => LinePlan::External,
    }
}

} // verus!
