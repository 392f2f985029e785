//! Decisions around running a program: finding it, handing it its
//! arguments, pointing its output at files, and which failures of the
//! process-group and wait calls the shell lets pass.

use vstd::prelude::*;
use crate::text::{contains_nul, texts};

verus! {

broadcast use vstd::string::group_string_axioms;

/// Whether a file with permission bits `mode` may be executed by someone:
/// one of its three execute bits is set.
pub fn is_executable_mode(mode: u32) -> (res: bool)
    ensures
        res == (mode & 0o111 != 0),
{
    mode & 0o111 != 0
}

/// What an output redirection does with the file it opened.
#[derive(Debug, PartialEq, Eq, Structural)]
pub enum RedirectTarget {
    /// Descriptor 0 is not an output: the redirection fails.
    Refused,
    /// The file becomes the standard output.
    StandardOutput,
    /// The file becomes the standard error.
    StandardError,
    /// The file is placed at this descriptor.
    Descriptor(u32),
}

/// What an output redirection of descriptor `fd` does with its file.
pub fn redirect_target(fd: u32) -> (target: RedirectTarget)
    ensures
        target == (if fd == 0 {
            RedirectTarget::Refused
        } else if fd == 1 {
            RedirectTarget::StandardOutput
        } else if fd == 2 {
            RedirectTarget::StandardError
        } else {
            RedirectTarget::Descriptor(fd)
        }),
{
    match fd {
        0 => RedirectTarget::Refused,
        1 => RedirectTarget::StandardOutput,
        2 => RedirectTarget::StandardError,
        _ => RedirectTarget::Descriptor(fd),
    }
}

/// Which text handed to a program holds a NUL character, which no
/// C string can carry.
#[derive(Debug, PartialEq, Eq, Structural)]
pub enum ExecArgError {
    /// The program's path.
    Path,
    /// The command name, passed as the program's first argument.
    Program,
    /// One of the arguments.
    Argument,
}

/// Whether one of `words` holds a NUL character.
pub open spec fn some_word_holds_nul(words: Seq<Seq<char>>) -> bool {
    exists|k: int| 0 <= k < words.len() && #[trigger] words[k].contains('\0')
}

/// The argument list a program found at `path` is started with: the command
/// name `command` followed by `args`.  The texts are checked in that order
/// (path, command, arguments) and the first that holds a NUL is reported.
pub fn exec_arguments(path: &str, command: &str, args: &Vec<String>) -> (res: Result<
    Vec<String>,
    ExecArgError,
>)
    ensures
        path@.contains('\0') ==> res == Err::<Vec<String>, ExecArgError>(ExecArgError::Path),
        !path@.contains('\0') && command@.contains('\0') ==> res == Err::<
            Vec<String>,
            ExecArgError,
        >(ExecArgError::Program),
        !path@.contains('\0') && !command@.contains('\0') && some_word_holds_nul(texts(args@))
            ==> res == Err::<Vec<String>, ExecArgError>(ExecArgError::Argument),
        !path@.contains('\0') && !command@.contains('\0') && !some_word_holds_nul(texts(args@))
            ==> (res matches Ok(argv) && texts(argv@) == seq![command@] + texts(args@)),
{
    if contains_nul(path) {
        return Err(ExecArgError::Path);
    }
    if contains_nul(command) {
        return Err(ExecArgError::Program);
    }
    let mut argv: Vec<String> = Vec::new();
    argv.push(command.to_owned());
    let ghost words = texts(args@);
    let mut i: usize = 0;
    assert(texts(argv@) =~= seq![command@] + words.take(0));
    while i < args.len()
        invariant
            i <= args.len(),
            words == texts(args@),
            !path@.contains('\0'),
            !command@.contains('\0'),
            texts(argv@) == seq![command@] + words.take(i as int),
            forall|k: int| 0 <= k < i ==> !(#[trigger] words[k]).contains('\0'),
        decreases args.len() - i,
    {
        assert(words[i as int] == args[i as int]@);
        if contains_nul(args[i].as_str()) {
            assert(words[i as int].contains('\0'));
            return Err(ExecArgError::Argument);
        }
        let ghost before = argv@;
        argv.push(args[i].clone());
        assert(texts(argv@) =~= texts(before).push(words[i as int]));
        assert(words.take(i + 1) =~= words.take(i as int).push(words[i as int]));
        i = i + 1;
        assert(texts(argv@) =~= seq![command@] + words.take(i as int));
    }
    assert(words.take(args.len() as int) =~= words);
    Ok(argv)
}

/// The failures of a system call that the shell tells apart.
#[derive(Debug, Clone, Copy, PartialEq, Eq, Structural)]
pub enum SysError {
    /// Permission denied (`EACCES`).
    Access,
    /// Invalid argument (`EINVAL`).
    Invalid,
    /// No such process (`ESRCH`).
    NoProcess,
    /// Interrupted by a signal (`EINTR`).
    Interrupted,
    /// Any other failure.
    Other,
}

/// Whether the started program may go on when putting itself into its own
/// process group failed with `e`: it may when the call was refused or is
/// not possible there.
pub fn child_group_failure_tolerated(e: SysError) -> (res: bool)
    ensures
        res == (e == SysError::Access || e == SysError::Invalid),
{
    match e {
        SysError::Access | SysError::Invalid => true,
        _ => false,
    }
}

/// Whether the shell stays silent when putting a started program into its
/// own process group failed with `e`: it does when the program already
/// did it itself (`Access`) or is already gone (`NoProcess`).
pub fn parent_group_failure_tolerated(e: SysError) -> (res: bool)
    ensures
        res == (e == SysError::Access || e == SysError::NoProcess),
{
    match e {
        SysError::Access | SysError::NoProcess => true,
        _ => false,
    }
}

/// Whether waiting for a program is tried again after it failed with `e`:
/// only when a signal interrupted it.
pub fn wait_again(e: SysError) -> (res: bool)
    ensures
        res == (e == SysError::Interrupted),
{
    match e {
        SysError::Interrupted => true,
        _ => false,
    }
}

} // verus!
