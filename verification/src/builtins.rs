//! The commands the shell runs itself, and what each of them is asked to do.

use vstd::prelude::*;
use vstd::string::StringExecFns;
use crate::text::{same_text, spaced, texts};

verus! {

broadcast use vstd::string::group_string_axioms;

/// The commands the shell runs itself.
#[derive(Debug, Clone, Copy, PartialEq, Eq, Structural)]
pub enum Builtin {
    Echo,
    Exit,
    Type,
    Pwd,
    Cd,
}

impl Builtin {
    /// The name that calls the command.
    pub open spec fn name(self) -> Seq<char> {
        match self {
            Builtin::Echo => seq!['e', 'c', 'h', 'o'],
            Builtin::Exit => seq!['e', 'x', 'i', 't'],
            Builtin::Type => seq!['t', 'y', 'p', 'e'],
            Builtin::Pwd => seq!['p', 'w', 'd'],
            Builtin::Cd => seq!['c', 'd'],
        }
    }
}

/// The built-in command called `name`, if there is one.
pub open spec fn builtin_named(name: Seq<char>) -> Option<Builtin> {
    if name == Builtin::Echo.name() {
        Some(Builtin::Echo)
    } else if name == Builtin::Exit.name() {
        Some(Builtin::Exit)
    } else if name == Builtin::Type.name() {
        Some(Builtin::Type)
    } else if name == Builtin::Pwd.name() {
        Some(Builtin::Pwd)
    } else if name == Builtin::Cd.name() {
        Some(Builtin::Cd)
    } else {
        None
    }
}

/// The built-in command called `name`, if there is one.
pub fn builtin_of(name: &str) -> (res: Option<Builtin>)
    ensures
        res == builtin_named(name@),
{
    proof {
        reveal_strlit("echo");
        reveal_strlit("exit");
        reveal_strlit("type");
        reveal_strlit("pwd");
        reveal_strlit("cd");
        assert("echo"@ =~= Builtin::Echo.name());
        assert("exit"@ =~= Builtin::Exit.name());
        assert("type"@ =~= Builtin::Type.name());
        assert("pwd"@ =~= Builtin::Pwd.name());
        assert("cd"@ =~= Builtin::Cd.name());
    }
    if same_text(name, "echo") {
        Some(Builtin::Echo)
    } else if same_text(name, "exit") {
        Some(Builtin::Exit)
    } else if same_text(name, "type") {
        Some(Builtin::Type)
    } else if same_text(name, "pwd") {
        Some(Builtin::Pwd)
    } else if same_text(name, "cd") {
        Some(Builtin::Cd)
    } else {
        None
    }
}

/// Whether `command` names one of the commands the shell runs itself.
pub fn is_builtin(command: &str) -> (res: bool)
    ensures
        res == builtin_named(command@) is Some,
{
    builtin_of(command).is_some()
}

/// Each built-in command is found again by its name, and a name finds only
/// the command it belongs to.
pub proof fn lemma_builtin_names(b: Builtin, name: Seq<char>)
    ensures
        builtin_named(b.name()) == Some(b),
        builtin_named(name) == Some(b) ==> b.name() == name,
{
    assert(Builtin::Echo.name() != Builtin::Exit.name());
    assert(Builtin::Echo.name() != Builtin::Type.name());
    assert(Builtin::Exit.name() != Builtin::Type.name());
    assert(Builtin::Pwd.name() != Builtin::Cd.name());
    assert(Builtin::Pwd.name().len() == 3);
    assert(Builtin::Cd.name().len() == 2);
}

/// The line `echo` prints: its arguments joined by single spaces.
pub fn echo_line(args: &Vec<String>) -> (line: String)
    ensures
        line@ == spaced(texts(args@)),
{
    let mut line = String::new();
    let mut i: usize = 0;
    let ghost words = texts(args@);
    proof {
        reveal_strlit(" ");
        assert(" "@ =~= seq![' ']);
        assert(words.take(0) =~= Seq::<Seq<char>>::empty());
    }
    while i < args.len()
        invariant
            i <= args.len(),
            words == texts(args@),
            " "@ == seq![' '],
            line@ == spaced(words.take(i as int)),
        decreases args.len() - i,
    {
        let ghost prefix = words.take(i as int);
        let ghost grown = words.take(i + 1);
        assert(grown.drop_last() =~= prefix);
        assert(grown.last() == args@[i as int]@);
        if i > 0 {
            line.append(" ");
            line.append(args[i].as_str());
            assert(spaced(grown) == spaced(prefix) + seq![' '] + grown.last());
        } else {
            assert(line@ =~= Seq::<char>::empty());
            line.append(args[i].as_str());
            assert(spaced(grown) == grown[0]);
        }
        assert(line@ =~= spaced(grown));
        i = i + 1;
    }
    assert(words.take(args.len() as int) =~= words);
    line
}

/// The line `type` prints for `name`: a built-in command is named as one;
/// otherwise `location` is where the command was found on the search path,
/// if it was.
pub fn type_line(name: &str, location: Option<String>) -> (line: String)
    ensures
        line@ == (if builtin_named(name@) is Some {
            name@ + " is a shell builtin"@
        } else {
            match location {
                Some(path) => name@ + " is "@ + path@,
                None => name@ + ": not found"@,
            }
        }),
{
    let mut line = name.to_owned();
    if is_builtin(name) {
        line.append(" is a shell builtin");
    } else {
        match location {
            Some(path) => {
                line.append(" is ");
                line.append(path.as_str());
            },
            None => {
                line.append(": not found");
            },
        }
    }
    line
}

/// Where `cd` goes.
#[derive(Debug)]
pub enum CdTarget {
    /// The directory the shell was in before the last successful `cd`.
    PreviousDirectory,
    /// The home directory.
    Home,
    /// The directory named.
    Path(String),
}

/// `cd` with the arguments `args` goes to `target`: no argument or `~`
/// means home, `-` means the previous directory, anything else names the
/// directory; arguments after the first are ignored.
pub open spec fn cd_goes_to(args: Seq<Seq<char>>, target: CdTarget) -> bool {
    match target {
        CdTarget::PreviousDirectory => args.len() > 0 && args[0] == seq!['-'],
        CdTarget::Home => args.len() == 0 || args[0] == seq!['~'],
        CdTarget::Path(p) => args.len() > 0 && args[0] != seq!['-'] && args[0] != seq!['~']
            && p@ == args[0],
    }
}

/// Where `cd` with the arguments `args` goes.
pub fn cd_target(args: &Vec<String>) -> (target: CdTarget)
    ensures
        cd_goes_to(texts(args@), target),
{
    proof {
        reveal_strlit("-");
        reveal_strlit("~");
        assert("-"@ =~= seq!['-']);
        assert("~"@ =~= seq!['~']);
    }
    if args.len() == 0 {
        return CdTarget::Home;
    }
    let first = args[0].as_str();
    assert(texts(args@)[0] == first@);
    if same_text(first, "-") {
        CdTarget::PreviousDirectory
    } else if same_text(first, "~") {
        CdTarget::Home
    } else {
        CdTarget::Path(args[0].clone())
    }
}

/// Why `cd` could not change the directory.
#[derive(Debug)]
pub enum CdFailure {
    NotFound,
    PermissionDenied,
    /// Any other failure, with the system's description of it.
    Other(String),
}

/// The line `cd` prints when it cannot go to `path`.
pub fn cd_failure_line(path: &str, failure: &CdFailure) -> (line: String)
    ensures
        line@ == "cd: "@ + path@ + match failure {
            CdFailure::NotFound => ": No such file or directory"@,
            CdFailure::PermissionDenied => ": Permission denied"@,
            CdFailure::Other(description) => ": "@ + description@,
        },
{
    let mut line = String::new();
    line.append("cd: ");
    line.append(path);
    match failure {
        CdFailure::NotFound => line.append(": No such file or directory"),
        CdFailure::PermissionDenied => line.append(": Permission denied"),
        CdFailure::Other(description) => {
            line.append(": ");
            line.append(description.as_str());
        },
    }
    proof {
        assert(line@ =~= "cd: "@ + path@ + match failure {
            CdFailure::NotFound => ": No such file or directory"@,
            CdFailure::PermissionDenied => ": Permission denied"@,
            CdFailure::Other(description) => ": "@ + description@,
        });
    }
    line
}

/// The line printed when `command` is neither built in nor found on the
/// search path.
pub fn not_found_line(command: &str) -> (line: String)
    ensures
        line@ == command@ + ": command not found"@,
{
    let mut line = command.to_owned();
    line.append(": command not found");
    line
}

} // verus!
