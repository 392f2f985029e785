//! The command-line lexer.
//!
//! A line is read character by character.  Spaces and tabs separate words;
//! single quotes keep everything literal; double quotes keep everything
//! literal except a backslash in front of `"`, `\`, `$`, `` ` `` or a
//! newline; outside quotes a backslash makes the next character literal.
//! Newlines are dropped.  An unquoted `>` starts an output redirection:
//! digits right before it name the file descriptor (1 otherwise), a second
//! `>` right after it asks for appending, and the next word is the file.
//! The first word that is not a redirection target is the command, the
//! others are its arguments.

use vstd::prelude::*;
use crate::text::{chars_of, push_char};

verus! {

broadcast use vstd::string::group_string_axioms;

/// An output redirection `fd>path` (or `fd>>path` when `append`).
#[derive(Debug)]
pub struct Redirect {
    pub fd: u32,
    pub path: String,
    pub append: bool,
}

/// A command line split into its command, arguments and redirections.
#[derive(Debug)]
pub struct ParsedCommand {
    pub command: String,
    pub args: Vec<String>,
    pub redirects: Vec<Redirect>,
}

/// What a [`Redirect`] stands for.
#[verifier::ext_equal]
pub struct RedirectView {
    pub fd: u32,
    pub path: Seq<char>,
    pub append: bool,
}

/// What a [`ParsedCommand`] stands for: words as character sequences.
#[verifier::ext_equal]
pub struct CommandView {
    pub command: Seq<char>,
    pub args: Seq<Seq<char>>,
    pub redirects: Seq<RedirectView>,
}

impl View for Redirect {
    type V = RedirectView;

    open spec fn view(&self) -> RedirectView {
        RedirectView { fd: self.fd, path: self.path@, append: self.append }
    }
}

impl View for ParsedCommand {
    type V = CommandView;

    open spec fn view(&self) -> CommandView {
        CommandView {
            command: self.command@,
            args: self.args@.map_values(|s: String| s@),
            redirects: self.redirects@.map_values(|r: Redirect| r@),
        }
    }
}

/// The command line with no word in it.
pub open spec fn empty_command() -> CommandView {
    CommandView { command: Seq::empty(), args: Seq::empty(), redirects: Seq::empty() }
}

// ---------------------------------------------------------------------------
// Numbers in front of `>`

pub open spec fn is_ascii_digit(c: char) -> bool {
    '0' <= c && c <= '9'
}

pub open spec fn all_digits(s: Seq<char>) -> bool {
    forall|k: int| 0 <= k < s.len() ==> #[trigger] is_ascii_digit(s[k])
}

/// The number written by the decimal digits `s`.
pub open spec fn decimal_value(s: Seq<char>) -> nat
    decreases s.len(),
{
    if s.len() == 0 {
        0
    } else {
        10 * decimal_value(s.drop_last()) + (s.last() as nat - '0' as nat) as nat
    }
}

/// The `u32` that `s` writes as an optional `+` followed by one or more
/// decimal digits, if it writes one that fits.
pub open spec fn u32_literal(s: Seq<char>) -> Option<u32> {
    let digits = if s.len() > 0 && s[0] == '+' { s.drop_first() } else { s };
    if digits.len() > 0 && all_digits(digits) && decimal_value(digits) <= u32::MAX {
        Some(decimal_value(digits) as u32)
    } else {
        None
    }
}

/// Reads `token` as a file descriptor number (as `str::parse::<u32>` does):
/// an optional `+` and one or more decimal digits whose value fits in `u32`.
pub fn parse_fd(token: &str) -> (res: Option<u32>)
    ensures
        res == u32_literal(token@),
{
    let n = token.unicode_len();
    let mut start: usize = 0;
    if n > 0 && token.get_char(0) == '+' {
        start = 1;
    }
    let ghost digits = if token@.len() > 0 && token@[0] == '+' {
        token@.drop_first()
    } else {
        token@
    };
    assert(digits =~= token@.subrange(start as int, n as int));
    if start == n {
        return None;
    }
    let mut value: u64 = 0;
    let mut overflow = false;
    let mut i: usize = start;
    while i < n
        invariant
            start <= i <= n,
            n == token@.len(),
            start < n,
            digits == token@.subrange(start as int, n as int),
            digits == (if token@.len() > 0 && token@[0] == '+' { token@.drop_first() } else { token@ }),
            all_digits(digits.take(i - start)),
            !overflow ==> value == decimal_value(digits.take(i - start)),
            !overflow ==> value <= u32::MAX,
            overflow ==> decimal_value(digits.take(i - start)) > u32::MAX,
        decreases n - i,
    {
        let c = token.get_char(i);
        let ghost prefix = digits.take(i - start);
        let ghost next = digits.take(i + 1 - start);
        assert(next.drop_last() =~= prefix);
        assert(next.last() == c);
        if !('0' <= c && c <= '9') {
            assert(digits[i - start] == c);
            assert(!is_ascii_digit(digits[i - start]));
            assert(!all_digits(digits));
            return None;
        }
        let d = (c as u32 - '0' as u32) as u64;
        if !overflow {
            value = value * 10 + d;
            if value > 0xffff_ffffu64 {
                overflow = true;
            }
        }
        i = i + 1;
        assert(all_digits(digits.take(i - start)));
    }
    assert(digits.take(n - start) =~= digits);
    if overflow {
        None
    } else {
        Some(value as u32)
    }
}


// ---------------------------------------------------------------------------
// The lexer as a state machine over the characters of the line

/// Where the lexer stands after some prefix of the line.
///
/// Two decisions depend on the character that follows the one read: whether
/// a `>` is followed by a second `>`, and whether a backslash inside double
/// quotes escapes the next character.  `after_redirect` and
/// `held_backslash` record that such a decision waits on the next character.
#[verifier::ext_equal]
pub struct LexState {
    pub cmd: CommandView,
    pub current: Seq<char>,
    pub single: bool,
    pub double: bool,
    pub escaped: bool,
    pub pending: Option<(u32, bool)>,
    pub after_redirect: bool,
    pub held_backslash: bool,
}

pub open spec fn initial_state() -> LexState {
    LexState {
        cmd: empty_command(),
        current: Seq::empty(),
        single: false,
        double: false,
        escaped: false,
        pending: None,
        after_redirect: false,
        held_backslash: false,
    }
}

/// A finished word goes to the pending redirection if there is one, else it
/// becomes the command if there is none yet, else the next argument.
pub open spec fn place_word(cmd: CommandView, word: Seq<char>, pending: Option<(u32, bool)>) -> CommandView {
    match pending {
        Some((fd, append)) => CommandView {
            redirects: cmd.redirects.push(RedirectView { fd, path: word, append }),
            ..cmd
        },
        None => if cmd.command.len() == 0 {
            CommandView { command: word, ..cmd }
        } else {
            CommandView { args: cmd.args.push(word), ..cmd }
        },
    }
}

/// Ends the current word: it is placed, and the pending redirection (if
/// any) is used up.
pub open spec fn end_word(st: LexState) -> LexState {
    LexState {
        cmd: place_word(st.cmd, st.current, st.pending),
        current: Seq::empty(),
        pending: None,
        ..st
    }
}

/// An unquoted `>`: a word made of a number names the descriptor;
/// any other word is placed as a command or argument and descriptor 1 is
/// used.
pub open spec fn begin_redirect(st: LexState) -> LexState {
    let fd: u32 = match u32_literal(st.current) {
        Some(n) => n,
        None => 1,
    };
    let cmd = if u32_literal(st.current) is None && st.current.len() > 0 {
        place_word(st.cmd, st.current, None)
    } else {
        st.cmd
    };
    LexState {
        cmd,
        current: Seq::empty(),
        pending: Some((fd, false)),
        after_redirect: true,
        ..st
    }
}

/// The characters a backslash escapes inside double quotes.
pub open spec fn escapable_in_double_quotes(c: char) -> bool {
    c == '"' || c == '\\' || c == '$' || c == '`' || c == '\n'
}

/// Reads `c` in a state where no decision waits on it.
pub open spec fn read_char(st: LexState, c: char) -> LexState {
    let active = !(st.single || st.double || st.escaped);
    if c == '>' && active {
        begin_redirect(st)
    } else if c == '\\' && !st.single && !st.escaped {
        if st.double {
            LexState { held_backslash: true, ..st }
        } else {
            LexState { escaped: true, ..st }
        }
    } else if c == '\n' {
        st
    } else if c == '\'' && !(st.escaped || st.double) {
        LexState { single: !st.single, ..st }
    } else if c == '"' && !(st.escaped || st.single) {
        LexState { double: !st.double, ..st }
    } else if (c == ' ' || c == '\t') && active {
        if st.current.len() > 0 {
            end_word(st)
        } else {
            st
        }
    } else {
        LexState { current: st.current.push(c), escaped: false, ..st }
    }
}

/// Settles a waiting decision once the next character (`None` at the end
/// of the line) is known: a second `>` was not seen, or a held backslash
/// either escapes the next character or stands for itself.
pub open spec fn settle(st: LexState, next: Option<char>) -> LexState {
    if st.after_redirect {
        LexState { after_redirect: false, ..st }
    } else if st.held_backslash {
        match next {
            Some(c) => if escapable_in_double_quotes(c) {
                LexState { held_backslash: false, escaped: true, ..st }
            } else {
                LexState { held_backslash: false, current: st.current.push('\\'), ..st }
            },
            None => LexState { held_backslash: false, current: st.current.push('\\'), ..st },
        }
    } else {
        st
    }
}

/// One step of the lexer on character `c`.
pub open spec fn step(st: LexState, c: char) -> LexState {
    if st.after_redirect && c == '>' {
        LexState {
            after_redirect: false,
            pending: match st.pending {
                Some((fd, _)) => Some((fd, true)),
                None => None,
            },
            ..st
        }
    } else {
        read_char(settle(st, Some(c)), c)
    }
}

/// The state after reading `line` from state `st`.
pub open spec fn run(st: LexState, line: Seq<char>) -> LexState
    decreases line.len(),
{
    if line.len() == 0 {
        st
    } else {
        step(run(st, line.drop_last()), line.last())
    }
}

/// The state after reading all of `line`.
pub open spec fn lex(line: Seq<char>) -> LexState {
    run(initial_state(), line)
}

/// At the end of the line the last word, if any, is ended.
pub open spec fn finish(st: LexState) -> CommandView {
    let st1 = settle(st, None);
    if st1.current.len() > 0 {
        end_word(st1).cmd
    } else {
        st1.cmd
    }
}

/// The command that `line` reads as.
pub open spec fn tokenized(line: Seq<char>) -> CommandView {
    finish(lex(line))
}

// ---------------------------------------------------------------------------
// The lexer

/// The character after position `i - 1`, if the line goes on.
pub open spec fn lookahead(line: Seq<char>, i: int) -> Option<char> {
    if 0 <= i < line.len() {
        Some(line[i])
    } else {
        None
    }
}

/// The lexer state that the running lexer holds: no decision waits.
pub open spec fn settled_state(
    cmd: CommandView,
    current: Seq<char>,
    single: bool,
    double: bool,
    escaped: bool,
    pending: Option<(u32, bool)>,
) -> LexState {
    LexState {
        cmd,
        current,
        single,
        double,
        escaped,
        pending,
        after_redirect: false,
        held_backslash: false,
    }
}

/// Ends the word in `current_token`: it becomes the target of the pending
/// redirection if there is one, else the command if there is none yet, else
/// the next argument.
fn build_parsed_command(
    parsed_command: &mut ParsedCommand,
    current_token: &mut String,
    pending_redirect: &mut Option<(u32, bool)>,
)
    ensures
        final(parsed_command)@ == place_word(
            old(parsed_command)@,
            old(current_token)@,
            *old(pending_redirect),
        ),
        final(current_token)@ == Seq::<char>::empty(),
        *final(pending_redirect) == None::<(u32, bool)>,
{
    let ghost before = parsed_command@;
    if let Some((fd, append)) = pending_redirect.take() {
        let path = current_token.clone();
        parsed_command.redirects.push(Redirect { fd, path, append });
        assert(parsed_command@.redirects =~= before.redirects.push(
            RedirectView { fd, path: old(current_token)@, append },
        ));
    } else if parsed_command.command.as_str().is_empty() {
        parsed_command.command = current_token.clone();
    } else {
        let word = current_token.clone();
        parsed_command.args.push(word);
        assert(parsed_command@.args =~= before.args.push(old(current_token)@));
    }
    *current_token = String::new();
}

/// Splits a command line into its command, arguments and output
/// redirections; the result is [`tokenized`] of the line's characters.
pub fn tokenize(input: &str) -> (parsed: ParsedCommand)
    ensures
        parsed@ == tokenized(input@),
{
    let mut parsed_command = ParsedCommand {
        command: String::new(),
        args: Vec::new(),
        redirects: Vec::new(),
    };
    let mut current_token = String::new();
    let mut in_single_quote = false;
    let mut in_double_quote = false;
    let mut is_escaped = false;
    let mut pending_redirect: Option<(u32, bool)> = None;
    let characters = chars_of(input);
    let n = characters.len();
    let mut i: usize = 0;
    assert(parsed_command@ =~= empty_command());
    assert(characters@.take(0) =~= Seq::<char>::empty());

    while i < n
        invariant
            n == characters@.len(),
            characters@ == input@,
            i <= n,
            !(lex(characters@.take(i as int)).after_redirect
                && lex(characters@.take(i as int)).held_backslash),
            lex(characters@.take(i as int)).after_redirect ==> lookahead(characters@, i as int)
                != Some('>'),
            settled_state(
                parsed_command@,
                current_token@,
                in_single_quote,
                in_double_quote,
                is_escaped,
                pending_redirect,
            ) =~= settle(lex(characters@.take(i as int)), lookahead(characters@, i as int)),
        decreases n - i,
    {
        let c = characters[i];
        let next: Option<char> = if i + 1 < n {
            Some(characters[i + 1])
        } else {
            None
        };
        let ghost before = lex(characters@.take(i as int));
        let ghost after = lex(characters@.take(i + 1));
        assert(characters@.take(i + 1).drop_last() =~= characters@.take(i as int));
        assert(after == step(before, c));
        assert(next == lookahead(characters@, i + 1));
        i = i + 1;
        if c == '>' && !(in_single_quote || in_double_quote || is_escaped) {
            let fd = match parse_fd(current_token.as_str()) {
                Some(fd) => {
                    current_token = String::new();
                    fd
                },
                None => {
                    if !current_token.as_str().is_empty() {
                        let word = current_token.clone();
                        if parsed_command.command.as_str().is_empty() {
                            parsed_command.command = word;
                        } else {
                            let ghost args_before = parsed_command@.args;
                            parsed_command.args.push(word);
                            assert(parsed_command@.args =~= args_before.push(word@));
                        }
                        current_token = String::new();
                    }
                    1
                },
            };
            let append = match next {
                Some('>') => {
                    let ghost later = lex(characters@.take(i + 1));
                    assert(characters@.take(i + 1).drop_last() =~= characters@.take(i as int));
                    assert(later == step(after, '>'));
                    i = i + 1;
                    true
                },
                _ => false,
            };
            pending_redirect = Some((fd, append));
        } else if c == '\\' && !(in_single_quote || is_escaped || (in_double_quote
            && !is_escapable_in_double_quotes(next))) {
            is_escaped = true;
        } else if c == '\n' {
        } else if c == '\'' && !(is_escaped || in_double_quote) {
            in_single_quote = !in_single_quote;
        } else if c == '"' && !(is_escaped || in_single_quote) {
            in_double_quote = !in_double_quote;
        } else if (c == ' ' || c == '\t') && !(is_escaped || in_single_quote || in_double_quote) {
            if !current_token.as_str().is_empty() {
                build_parsed_command(&mut parsed_command, &mut current_token, &mut pending_redirect);
            }
        } else {
            push_char(&mut current_token, c);
            is_escaped = false;
        }
    }
    assert(characters@.take(n as int) =~= characters@);
    if !current_token.as_str().is_empty() {
        build_parsed_command(&mut parsed_command, &mut current_token, &mut pending_redirect);
    }
    parsed_command
}

/// Whether a backslash inside double quotes escapes the character `next`
/// (`None`: the line ends there).
fn is_escapable_in_double_quotes(next: Option<char>) -> (res: bool)
    ensures
        res == match next {
            Some(c) => escapable_in_double_quotes(c),
            None => false,
        },
{
    match next {
        Some(c) => c == '"' || c == '\\' || c == '$' || c == '`' || c == '\n',
        None => false,
    }
}

} // verus!
