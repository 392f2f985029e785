//! What holds of every command line the lexer reads.

use vstd::prelude::*;
use crate::lexer::{
    empty_command, end_word, escapable_in_double_quotes, initial_state, lex, place_word, read_char,
    run, settle, step, tokenized, u32_literal, CommandView, LexState, RedirectView,
};
use crate::text::spaced;

verus! {

// ---------------------------------------------------------------------------
// Reading a line piece by piece

proof fn lemma_run_concat(st: LexState, a: Seq<char>, b: Seq<char>)
    ensures
        run(st, a + b) == run(run(st, a), b),
    decreases b.len(),
{
    if b.len() == 0 {
        assert(a + b =~= a);
    } else {
        assert((a + b).drop_last() =~= a + b.drop_last());
        assert((a + b).last() == b.last());
        lemma_run_concat(st, a, b.drop_last());
    }
}

proof fn lemma_run_one(st: LexState, c: char)
    ensures
        run(st, seq![c]) == step(st, c),
{
    assert(seq![c].drop_last() =~= Seq::<char>::empty());
    assert(run(st, seq![c].drop_last()) == st);
    assert(seq![c].last() == c);
}

/// A state in which no decision waits on the next character and no
/// backslash is in force.
pub open spec fn is_calm(st: LexState) -> bool {
    !st.escaped && !st.after_redirect && !st.held_backslash
}

/// A character that does nothing but join the current word when read in
/// state `st`: inside single quotes anything but `'` and newline; inside
/// double quotes anything but `"`, backslash and newline; outside quotes
/// anything that is not a blank, a quote, a backslash, a newline or `>`.
pub open spec fn is_literal_in(st: LexState, c: char) -> bool {
    if st.single {
        c != '\'' && c != '\n'
    } else if st.double {
        c != '"' && c != '\\' && c != '\n'
    } else {
        is_plain(c)
    }
}

/// A character with no meaning to the lexer outside quotes.
pub open spec fn is_plain(c: char) -> bool {
    !(c == ' ' || c == '\t' || c == '\n' || c == '\'' || c == '"' || c == '\\' || c == '>')
}

/// A non-empty word of characters with no meaning to the lexer.
pub open spec fn is_plain_word(w: Seq<char>) -> bool {
    w.len() > 0 && forall|k: int| 0 <= k < w.len() ==> #[trigger] is_plain(w[k])
}

proof fn lemma_run_literal(st: LexState, w: Seq<char>)
    requires
        is_calm(st),
        !(st.single && st.double),
        forall|k: int| 0 <= k < w.len() ==> #[trigger] is_literal_in(st, w[k]),
    ensures
        run(st, w) == (LexState { current: st.current + w, ..st }),
    decreases w.len(),
{
    if w.len() == 0 {
        assert(st.current + w =~= st.current);
        assert(run(st, w) =~= (LexState { current: st.current + w, ..st }));
    } else {
        let dl = w.drop_last();
        assert forall|k: int| 0 <= k < dl.len() implies #[trigger] is_literal_in(st, dl[k]) by {
            assert(dl[k] == w[k]);
        }
        lemma_run_literal(st, dl);
        assert(is_literal_in(st, w[w.len() - 1]));
        assert(st.current + dl.push(w.last()) =~= st.current + w);
        assert(dl.push(w.last()) =~= w);
        assert(run(st, w) =~= (LexState { current: st.current + w, ..st }));
    }
}

// ---------------------------------------------------------------------------
// Every word is non-empty

/// The words of `cmd` are all non-empty, and there are arguments only
/// when there is a command.
pub open spec fn words_nonempty(cmd: CommandView) -> bool {
    &&& forall|k: int| 0 <= k < cmd.args.len() ==> (#[trigger] cmd.args[k]).len() > 0
    &&& forall|k: int| 0 <= k < cmd.redirects.len() ==> (#[trigger] cmd.redirects[k]).path.len() > 0
    &&& cmd.args.len() > 0 ==> cmd.command.len() > 0
}

proof fn lemma_place_word_nonempty(cmd: CommandView, word: Seq<char>, pending: Option<(u32, bool)>)
    requires
        words_nonempty(cmd),
        word.len() > 0,
    ensures
        words_nonempty(place_word(cmd, word, pending)),
{
    let r = place_word(cmd, word, pending);
    match pending {
        Some((fd, append)) => {
            assert forall|k: int| 0 <= k < r.redirects.len() implies (
            #[trigger] r.redirects[k]).path.len() > 0 by {
                if k < cmd.redirects.len() {
                    assert(r.redirects[k] == cmd.redirects[k]);
                }
            }
        },
        None => {
            if cmd.command.len() != 0 {
                assert forall|k: int| 0 <= k < r.args.len() implies (#[trigger] r.args[k]).len()
                    > 0 by {
                    if k < cmd.args.len() {
                        assert(r.args[k] == cmd.args[k]);
                    }
                }
            }
        },
    }
}

/// How many words `cmd` holds: its command (if any), its arguments and the
/// targets of its redirections.
pub open spec fn word_count(cmd: CommandView) -> nat {
    (if cmd.command.len() > 0 { 1nat } else { 0nat }) + cmd.args.len() + cmd.redirects.len()
}

/// Ending a non-empty word places exactly one more word, and keeps the
/// rule that there are arguments only when there is a command.
pub proof fn lemma_place_word_counts(cmd: CommandView, word: Seq<char>, pending: Option<(u32, bool)>)
    requires
        word.len() > 0,
        cmd.command.len() == 0 ==> cmd.args.len() == 0,
    ensures
        ({
            let placed = place_word(cmd, word, pending);
            &&& placed.command.len() == 0 ==> placed.args.len() == 0
            &&& word_count(placed) == word_count(cmd) + 1
        }),
{
}

proof fn lemma_step_nonempty(st: LexState, c: char)
    requires
        words_nonempty(st.cmd),
    ensures
        words_nonempty(step(st, c).cmd),
{
    let x = settle(st, Some(c));
    if x.current.len() > 0 {
        lemma_place_word_nonempty(x.cmd, x.current, x.pending);
        lemma_place_word_nonempty(x.cmd, x.current, None);
    }
}

proof fn lemma_lex_nonempty(line: Seq<char>)
    ensures
        words_nonempty(lex(line).cmd),
    decreases line.len(),
{
    if line.len() > 0 {
        lemma_lex_nonempty(line.drop_last());
        lemma_step_nonempty(lex(line.drop_last()), line.last());
    }
}

/// No word that the lexer produces is empty (quotes around nothing make no
/// word), and a line has arguments only when it has a command.
pub proof fn lemma_words_nonempty(line: Seq<char>)
    ensures
        words_nonempty(tokenized(line)),
{
    lemma_lex_nonempty(line);
    let x = settle(lex(line), None);
    if x.current.len() > 0 {
        lemma_place_word_nonempty(x.cmd, x.current, x.pending);
    }
}

// ---------------------------------------------------------------------------
// Blank lines

/// A space, a tab or a newline.
pub open spec fn is_blank(c: char) -> bool {
    c == ' ' || c == '\t' || c == '\n'
}

proof fn lemma_lex_blank(line: Seq<char>)
    requires
        forall|k: int| 0 <= k < line.len() ==> #[trigger] is_blank(line[k]),
    ensures
        lex(line) == initial_state(),
    decreases line.len(),
{
    if line.len() > 0 {
        let dl = line.drop_last();
        assert forall|k: int| 0 <= k < dl.len() implies #[trigger] is_blank(dl[k]) by {
            assert(dl[k] == line[k]);
        }
        lemma_lex_blank(dl);
        assert(is_blank(line[line.len() - 1]));
    }
}

/// A line of spaces, tabs and newlines holds no command, no argument and
/// no redirection.
pub proof fn lemma_blank_line(line: Seq<char>)
    requires
        forall|k: int| 0 <= k < line.len() ==> #[trigger] is_blank(line[k]),
    ensures
        tokenized(line) == empty_command(),
{
    lemma_lex_blank(line);
}

// ---------------------------------------------------------------------------
// The newline that ends a line read from the terminal

/// A newline at the end of a line changes nothing, unless the line ends
/// in an open double quote with a backslash that has not yet taken effect:
/// the newline is one of the characters such a backslash escapes, so the
/// backslash disappears instead of being kept.
pub proof fn lemma_trailing_newline(line: Seq<char>)
    requires
        !lex(line).held_backslash,
    ensures
        tokenized(line.push('\n')) == tokenized(line),
{
    assert(line.push('\n').drop_last() =~= line);
}

// ---------------------------------------------------------------------------
// Words separated by spaces

/// The state after reading plain words separated by single spaces: all
/// but the last word are placed (the first as the command), the last is
/// still being read.
pub open spec fn after_words(words: Seq<Seq<char>>) -> LexState {
    LexState {
        cmd: if words.len() <= 1 {
            empty_command()
        } else {
            CommandView {
                command: words[0],
                args: words.subrange(1, words.len() - 1),
                redirects: Seq::empty(),
            }
        },
        current: words.last(),
        ..initial_state()
    }
}

/// The words of `words` with the character `sep` between each two.
pub open spec fn joined(words: Seq<Seq<char>>, sep: char) -> Seq<char>
    decreases words.len(),
{
    if words.len() == 0 {
        Seq::empty()
    } else if words.len() == 1 {
        words[0]
    } else {
        joined(words.drop_last(), sep) + seq![sep] + words.last()
    }
}

proof fn lemma_lex_joined(words: Seq<Seq<char>>, sep: char)
    requires
        sep == ' ' || sep == '\t',
        words.len() > 0,
        forall|k: int| 0 <= k < words.len() ==> #[trigger] is_plain_word(words[k]),
    ensures
        lex(joined(words, sep)) == after_words(words),
    decreases words.len(),
{
    let w = words.last();
    assert(is_plain_word(words[words.len() - 1]));
    if words.len() == 1 {
        lemma_run_literal(initial_state(), w);
        assert(Seq::<char>::empty() + w =~= w);
        assert(lex(joined(words, sep)) =~= after_words(words));
    } else {
        let dl = words.drop_last();
        assert forall|k: int| 0 <= k < dl.len() implies #[trigger] is_plain_word(dl[k]) by {
            assert(dl[k] == words[k]);
        }
        lemma_lex_joined(dl, sep);
        let prev = after_words(dl);
        assert(is_plain_word(dl[dl.len() - 1]));
        lemma_run_concat(initial_state(), joined(dl, sep), seq![sep]);
        lemma_run_one(prev, sep);
        let spaced_state = lex(joined(dl, sep) + seq![sep]);
        assert(spaced_state == end_word(prev));
        let expected = LexState { current: Seq::<char>::empty(), ..after_words(words) };
        if dl.len() == 1 {
            assert(spaced_state.cmd =~= expected.cmd);
        } else {
            assert(is_plain_word(dl[0]));
            assert(spaced_state.cmd.args =~= expected.cmd.args);
        }
        assert(spaced_state =~= expected);
        assert forall|k: int| 0 <= k < w.len() implies #[trigger] is_literal_in(expected, w[k]) by {
            assert(is_plain(w[k]));
        }
        lemma_run_literal(expected, w);
        lemma_run_concat(initial_state(), joined(dl, sep) + seq![sep], w);
        assert(joined(words, sep) == joined(dl, sep) + seq![sep] + w);
        assert(Seq::<char>::empty() + w =~= w);
        assert(lex(joined(words, sep)) =~= after_words(words));
    }
}

/// Plain words separated by single blanks (all spaces, or all tabs): the
/// first is the command, the others are its arguments, in order.
pub proof fn lemma_words_separated(words: Seq<Seq<char>>, sep: char)
    requires
        sep == ' ' || sep == '\t',
        words.len() > 0,
        forall|k: int| 0 <= k < words.len() ==> #[trigger] is_plain_word(words[k]),
    ensures
        tokenized(joined(words, sep)) == (CommandView {
            command: words[0],
            args: words.drop_first(),
            redirects: Seq::empty(),
        }),
{
    lemma_lex_joined(words, sep);
    assert(is_plain_word(words[words.len() - 1]));
    let expected = CommandView { command: words[0], args: words.drop_first(), redirects: Seq::empty() };
    if words.len() == 1 {
        assert(tokenized(joined(words, sep)) =~= expected);
    } else {
        assert(is_plain_word(words[0]));
        assert(words.subrange(1, words.len() - 1).push(words.last()) =~= words.drop_first());
        assert(tokenized(joined(words, sep)) =~= expected);
    }
}

/// A tab between words splits them exactly as a space does.
pub proof fn lemma_tab_separates_like_space(words: Seq<Seq<char>>)
    requires
        words.len() > 0,
        forall|k: int| 0 <= k < words.len() ==> #[trigger] is_plain_word(words[k]),
    ensures
        tokenized(joined(words, '\t')) == tokenized(joined(words, ' ')),
        tokenized(joined(words, '\t')).command == words[0],
        tokenized(joined(words, '\t')).args == words.drop_first(),
{
    lemma_words_separated(words, '\t');
    lemma_words_separated(words, ' ');
}

/// The line `echo` prints (`spaced`) puts exactly one space between two
/// arguments: no arguments give the empty line, one argument is printed
/// as it is, and one more argument adds a space and that argument.
pub proof fn lemma_echo_spacing(words: Seq<Seq<char>>, word: Seq<char>)
    ensures
        spaced(Seq::<Seq<char>>::empty()) == Seq::<char>::empty(),
        spaced(seq![word]) == word,
        words.len() > 0 ==> spaced(words.push(word)) == spaced(words) + seq![' '] + word,
        spaced(words) == joined(words, ' '),
        words.len() > 0 ==> spaced(words).len() + 1 == spaced(words.push(word)).len() - word.len(),
{
    assert(words.push(word).drop_last() =~= words);
    lemma_spaced_joined(words);
}

proof fn lemma_spaced_joined(words: Seq<Seq<char>>)
    ensures
        spaced(words) == joined(words, ' '),
    decreases words.len(),
{
    if words.len() > 1 {
        lemma_spaced_joined(words.drop_last());
    }
}

/// Plain words separated by single spaces: the first is the command, the
/// others are its arguments, in order.
pub proof fn lemma_plain_words(words: Seq<Seq<char>>)
    requires
        words.len() > 0,
        forall|k: int| 0 <= k < words.len() ==> #[trigger] is_plain_word(words[k]),
    ensures
        tokenized(spaced(words)) == (CommandView {
            command: words[0],
            args: words.drop_first(),
            redirects: Seq::empty(),
        }),
{
    lemma_spaced_joined(words);
    lemma_words_separated(words, ' ');
}

// ---------------------------------------------------------------------------
// Single quotes

/// Text between single quotes is one word, taken as it is: blanks, double
/// quotes, backslashes and `>` lose their meaning.  (Newlines are dropped
/// even there, so the text must hold none.)  Empty quotes make no word.
pub proof fn lemma_single_quoted(text: Seq<char>)
    requires
        forall|k: int| 0 <= k < text.len() ==> #[trigger] text[k] != '\'' && text[k] != '\n',
    ensures
        tokenized(seq!['\''] + text + seq!['\'']) == (if text.len() == 0 {
            empty_command()
        } else {
            CommandView { command: text, args: Seq::empty(), redirects: Seq::empty() }
        }),
{
    let open = LexState { single: true, ..initial_state() };
    lemma_run_one(initial_state(), '\'');
    assert(lex(seq!['\'']) == open);
    assert forall|k: int| 0 <= k < text.len() implies #[trigger] is_literal_in(open, text[k]) by {
        assert(text[k] != '\'' && text[k] != '\n');
    }
    lemma_run_literal(open, text);
    lemma_run_concat(initial_state(), seq!['\''], text);
    let inside = LexState { current: Seq::<char>::empty() + text, ..open };
    lemma_run_one(inside, '\'');
    lemma_run_concat(initial_state(), seq!['\''] + text, seq!['\'']);
    assert(Seq::<char>::empty() + text =~= text);
    if text.len() == 0 {
        assert(tokenized(seq!['\''] + text + seq!['\'']) =~= empty_command());
    } else {
        assert(tokenized(seq!['\''] + text + seq!['\'']) =~= (CommandView {
            command: text,
            args: Seq::empty(),
            redirects: Seq::empty(),
        }));
    }
}

// ---------------------------------------------------------------------------
// Output redirection

proof fn lemma_literal_number_is_plain(s: Seq<char>)
    requires
        u32_literal(s) is Some,
    ensures
        forall|k: int| 0 <= k < s.len() ==> #[trigger] is_plain(s[k]),
{
    let digits = if s.len() > 0 && s[0] == '+' { s.drop_first() } else { s };
    assert forall|k: int| 0 <= k < s.len() implies #[trigger] is_plain(s[k]) by {
        if s[0] == '+' {
            if k > 0 {
                assert(digits[k - 1] == s[k]);
                assert(crate::lexer::is_ascii_digit(digits[k - 1]));
            }
        } else {
            assert(digits[k] == s[k]);
            assert(crate::lexer::is_ascii_digit(digits[k]));
        }
    }
}

/// The redirection operator `>`, or `>>` when appending.
pub open spec fn redirect_operator(append: bool) -> Seq<char> {
    if append {
        seq!['>', '>']
    } else {
        seq!['>']
    }
}

/// Plain words, then a redirection `N>file` or `N>>file` (the number `N`,
/// written as `str::parse::<u32>` reads it, may be left out for descriptor
/// 1), give the command and its arguments and that one redirection.
pub proof fn lemma_redirect(
    words: Seq<Seq<char>>,
    number: Seq<char>,
    fd: u32,
    append: bool,
    file: Seq<char>,
)
    requires
        words.len() > 0,
        forall|k: int| 0 <= k < words.len() ==> #[trigger] is_plain_word(words[k]),
        (number.len() == 0 && fd == 1) || u32_literal(number) == Some(fd),
        is_plain_word(file),
    ensures
        tokenized(spaced(words) + seq![' '] + number + redirect_operator(append) + seq![' '] + file)
            == (CommandView {
            command: words[0],
            args: words.drop_first(),
            redirects: seq![RedirectView { fd, path: file, append }],
        }),
{
    let a = spaced(words);
    let b = a + seq![' '];
    let c = b + number;
    let d = c + redirect_operator(append);
    let e = d + seq![' '];
    let f = e + file;
    lemma_spaced_joined(words);
    lemma_lex_joined(words, ' ');
    assert(is_plain_word(words[0]));
    assert(is_plain_word(words[words.len() - 1]));
    let s0 = after_words(words);
    lemma_run_concat(initial_state(), a, seq![' ']);
    lemma_run_one(s0, ' ');
    let placed = CommandView { command: words[0], args: words.drop_first(), redirects: Seq::empty() };
    let s1 = LexState { cmd: placed, ..initial_state() };
    if words.len() == 1 {
        assert(lex(b) =~= s1);
    } else {
        assert(words.subrange(1, words.len() - 1).push(words.last()) =~= words.drop_first());
        assert(lex(b) =~= s1);
    }
    // the number
    if number.len() > 0 {
        lemma_literal_number_is_plain(number);
    }
    assert forall|k: int| 0 <= k < number.len() implies #[trigger] is_literal_in(s1, number[k]) by {
        assert(is_plain(number[k]));
    }
    lemma_run_literal(s1, number);
    lemma_run_concat(initial_state(), b, number);
    let s2 = LexState { current: number, ..s1 };
    assert(Seq::<char>::empty() + number =~= number);
    assert(lex(c) == s2);
    // the operator
    lemma_run_one(s2, '>');
    let s3 = LexState { pending: Some((fd, false)), after_redirect: true, ..s1 };
    assert(step(s2, '>') =~= s3);
    let s4 = LexState { pending: Some((fd, append)), after_redirect: !append, ..s1 };
    if append {
        lemma_run_one(s3, '>');
        lemma_run_concat(s2, seq!['>'], seq!['>']);
        assert(seq!['>'] + seq!['>'] =~= seq!['>', '>']);
        assert(run(s2, redirect_operator(append)) =~= s4);
    } else {
        assert(run(s2, redirect_operator(append)) =~= s4);
    }
    lemma_run_concat(initial_state(), c, redirect_operator(append));
    assert(lex(d) == s4);
    // the space
    lemma_run_one(s4, ' ');
    let s5 = LexState { pending: Some((fd, append)), ..s1 };
    assert(step(s4, ' ') =~= s5);
    lemma_run_concat(initial_state(), d, seq![' ']);
    // the file
    assert forall|k: int| 0 <= k < file.len() implies #[trigger] is_literal_in(s5, file[k]) by {
        assert(is_plain(file[k]));
    }
    lemma_run_literal(s5, file);
    lemma_run_concat(initial_state(), e, file);
    assert(Seq::<char>::empty() + file =~= file);
    assert(tokenized(f) =~= (CommandView {
        command: words[0],
        args: words.drop_first(),
        redirects: seq![RedirectView { fd, path: file, append }],
    }));
}

// ---------------------------------------------------------------------------
// Double quotes

/// Text that double quotes keep as it is: no double quote, no newline, and
/// every backslash followed (inside the quotes) by a character it does not
/// escape.
pub open spec fn kept_in_double_quotes(text: Seq<char>) -> bool {
    forall|k: int|
        0 <= k < text.len() ==> #[trigger] text[k] != '"' && text[k] != '\n' && (text[k] == '\\'
            ==> k + 1 < text.len() && !escapable_in_double_quotes(text[k + 1]))
}

/// Inside double quotes, after the first `j` characters of `text`, having
/// started from `st`.
spec fn inside_double_quotes(st: LexState, text: Seq<char>, j: int) -> LexState {
    if j > 0 && text[j - 1] == '\\' {
        LexState { current: st.current + text.take(j - 1), held_backslash: true, ..st }
    } else {
        LexState { current: st.current + text.take(j), ..st }
    }
}

proof fn lemma_run_double_quoted(st: LexState, text: Seq<char>, j: int)
    requires
        kept_in_double_quotes(text),
        is_calm(st),
        st.double,
        !st.single,
        0 <= j <= text.len(),
    ensures
        run(st, text.take(j)) == inside_double_quotes(st, text, j),
    decreases j,
{
    if j == 0 {
        assert(text.take(0) =~= Seq::<char>::empty());
        assert(st.current + text.take(0) =~= st.current);
        assert(run(st, text.take(j)) =~= inside_double_quotes(st, text, j));
    } else {
        lemma_run_double_quoted(st, text, j - 1);
        assert(text.take(j).drop_last() =~= text.take(j - 1));
        let c = text[j - 1];
        assert(text.take(j).last() == c);
        assert(c != '"' && c != '\n');
        if j >= 2 && text[j - 2] == '\\' {
            assert(text[j - 2] != '"');
            assert(!escapable_in_double_quotes(c));
            assert(st.current + text.take(j - 2).push('\\').push(c) =~= st.current + text.take(j));
            assert(text.take(j - 1) =~= text.take(j - 2).push('\\'));
        } else {
            assert((st.current + text.take(j - 1)).push(c) =~= st.current + text.take(j));
        }
        assert(run(st, text.take(j)) =~= inside_double_quotes(st, text, j));
    }
}

/// Reading a double-quoted section `"text"` from a calm state outside
/// quotes adds `text` to the current word and leaves the quotes closed.
proof fn lemma_run_quoted_section(st: LexState, text: Seq<char>)
    requires
        kept_in_double_quotes(text),
        is_calm(st),
        !st.double,
        !st.single,
    ensures
        run(st, seq!['"'] + text + seq!['"']) == (LexState { current: st.current + text, ..st }),
{
    let open = LexState { double: true, ..st };
    lemma_run_one(st, '"');
    lemma_run_double_quoted(open, text, text.len() as int);
    assert(text.take(text.len() as int) =~= text);
    if text.len() > 0 {
        assert(text[text.len() - 1] != '\\');
    }
    let inside = LexState { current: st.current + text, ..open };
    assert(run(open, text) == inside);
    lemma_run_concat(st, seq!['"'], text);
    lemma_run_one(inside, '"');
    lemma_run_concat(st, seq!['"'] + text, seq!['"']);
    assert(run(st, seq!['"'] + text + seq!['"']) =~= (LexState { current: st.current + text, ..st }));
}

/// Text between double quotes that holds no double quote, no newline and
/// no backslash in front of a character it escapes (`"`, `\`, `$`, `` ` ``,
/// newline) is one word, taken as it is.  Empty quotes make no word.
pub proof fn lemma_double_quoted(text: Seq<char>)
    requires
        kept_in_double_quotes(text),
    ensures
        tokenized(seq!['"'] + text + seq!['"']) == (if text.len() == 0 {
            empty_command()
        } else {
            CommandView { command: text, args: Seq::empty(), redirects: Seq::empty() }
        }),
{
    lemma_run_quoted_section(initial_state(), text);
    assert(Seq::<char>::empty() + text =~= text);
    if text.len() == 0 {
        assert(tokenized(seq!['"'] + text + seq!['"']) =~= empty_command());
    } else {
        assert(tokenized(seq!['"'] + text + seq!['"']) =~= (CommandView {
            command: text,
            args: Seq::empty(),
            redirects: Seq::empty(),
        }));
    }
}

// ---------------------------------------------------------------------------
// Backslash outside quotes

/// `text` with a backslash put in front of each character.
pub open spec fn escaped_each(text: Seq<char>) -> Seq<char>
    decreases text.len(),
{
    if text.len() == 0 {
        Seq::empty()
    } else {
        escaped_each(text.drop_last()) + seq!['\\', text.last()]
    }
}

proof fn lemma_run_escaped(text: Seq<char>)
    requires
        forall|k: int| 0 <= k < text.len() ==> #[trigger] text[k] != '\n',
    ensures
        lex(escaped_each(text)) == (LexState { current: text, ..initial_state() }),
    decreases text.len(),
{
    if text.len() == 0 {
        assert(lex(escaped_each(text)) =~= (LexState { current: text, ..initial_state() }));
    } else {
        let dl = text.drop_last();
        let c = text.last();
        assert forall|k: int| 0 <= k < dl.len() implies #[trigger] dl[k] != '\n' by {
            assert(dl[k] == text[k]);
        }
        lemma_run_escaped(dl);
        assert(text[text.len() - 1] != '\n');
        let before = LexState { current: dl, ..initial_state() };
        lemma_run_concat(initial_state(), escaped_each(dl), seq!['\\', c]);
        lemma_run_concat(before, seq!['\\'], seq![c]);
        assert(seq!['\\'] + seq![c] =~= seq!['\\', c]);
        lemma_run_one(before, '\\');
        let escaping = LexState { escaped: true, ..before };
        lemma_run_one(escaping, c);
        assert(dl.push(c) =~= text);
        assert(lex(escaped_each(text)) =~= (LexState { current: text, ..initial_state() }));
    }
}

/// Outside quotes a backslash takes away the meaning of the character after
/// it: a line of backslash-escaped characters is the one word they spell
/// (newlines are dropped even when escaped, so it holds none).
pub proof fn lemma_escaped_word(text: Seq<char>)
    requires
        text.len() > 0,
        forall|k: int| 0 <= k < text.len() ==> #[trigger] text[k] != '\n',
    ensures
        tokenized(escaped_each(text)) == (CommandView {
            command: text,
            args: Seq::empty(),
            redirects: Seq::empty(),
        }),
{
    lemma_run_escaped(text);
    assert(tokenized(escaped_each(text)) =~= (CommandView {
        command: text,
        args: Seq::empty(),
        redirects: Seq::empty(),
    }));
}

// ---------------------------------------------------------------------------
// Quotes inside a word

/// A double-quoted section opens wherever it starts, also in the middle of
/// a word: plain characters followed by a double-quoted text make one word
/// of both (`--name="a b"` is the word `--name=a b`).
pub proof fn lemma_quote_inside_word(word: Seq<char>, text: Seq<char>)
    requires
        is_plain_word(word),
        kept_in_double_quotes(text),
    ensures
        tokenized(word + seq!['"'] + text + seq!['"']) == (CommandView {
            command: word + text,
            args: Seq::empty(),
            redirects: Seq::empty(),
        }),
{
    assert forall|k: int| 0 <= k < word.len() implies #[trigger] is_literal_in(
        initial_state(),
        word[k],
    ) by {
        assert(is_plain(word[k]));
    }
    lemma_run_literal(initial_state(), word);
    let w = LexState { current: Seq::<char>::empty() + word, ..initial_state() };
    assert(Seq::<char>::empty() + word =~= word);
    lemma_run_quoted_section(w, text);
    let section = seq!['"'] + text + seq!['"'];
    lemma_run_concat(initial_state(), word, section);
    assert(word + seq!['"'] + text + seq!['"'] =~= word + section);
    assert(tokenized(word + seq!['"'] + text + seq!['"']) =~= (CommandView {
        command: word + text,
        args: Seq::empty(),
        redirects: Seq::empty(),
    }));
}

// ---------------------------------------------------------------------------
// Redirections after any line

/// The lexer is outside quotes and no backslash or decision is pending.
pub open spec fn is_calm_outside_quotes(st: LexState) -> bool {
    is_calm(st) && !st.single && !st.double
}

proof fn lemma_lex_redirect_start(line: Seq<char>, number: Seq<char>, fd: u32, append: bool)
    requires
        is_calm_outside_quotes(lex(line)),
        (number.len() == 0 && fd == 1) || u32_literal(number) == Some(fd),
    ensures
        is_calm_outside_quotes(lex(line + seq![' '])),
        lex(line + seq![' ']).current.len() == 0,
        lex(line + seq![' '] + number + redirect_operator(append) + seq![' ']) == (LexState {
            pending: Some((fd, append)),
            ..lex(line + seq![' '])
        }),
{
    let x0 = lex(line);
    lemma_run_concat(initial_state(), line, seq![' ']);
    lemma_run_one(x0, ' ');
    let x = lex(line + seq![' ']);
    assert(x == read_char(x0, ' '));
    let b = line + seq![' '];
    if number.len() > 0 {
        lemma_literal_number_is_plain(number);
    }
    assert forall|k: int| 0 <= k < number.len() implies #[trigger] is_literal_in(x, number[k]) by {
        assert(is_plain(number[k]));
    }
    lemma_run_literal(x, number);
    lemma_run_concat(initial_state(), b, number);
    assert(x.current + number =~= number);
    let y = LexState { current: number, ..x };
    assert(lex(b + number) == y);
    lemma_run_one(y, '>');
    let s3 = LexState { pending: Some((fd, false)), after_redirect: true, ..x };
    assert(step(y, '>') =~= s3);
    let s4 = LexState { pending: Some((fd, append)), after_redirect: !append, ..x };
    if append {
        lemma_run_one(s3, '>');
        lemma_run_concat(y, seq!['>'], seq!['>']);
        assert(seq!['>'] + seq!['>'] =~= seq!['>', '>']);
        assert(run(y, redirect_operator(append)) =~= s4);
    } else {
        assert(run(y, redirect_operator(append)) =~= s4);
    }
    lemma_run_concat(initial_state(), b + number, redirect_operator(append));
    lemma_run_one(s4, ' ');
    let s5 = LexState { pending: Some((fd, append)), ..x };
    assert(step(s4, ' ') =~= s5);
    lemma_run_concat(initial_state(), b + number + redirect_operator(append), seq![' ']);
}

/// After any line that ends outside quotes, a redirection `N>file` or
/// `N>>file` (no number: descriptor 1), set off by a space, is the last
/// redirection of the line, with that descriptor, file and append flag,
/// whatever redirections came before it.
pub proof fn lemma_redirect_follows_line(
    line: Seq<char>,
    number: Seq<char>,
    fd: u32,
    append: bool,
    file: Seq<char>,
)
    requires
        is_calm_outside_quotes(lex(line)),
        (number.len() == 0 && fd == 1) || u32_literal(number) == Some(fd),
        is_plain_word(file),
    ensures
        ({
            let r = tokenized(line + seq![' '] + number + redirect_operator(append) + seq![' '] + file);
            &&& r.redirects.len() > 0
            &&& r.redirects.last() == (RedirectView { fd, path: file, append })
        }),
{
    lemma_lex_redirect_start(line, number, fd, append);
    let prefix = line + seq![' '] + number + redirect_operator(append) + seq![' '];
    let x = lex(line + seq![' ']);
    let s5 = LexState { pending: Some((fd, append)), ..x };
    assert forall|k: int| 0 <= k < file.len() implies #[trigger] is_literal_in(s5, file[k]) by {
        assert(is_plain(file[k]));
    }
    lemma_run_literal(s5, file);
    lemma_run_concat(initial_state(), prefix, file);
    assert(x.current + file =~= file);
}

/// After any line that ends outside quotes, `>` set off by spaces redirects
/// descriptor 1, whatever descriptors earlier redirections named.
pub proof fn lemma_plain_redirect_is_stdout(line: Seq<char>, file: Seq<char>)
    requires
        is_calm_outside_quotes(lex(line)),
        is_plain_word(file),
    ensures
        ({
            let r = tokenized(line + seq![' ', '>', ' '] + file);
            &&& r.redirects.len() > 0
            &&& r.redirects.last() == (RedirectView { fd: 1, path: file, append: false })
        }),
{
    lemma_redirect_follows_line(line, Seq::empty(), 1, false, file);
    assert(line + seq![' '] + Seq::<char>::empty() + redirect_operator(false) + seq![' '] + file
        =~= line + seq![' ', '>', ' '] + file);
}

/// A redirection's file may be written in double quotes: it is read as
/// double quotes read any word.
pub proof fn lemma_quoted_redirect_target(
    line: Seq<char>,
    number: Seq<char>,
    fd: u32,
    append: bool,
    text: Seq<char>,
)
    requires
        is_calm_outside_quotes(lex(line)),
        (number.len() == 0 && fd == 1) || u32_literal(number) == Some(fd),
        kept_in_double_quotes(text),
        text.len() > 0,
    ensures
        ({
            let r = tokenized(
                line + seq![' '] + number + redirect_operator(append) + seq![' '] + seq!['"'] + text
                    + seq!['"'],
            );
            &&& r.redirects.len() > 0
            &&& r.redirects.last() == (RedirectView { fd, path: text, append })
        }),
{
    lemma_lex_redirect_start(line, number, fd, append);
    let prefix = line + seq![' '] + number + redirect_operator(append) + seq![' '];
    let x = lex(line + seq![' ']);
    let s5 = LexState { pending: Some((fd, append)), ..x };
    lemma_run_quoted_section(s5, text);
    let section = seq!['"'] + text + seq!['"'];
    lemma_run_concat(initial_state(), prefix, section);
    assert(prefix + seq!['"'] + text + seq!['"'] =~= prefix + section);
    assert(x.current + text =~= text);
}

/// Plain words, then `> "file"`: the command and arguments, and standard
/// output sent to the file named between the quotes.
pub proof fn lemma_words_then_quoted_target(words: Seq<Seq<char>>, text: Seq<char>)
    requires
        words.len() > 0,
        forall|k: int| 0 <= k < words.len() ==> #[trigger] is_plain_word(words[k]),
        kept_in_double_quotes(text),
        text.len() > 0,
    ensures
        tokenized(spaced(words) + seq![' ', '>', ' ', '"'] + text + seq!['"']) == (CommandView {
            command: words[0],
            args: words.drop_first(),
            redirects: seq![RedirectView { fd: 1, path: text, append: false }],
        }),
{
    lemma_spaced_joined(words);
    lemma_lex_joined(words, ' ');
    let line = spaced(words);
    lemma_lex_redirect_start(line, Seq::empty(), 1, false);
    let prefix = line + seq![' '] + Seq::<char>::empty() + redirect_operator(false) + seq![' '];
    assert(prefix + seq!['"'] + text + seq!['"'] =~= line + seq![' ', '>', ' ', '"'] + text
        + seq!['"']);
    let x = lex(line + seq![' ']);
    assert(is_plain_word(words[0]));
    assert(is_plain_word(words[words.len() - 1]));
    let placed = CommandView { command: words[0], args: words.drop_first(), redirects: Seq::empty() };
    lemma_run_one(after_words(words), ' ');
    lemma_run_concat(initial_state(), line, seq![' ']);
    if words.len() == 1 {
        assert(x.cmd =~= placed);
    } else {
        assert(words.subrange(1, words.len() - 1).push(words.last()) =~= words.drop_first());
        assert(x.cmd =~= placed);
    }
    let s5 = LexState { pending: Some((1u32, false)), ..x };
    lemma_run_quoted_section(s5, text);
    let section = seq!['"'] + text + seq!['"'];
    lemma_run_concat(initial_state(), prefix, section);
    assert(prefix + seq!['"'] + text + seq!['"'] =~= prefix + section);
    assert(x.current + text =~= text);
    assert(tokenized(spaced(words) + seq![' ', '>', ' ', '"'] + text + seq!['"']) =~= (CommandView {
        command: words[0],
        args: words.drop_first(),
        redirects: seq![RedirectView { fd: 1, path: text, append: false }],
    }));
}

} // verus!
