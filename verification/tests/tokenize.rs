use minishell::lexer::{parse_fd, tokenize, ParsedCommand};

fn words(p: &ParsedCommand) -> Vec<&str> {
    p.args.iter().map(|s| s.as_str()).collect()
}

fn redirects(p: &ParsedCommand) -> Vec<(u32, &str, bool)> {
    p.redirects.iter().map(|r| (r.fd, r.path.as_str(), r.append)).collect()
}

#[test]
fn command_and_arguments() {
    let p = tokenize("echo hello world\n");
    assert_eq!(p.command, "echo");
    assert_eq!(words(&p), vec!["hello", "world"]);
    assert!(p.redirects.is_empty());
}

#[test]
fn blanks_separate_words() {
    let p = tokenize("  ls\t -l   /tmp  \n");
    assert_eq!(p.command, "ls");
    assert_eq!(words(&p), vec!["-l", "/tmp"]);
}

#[test]
fn blank_line_is_empty() {
    let p = tokenize("   \t \n");
    assert_eq!(p.command, "");
    assert!(p.args.is_empty());
    assert!(p.redirects.is_empty());
    let q = tokenize("");
    assert_eq!(q.command, "");
    assert!(q.args.is_empty());
}

#[test]
fn single_quotes_keep_everything() {
    let p = tokenize("echo 'a  b' 'x\"y\\z>w' c\n");
    assert_eq!(p.command, "echo");
    assert_eq!(words(&p), vec!["a  b", "x\"y\\z>w", "c"]);
    assert!(p.redirects.is_empty());
}

#[test]
fn adjacent_quotes_join_one_word() {
    let p = tokenize("echo 'hello''world' \"a\"'b'c\n");
    assert_eq!(words(&p), vec!["helloworld", "abc"]);
}

#[test]
fn empty_quotes_make_no_word() {
    let p = tokenize("echo '' \"\" x\n");
    assert_eq!(words(&p), vec!["x"]);
}

#[test]
fn double_quotes_escape_some_characters() {
    let p = tokenize("echo \"a\\\"b\" \"c\\\\d\" \"e\\$f\" \"g\\`h\"\n");
    assert_eq!(words(&p), vec!["a\"b", "c\\d", "e$f", "g`h"]);
}

#[test]
fn double_quotes_keep_other_backslashes() {
    let p = tokenize("echo \"a\\b\" \"it's\"\n");
    assert_eq!(words(&p), vec!["a\\b", "it's"]);
}

#[test]
fn backslash_outside_quotes() {
    let p = tokenize("echo a\\ b \\'x\\' \\\\ \\>y\n");
    assert_eq!(words(&p), vec!["a b", "'x'", "\\", ">y"]);
    assert!(p.redirects.is_empty());
}

#[test]
fn backslash_inside_single_quotes_is_kept() {
    let p = tokenize("echo 'a\\nb'\n");
    assert_eq!(words(&p), vec!["a\\nb"]);
}

#[test]
fn newlines_are_dropped() {
    let p = tokenize("echo a\nb\n");
    assert_eq!(words(&p), vec!["ab"]);
    let q = tokenize("echo 'x\ny'\n");
    assert_eq!(words(&q), vec!["xy"]);
}

#[test]
fn escaped_newline_escapes_what_follows() {
    let p = tokenize("echo a\\\n b\n");
    assert_eq!(words(&p), vec!["a b"]);
}

#[test]
fn redirect_standard_output() {
    let p = tokenize("ls /tmp > out.txt\n");
    assert_eq!(p.command, "ls");
    assert_eq!(words(&p), vec!["/tmp"]);
    assert_eq!(redirects(&p), vec![(1, "out.txt", false)]);
}

#[test]
fn redirect_with_descriptor_number() {
    let p = tokenize("ls 1> out 2> err\n");
    assert_eq!(p.command, "ls");
    assert!(p.args.is_empty());
    assert_eq!(redirects(&p), vec![(1, "out", false), (2, "err", false)]);
}

#[test]
fn redirect_append() {
    let p = tokenize("echo hi >> log 2>>errs\n");
    assert_eq!(words(&p), vec!["hi"]);
    assert_eq!(redirects(&p), vec![(1, "log", true), (2, "errs", true)]);
}

#[test]
fn redirect_without_spaces() {
    let p = tokenize("ls>>out\n");
    assert_eq!(p.command, "ls");
    assert!(p.args.is_empty());
    assert_eq!(redirects(&p), vec![(1, "out", true)]);
}

#[test]
fn word_before_redirect_that_is_no_number() {
    let p = tokenize("echo a>b\n");
    assert_eq!(p.command, "echo");
    assert_eq!(words(&p), vec!["a"]);
    assert_eq!(redirects(&p), vec![(1, "b", false)]);
}

#[test]
fn descriptor_numbers_read_as_u32() {
    let p = tokenize("cmd 3>x +7>y 4294967295>z\n");
    assert_eq!(p.command, "cmd");
    assert!(p.args.is_empty());
    assert_eq!(redirects(&p), vec![(3, "x", false), (7, "y", false), (4294967295, "z", false)]);
}

#[test]
fn too_large_number_is_a_word() {
    let p = tokenize("echo 4294967296>x\n");
    assert_eq!(words(&p), vec!["4294967296"]);
    assert_eq!(redirects(&p), vec![(1, "x", false)]);
}

#[test]
fn command_may_be_a_number_before_redirect() {
    let p = tokenize("5>x echo\n");
    assert_eq!(p.command, "echo");
    assert_eq!(redirects(&p), vec![(5, "x", false)]);
}

#[test]
fn redirect_without_target_is_dropped() {
    let p = tokenize("echo hi >\n");
    assert_eq!(p.command, "echo");
    assert_eq!(words(&p), vec!["hi"]);
    assert!(p.redirects.is_empty());
}

#[test]
fn quoted_redirect_operator_is_a_word() {
    let p = tokenize("echo '>' \">>\" x\n");
    assert_eq!(words(&p), vec![">", ">>", "x"]);
    assert!(p.redirects.is_empty());
}

#[test]
fn three_angle_brackets() {
    let p = tokenize("echo >>>x\n");
    assert_eq!(p.command, "echo");
    assert_eq!(redirects(&p), vec![(1, "x", false)]);
}

#[test]
fn words_after_redirect_target_are_arguments() {
    let p = tokenize("cat > out a b\n");
    assert_eq!(p.command, "cat");
    assert_eq!(words(&p), vec!["a", "b"]);
    assert_eq!(redirects(&p), vec![(1, "out", false)]);
}

#[test]
fn redirect_before_any_command() {
    let p = tokenize("> out\n");
    assert_eq!(p.command, "");
    assert!(p.args.is_empty());
    assert_eq!(redirects(&p), vec![(1, "out", false)]);
}

#[test]
fn quoted_redirect_target() {
    let p = tokenize("echo x > 'my file'\n");
    assert_eq!(redirects(&p), vec![(1, "my file", false)]);
}

#[test]
fn open_double_quote_with_backslash_at_the_end() {
    let p = tokenize("echo \"a\\");
    assert_eq!(words(&p), vec!["a\\"]);
    let q = tokenize("echo \"a\\\n");
    assert_eq!(words(&q), vec!["a"]);
}

#[test]
fn unclosed_quote_ends_with_the_line() {
    let p = tokenize("echo 'abc def\n");
    assert_eq!(words(&p), vec!["abc def"]);
}

#[test]
fn non_ascii_words() {
    let p = tokenize("echo héllo wörld\n");
    assert_eq!(words(&p), vec!["héllo", "wörld"]);
}

#[test]
fn parse_fd_reads_u32() {
    assert_eq!(parse_fd("0"), Some(0));
    assert_eq!(parse_fd("007"), Some(7));
    assert_eq!(parse_fd("+12"), Some(12));
    assert_eq!(parse_fd("4294967295"), Some(u32::MAX));
    assert_eq!(parse_fd("4294967296"), None);
    assert_eq!(parse_fd(""), None);
    assert_eq!(parse_fd("+"), None);
    assert_eq!(parse_fd("-1"), None);
    assert_eq!(parse_fd("12a"), None);
    assert_eq!(parse_fd(" 1"), None);
}

#[test]
fn parse_fd_agrees_with_std() {
    for s in ["1", "+0", "99999999999", "++1", "1+", "٣", "", "00000000000000000001"] {
        assert_eq!(parse_fd(s), s.parse::<u32>().ok(), "on {:?}", s);
    }
}
