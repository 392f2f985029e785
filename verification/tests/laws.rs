//! Concrete instances of what the library proves for every line.
use minishell::lexer::tokenize;

#[test]
fn every_word_is_nonempty() {
    for line in ["'' \"\" x '' > '' y\n", "a '' b\n", "> '' z\n"] {
        let p = tokenize(line);
        assert!(p.args.iter().all(|a| !a.is_empty()));
        assert!(p.redirects.iter().all(|r| !r.path.is_empty()));
        assert!(p.args.is_empty() || !p.command.is_empty());
    }
}

#[test]
fn trailing_newline_changes_nothing() {
    for line in ["echo a 'b c' \"d\\\"e\" > f", "x \\", "x >", "x >>", "'open"] {
        let a = tokenize(line);
        let b = tokenize(&format!("{}\n", line));
        assert_eq!(a.command, b.command);
        assert_eq!(a.args, b.args);
        assert_eq!(a.redirects.len(), b.redirects.len());
    }
}

#[test]
fn plain_words_law_instance() {
    let p = tokenize("grep -n main src/lib.rs");
    assert_eq!(p.command, "grep");
    assert_eq!(p.args, vec!["-n", "main", "src/lib.rs"]);
    assert!(p.redirects.is_empty());
}

#[test]
fn redirect_law_instance() {
    let p = tokenize("sort -r 2>> errors.log");
    assert_eq!(p.command, "sort");
    assert_eq!(p.args, vec!["-r"]);
    assert_eq!(p.redirects.len(), 1);
    assert_eq!((p.redirects[0].fd, p.redirects[0].path.as_str(), p.redirects[0].append), (2, "errors.log", true));
}

#[test]
fn quoted_word_law_instances() {
    assert_eq!(tokenize("'a \"b\" \\c > d'").command, "a \"b\" \\c > d");
    assert_eq!(tokenize("\"a 'b' \\c > d\"").command, "a 'b' \\c > d");
    assert_eq!(tokenize("\\a\\ \\>\\'").command, "a >'");
}

#[test]
fn each_word_is_placed_once() {
    let p = tokenize("cmd a > out b 2>> err\n");
    let count = (!p.command.is_empty()) as usize + p.args.len() + p.redirects.len();
    assert_eq!(count, 5);
}
