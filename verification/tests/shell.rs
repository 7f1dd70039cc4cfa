use zrun::shell::{highlight_shell, ShellKind};

fn spans(line: &str) -> Vec<(String, ShellKind)> {
    highlight_shell(line)
}

fn joined(line: &str) -> String {
    spans(line).into_iter().map(|(t, _)| t).collect()
}

#[test]
fn highlight_string_and_comment() {
    assert_eq!(spans("echo \"hi $x\" # note"), vec![
        ("echo".to_string(), ShellKind::Plain),
        (" ".to_string(), ShellKind::Plain),
        ("\"hi $x\"".to_string(), ShellKind::Str),
        (" ".to_string(), ShellKind::Plain),
        ("# note".to_string(), ShellKind::Comment),
    ]);
}

#[test]
fn highlight_keywords() {
    assert_eq!(spans("if true; then"), vec![
        ("if".to_string(), ShellKind::Keyword),
        (" ".to_string(), ShellKind::Plain),
        ("true".to_string(), ShellKind::Plain),
        (";".to_string(), ShellKind::Plain),
        (" ".to_string(), ShellKind::Plain),
        ("then".to_string(), ShellKind::Keyword),
    ]);
    assert_eq!(spans("done"), vec![("done".to_string(), ShellKind::Keyword)]);
    assert_eq!(spans("doner"), vec![("doner".to_string(), ShellKind::Plain)]);
}

#[test]
fn highlight_variables() {
    assert_eq!(spans("${name}x"), vec![
        ("${name}".to_string(), ShellKind::Variable),
        ("x".to_string(), ShellKind::Plain),
    ]);
    assert_eq!(spans("$HOME/bin"), vec![
        ("$HOME".to_string(), ShellKind::Variable),
        ("/".to_string(), ShellKind::Plain),
        ("bin".to_string(), ShellKind::Plain),
    ]);
    assert_eq!(spans("$1"), vec![("$1".to_string(), ShellKind::Variable)]);
    assert_eq!(spans("$"), vec![("$".to_string(), ShellKind::Plain)]);
    assert_eq!(spans("${open"), vec![("${open".to_string(), ShellKind::Variable)]);
}

#[test]
fn hash_inside_a_word_is_not_a_comment() {
    assert_eq!(spans("a#b"), vec![
        ("a".to_string(), ShellKind::Plain),
        ("#".to_string(), ShellKind::Plain),
        ("b".to_string(), ShellKind::Plain),
    ]);
    assert_eq!(spans("#!/bin/bash"), vec![("#!/bin/bash".to_string(), ShellKind::Comment)]);
    assert_eq!(spans("x\t# c"), vec![
        ("x".to_string(), ShellKind::Plain),
        ("\t".to_string(), ShellKind::Plain),
        ("# c".to_string(), ShellKind::Comment),
    ]);
    assert_eq!(spans("x\u{3000}#c"), vec![
        ("x".to_string(), ShellKind::Plain),
        ("\u{3000}".to_string(), ShellKind::Plain),
        ("#c".to_string(), ShellKind::Comment),
    ]);
}

#[test]
fn unterminated_string_runs_to_the_end() {
    assert_eq!(spans("echo 'it is"), vec![
        ("echo".to_string(), ShellKind::Plain),
        (" ".to_string(), ShellKind::Plain),
        ("'it is".to_string(), ShellKind::Str),
    ]);
}

#[test]
fn spans_join_back_to_the_line() {
    for line in ["", "ls -la | grep \"x\"  # list", "for f in *.sh; do echo ${f%.sh}; done", "héllo wörld $ü"] {
        assert_eq!(joined(line), line);
    }
    assert!(spans("").is_empty());
}
