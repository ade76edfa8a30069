//! Tests for the bash quote-wrap escaping.

use spurs::util::escape_for_bash;

#[test]
fn lib_simple() {
    const TEST_STRING: &str = "ls";
    assert_eq!(escape_for_bash(TEST_STRING), "'ls'");
}

#[test]
fn lib_more_complex() {
    const TEST_STRING: &str = r#"echo '$HELLOWORLD="hello world"' | grep "hello""#;
    assert_eq!(
        escape_for_bash(TEST_STRING),
        r#"'echo '"'"'$HELLOWORLD="hello world"'"'"' | grep "hello"'"#
    );
}

#[test]
fn util_simple() {
    const TEST_STRING: &str = "ls";
    assert_eq!(escape_for_bash(TEST_STRING), "'ls'");
}

#[test]
fn util_more_complex() {
    const TEST_STRING: &str = r#"echo '$HELLOWORLD="hello world"' | grep "hello""#;
    assert_eq!(
        escape_for_bash(TEST_STRING),
        r#"'echo '"'"'$HELLOWORLD="hello world"'"'"' | grep "hello"'"#
    );
}

#[test]
fn test_escape_empty() {
    assert_eq!(escape_for_bash(""), "''");
}

#[test]
fn test_escape_only_quotes() {
    assert_eq!(escape_for_bash("''"), r#"''"'"''"'"''"#);
}

#[test]
fn test_escape_specials_kept() {
    assert_eq!(escape_for_bash("a $b `c` | d"), "'a $b `c` | d'");
}

/// A small independent reader of one fully quoted POSIX shell word:
/// returns the text the word stands for, or `None` if the input is not one
/// fully quoted word.
fn read_shell_word(s: &str) -> Option<String> {
    #[derive(PartialEq)]
    enum Mode {
        Outside,
        Single,
        Double,
    }
    let mut mode = Mode::Outside;
    let mut out = String::new();
    for c in s.chars() {
        match mode {
            Mode::Outside => match c {
                '\'' => mode = Mode::Single,
                '"' => mode = Mode::Double,
                _ => return None,
            },
            Mode::Single => match c {
                '\'' => mode = Mode::Outside,
                _ => out.push(c),
            },
            Mode::Double => match c {
                '"' => mode = Mode::Outside,
                '$' | '`' | '\\' => return None,
                _ => out.push(c),
            },
        }
    }
    if mode == Mode::Outside {
        Some(out)
    } else {
        None
    }
}

#[test]
fn test_escape_round_trips() {
    let cases = [
        "",
        "ls",
        "a'b",
        "''",
        r#""Bob?!", said she, "I though you said 'I can't be there'!""#,
        r#"echo '$HELLOWORLD="hello world"' | grep "hello""#,
        "a $b `c` | d",
    ];
    for case in cases {
        assert_eq!(read_shell_word(&escape_for_bash(case)).as_deref(), Some(case));
    }
}

#[test]
fn test_escape_single_quote() {
    assert_eq!(escape_for_bash("a'b"), r#"'a'"'"'b'"#);
}
