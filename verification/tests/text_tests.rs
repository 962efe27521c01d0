use matrix_osu_bot::text::{
    char_is_whitespace, chars_eq, chars_of, join_strings, split_words, str_eq, string_from_chars,
    trim_chars,
};

fn trimmed(s: &str) -> String {
    let cs = chars_of(s);
    string_from_chars(&trim_chars(&cs))
}

fn words_of(s: &str) -> Vec<String> {
    let cs = chars_of(s);
    split_words(&cs)
}

#[test]
fn trim_matches_std_trim() {
    for s in ["", "   ", "  !user  bob \n", "\u{3000}x\u{a0}", "a b", "\t\r\n"] {
        assert_eq!(trimmed(s), s.trim());
    }
}

#[test]
fn trim_is_idempotent_on_examples() {
    for s in ["  a  ", "\u{2003}b c\u{2003}", ""] {
        let once = trimmed(s);
        assert_eq!(trimmed(&once), once);
    }
}

#[test]
fn split_words_matches_split_whitespace() {
    for s in ["", "   ", "!user bob", "  a\u{2009}b\t\tc \n d ", "x", "\u{85}y\u{85}"] {
        let expected: Vec<String> = s.split_whitespace().map(str::to_owned).collect();
        assert_eq!(words_of(s), expected);
    }
}

#[test]
fn words_are_nonempty_and_without_whitespace() {
    for w in words_of(" one\ttwo  three\u{3000}four ") {
        assert!(!w.is_empty());
        assert!(!w.chars().any(char::is_whitespace));
    }
}

#[test]
fn whitespace_agrees_with_std() {
    for code in 0u32..0x3100 {
        if let Some(c) = char::from_u32(code) {
            assert_eq!(char_is_whitespace(c), c.is_whitespace(), "code point {code:#x}");
        }
    }
}

#[test]
fn join_strings_puts_separator_between() {
    let parts = vec!["a".to_string(), "b".to_string(), "c".to_string()];
    assert_eq!(join_strings(&parts, " | "), "a | b | c");
    assert_eq!(join_strings(&vec!["only".to_string()], ", "), "only");
    assert_eq!(join_strings(&Vec::new(), ", "), "");
}

#[test]
fn equality_of_text() {
    assert!(str_eq("yes", "yes"));
    assert!(!str_eq("yes", "ye"));
    assert!(chars_eq(&['a', 'b'], &['a', 'b']));
    assert!(!chars_eq(&['a'], &['b']));
}
