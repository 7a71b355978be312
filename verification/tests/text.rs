use clank::text::{is_whitespace, join_strings, split_lines, split_words, to_chars, trim_str};

fn strs(v: Vec<Vec<char>>) -> Vec<String> {
    v.into_iter().map(|c| c.into_iter().collect()).collect()
}

#[test]
fn whitespace_matches_std() {
    for code in 0u32..0x3100 {
        if let Some(c) = char::from_u32(code) {
            assert_eq!(is_whitespace(c), c.is_whitespace(), "U+{code:04X}");
        }
    }
}

#[test]
fn trim_matches_std() {
    for s in ["", "  ", " a ", "\u{3000}x\u{85}", "a b", "\t\n x y \r\n"] {
        assert_eq!(trim_str(s), s.trim());
    }
}

#[test]
fn words_match_split_whitespace() {
    for s in ["", "   ", "a", " a  b\tc\n", "x\u{2003}y"] {
        let expected: Vec<String> = s.split_whitespace().map(str::to_owned).collect();
        assert_eq!(strs(split_words(&to_chars(s))), expected, "input {s:?}");
    }
}

#[test]
fn lines_match_std() {
    for s in ["", "a", "a\n", "a\n\n", "a\r\nb", "a\rb\n", "\n", "x\r", "one\ntwo\r\nthree"] {
        let expected: Vec<String> = s.lines().map(str::to_owned).collect();
        assert_eq!(strs(split_lines(&to_chars(s))), expected, "input {s:?}");
    }
}

#[test]
fn join_matches_std() {
    let parts = vec!["a".to_owned(), "".to_owned(), "c".to_owned()];
    assert_eq!(join_strings(&parts, "\n"), parts.join("\n"));
    assert_eq!(join_strings(&vec![], ", "), "");
    assert_eq!(join_strings(&vec!["x".to_owned()], ", "), "x");
}
