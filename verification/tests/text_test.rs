use mempal::text::{is_whitespace, join_lines, nonblank_lines_of, str_chars, str_equals, trim_chars};

fn chars(text: &str) -> Vec<char> {
    text.chars().collect()
}

fn text(v: &[char]) -> String {
    v.iter().collect()
}

#[test]
fn whitespace_agrees_with_std_on_every_char() {
    for code in 0u32..=0x10ffff {
        if let Some(c) = char::from_u32(code) {
            assert_eq!(is_whitespace(c), c.is_whitespace(), "at U+{code:04X}");
        }
    }
}

#[test]
fn trim_agrees_with_std() {
    for sample in ["", "  ", " a ", "\u{2003}x y\u{3000}", "\r\nline\r\n", "no-space", "\u{a0}\u{85}"] {
        assert_eq!(text(&trim_chars(&chars(sample))), sample.trim());
    }
}

#[test]
fn nonblank_lines_agree_with_std_lines() {
    for sample in ["", "\n", "a\nb", "a\r\nb\r\n", "  x  \n\n  \n y", "one\rtwo\n", "last\r"] {
        let ours: Vec<String> = nonblank_lines_of(&chars(sample)).iter().map(|l| text(l)).collect();
        let std: Vec<String> = sample
            .lines()
            .map(str::trim)
            .filter(|line| !line.is_empty())
            .map(ToString::to_string)
            .collect();
        assert_eq!(ours, std, "for {sample:?}");
    }
}

#[test]
fn join_and_compare() {
    let parts = vec![chars("a"), chars(""), chars("bc")];
    assert_eq!(text(&join_lines(&parts)), "a\n\nbc");
    assert_eq!(text(&join_lines(&Vec::new())), "");
    assert_eq!(str_chars("héllo"), chars("héllo"));
    assert!(str_equals("abc", "abc"));
    assert!(!str_equals("abc", "abd"));
    assert!(!str_equals("ab", "abc"));
}
