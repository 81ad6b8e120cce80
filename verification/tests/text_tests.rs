use para_desktop::text::{
    ascii_lowercase, chars_of, contains_str, join_chars, lines_of, push_decimal, string_of,
    trimmed, Trim,
};

fn text(v: &[char]) -> String {
    v.iter().collect()
}

#[test]
fn lines_follow_str_lines() {
    let cases = ["", "a", "a\n", "a\n\n", "\n", "a\r\nb\r\n", "a\rb", "x\r", "one\ntwo\nthree"];
    for case in cases {
        let got: Vec<String> = lines_of(&chars_of(case)).iter().map(|l| text(l)).collect();
        let want: Vec<String> = case.lines().map(|l| l.to_string()).collect();
        assert_eq!(got, want, "{case:?}");
    }
}

#[test]
fn trim_follows_str_trim() {
    let cases = ["  a b  ", "\u{3000}全角\u{3000}", "\t\n", "", "\u{a0}x\u{2009}", "\u{200b}y"];
    for case in cases {
        assert_eq!(text(&trimmed(Trim::Whitespace, &chars_of(case))), case.trim(), "{case:?}");
        assert_eq!(
            text(&trimmed(Trim::Dash, &chars_of("--a-b--"))),
            "--a-b--".trim_matches('-')
        );
    }
}

#[test]
fn contains_and_lowercase() {
    assert!(contains_str(&chars_of("weekly review"), "review"));
    assert!(contains_str(&chars_of("abc"), ""));
    assert!(!contains_str(&chars_of("ab"), "abc"));
    assert_eq!(text(&ascii_lowercase(&chars_of("ABC-ÄÖ z"))), "abc-ÄÖ z");
}

#[test]
fn join_and_numbers() {
    let parts = vec![chars_of("a"), chars_of("b"), chars_of("c")];
    assert_eq!(text(&join_chars(&parts, ", ")), "a, b, c");
    assert_eq!(text(&join_chars(&vec![], ", ")), "");
    let mut v = Vec::new();
    push_decimal(&mut v, 1024);
    assert_eq!(text(&v), "1024");
    let mut z = Vec::new();
    push_decimal(&mut z, 0);
    assert_eq!(text(&z), "0");
    assert_eq!(string_of(&chars_of("✓ ok")), "✓ ok");
}
