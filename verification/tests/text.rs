use uiua::text::{
    after_last, chars_of, copy_range, decimal_string, find_from, push_decimal, push_str,
    same_chars, same_text, split_lines,
};

fn chars(s: &str) -> Vec<char> {
    s.chars().collect()
}

#[test]
fn chars_of_gives_the_characters() {
    assert_eq!(chars_of("héllo"), chars("héllo"));
    assert_eq!(chars_of(""), Vec::new());
}

#[test]
fn same_text_compares_characters() {
    assert!(same_text("abc", "abc"));
    assert!(same_text("", ""));
    assert!(!same_text("abc", "abd"));
    assert!(!same_text("abc", "ab"));
    assert!(!same_text("", "a"));
    assert!(same_chars(&chars("xy"), &chars("xy")));
    assert!(!same_chars(&chars("xy"), &chars("yx")));
}

#[test]
fn decimal_numerals() {
    for n in [0u64, 1, 9, 10, 11, 99, 100, 255, 1000, 65535, 1 << 32, u64::MAX] {
        assert_eq!(decimal_string(n), n.to_string());
    }
    let mut out = chars("n=");
    push_decimal(&mut out, 407);
    push_str(&mut out, "!");
    assert_eq!(out, chars("n=407!"));
}

#[test]
fn split_lines_agrees_with_the_lines_of_the_standard_library() {
    let cases = [
        "", "a", "a\n", "a\nb", "a\nb\n", "\n", "\n\n", "a\n\nb", "a\r\nb", "a\r\n", "a\r",
        "a\rb\n", "\r\n", "\r", "a\n\r", "a\r\r\nb", " \n ", "ü\nö",
    ];
    for s in cases {
        let expected: Vec<String> = s.lines().map(|l| l.to_string()).collect();
        assert_eq!(split_lines(&chars(s)), expected, "for {s:?}");
    }
}

#[test]
fn finding_and_copying() {
    let text = chars("a.b.c");
    assert_eq!(find_from(&text, 0, '.'), 1);
    assert_eq!(find_from(&text, 2, '.'), 3);
    assert_eq!(find_from(&text, 4, '.'), 5);
    assert_eq!(find_from(&text, 5, '.'), 5);
    assert_eq!(after_last(&text, 0, '.'), 4);
    assert_eq!(after_last(&text, 2, '.'), 2);
    assert_eq!(after_last(&text, 4, '.'), 0);
    assert_eq!(after_last(&text, 0, '/'), 0);
    assert_eq!(copy_range(&text, 1, 4), chars(".b."));
    assert_eq!(copy_range(&text, 3, 3), Vec::new());
}
