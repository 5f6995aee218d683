use uiua::update::{notice, older, parse_number, parse_version, quoted, update_message};

fn number(s: &str) -> Option<u16> {
    let chars: Vec<char> = s.chars().collect();
    parse_number(&chars, 0, chars.len())
}

#[test]
fn parse_number_agrees_with_the_standard_parser() {
    let cases = [
        "", "0", "7", "007", "65535", "65536", "99999999999999999999", "+", "+5", "++5", "-5",
        "-0", "5+", "1a", "a", " 1", "1 ", "六", "١٢",
    ];
    for s in cases {
        assert_eq!(number(s), s.parse::<u16>().ok(), "for {s:?}");
    }
    for n in 0..70000u32 {
        let s = n.to_string();
        assert_eq!(number(&s), s.parse::<u16>().ok());
    }
}

#[test]
fn parse_number_takes_a_part_of_the_text() {
    let chars: Vec<char> = "10.204.3".chars().collect();
    assert_eq!(parse_number(&chars, 3, 6), Some(204));
    assert_eq!(parse_number(&chars, 2, 6), None);
    assert_eq!(parse_number(&chars, 3, 3), None);
}

#[test]
fn parse_version_splits_at_dots() {
    assert_eq!(parse_version("0.0.25"), Some(vec![0, 0, 25]));
    assert_eq!(parse_version("1"), Some(vec![1]));
    assert_eq!(parse_version("1.2.3.4"), Some(vec![1, 2, 3, 4]));
    assert_eq!(parse_version(""), None);
    assert_eq!(parse_version("1..2"), None);
    assert_eq!(parse_version("1.2."), None);
    assert_eq!(parse_version(".1"), None);
    assert_eq!(parse_version("1.2-rc1"), None);
    assert_eq!(parse_version("1.70000"), None);
}

#[test]
fn quoted_takes_what_stands_between_the_first_two_quotes() {
    assert_eq!(quoted("uiua = \"0.0.25\"    # A stack language").as_deref(), Some("0.0.25"));
    assert_eq!(quoted("no quotes"), None);
    assert_eq!(quoted("").as_deref(), None);
    assert_eq!(quoted("one \"quote").as_deref(), Some("quote"));
    assert_eq!(quoted("\"\"").as_deref(), Some(""));
    assert_eq!(quoted("a\"b\"c\"d\"").as_deref(), Some("b"));
    for s in ["x\"y\"z", "\"", "ab", "\"a", "a\"", "\"\"\""] {
        assert_eq!(quoted(s).as_deref(), s.split('"').nth(1));
    }
}

#[test]
fn older_is_the_order_of_the_dictionary() {
    let cases: Vec<(Vec<u16>, Vec<u16>)> = vec![
        (vec![], vec![]),
        (vec![], vec![0]),
        (vec![0], vec![]),
        (vec![0, 0, 25], vec![0, 0, 26]),
        (vec![0, 0, 26], vec![0, 0, 25]),
        (vec![0, 1], vec![0, 0, 99]),
        (vec![0, 0], vec![0, 0, 0]),
        (vec![1, 2, 3], vec![1, 2, 3]),
        (vec![2], vec![10]),
    ];
    for (a, b) in cases {
        assert_eq!(older(&a, &b), a < b, "for {a:?} and {b:?}");
    }
}

#[test]
fn notice_names_both_versions() {
    assert_eq!(
        notice("0.0.25", "0.0.26", false),
        "Update available: 0.0.25 \u{2192} 0.0.26\nRun `cargo install uiua ` to update\nChangelog: https://github.com/uiua-lang/uiua/blob/main/changelog.md"
    );
    assert_eq!(
        notice("1.0.0", "1.1.0", true),
        "Update available: 1.0.0 \u{2192} 1.1.0\nRun `cargo install uiua  --features audio` to update\nChangelog: https://github.com/uiua-lang/uiua/blob/main/changelog.md"
    );
}

#[test]
fn update_message_only_for_a_newer_version() {
    let answer = "uiua = \"0.0.26\"    # A stack-oriented array programming language\n";
    assert!(update_message("0.0.25", answer, false).unwrap().starts_with("Update available: 0.0.25"));
    assert_eq!(update_message("0.0.26", answer, false), None);
    assert_eq!(update_message("0.0.27", answer, false), None);
    assert_eq!(update_message("0.0.25", "", false), None);
    assert_eq!(update_message("0.0.25", "uiua = \"next\"", false), None);
    assert_eq!(update_message("dev", answer, false), None);
}
