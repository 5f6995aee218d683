use uiua::lex::{Loc, Sp};
use uiua::format::format_str;
use uiua::machine::UiuaError;
use uiua::parse::Fault;
use uiua::token::{lex, write_lines, LexError};

fn texts(lines: &[Vec<Sp<String>>]) -> Vec<Vec<String>> {
    lines.iter().map(|l| l.iter().map(|t| t.value.clone()).collect()).collect()
}

fn tokens(text: &str) -> Vec<Vec<String>> {
    texts(&lex(text, 0).unwrap())
}

fn line(items: &[&str]) -> Vec<String> {
    items.iter().map(|s| s.to_string()).collect()
}

#[test]
fn words_are_parted_by_blank_space() {
    assert_eq!(tokens("1 2 +"), vec![line(&["1", "2", "+"])]);
    assert_eq!(tokens("  1\t2\r"), vec![line(&["1", "2"])]);
    assert_eq!(tokens(""), vec![line(&[])]);
    assert_eq!(tokens("   "), vec![line(&[])]);
    assert_eq!(tokens("añb ×"), vec![line(&["añb", "×"])]);
}

#[test]
fn marks_are_tokens_by_themselves() {
    assert_eq!(tokens("[1 2]"), vec![line(&["[", "1", "2", "]"])]);
    assert_eq!(tokens("1_2_3"), vec![line(&["1", "_", "2", "_", "3"])]);
    assert_eq!(tokens("(a|b){}"), vec![line(&["(", "a", "|", "b", ")", "{", "}"])]);
}

#[test]
fn strings_run_from_quote_to_quote() {
    assert_eq!(tokens("\"a  b\" c"), vec![line(&["\"a  b\"", "c"])]);
    assert_eq!(tokens("x\"y\"z"), vec![line(&["x", "\"y\"", "z"])]);
    assert_eq!(tokens("\"\""), vec![line(&["\"\""])]);
    assert_eq!(tokens("\"# no comment [\""), vec![line(&["\"# no comment [\""])]);
}

#[test]
fn comments_run_to_the_end_of_the_line() {
    assert_eq!(tokens("1 # one \"two  \nthree"), vec![line(&["1", "# one \"two  "]), line(&["three"])]);
    assert_eq!(tokens("#"), vec![line(&["#"])]);
    assert_eq!(tokens("a#b"), vec![line(&["a", "#b"])]);
}

#[test]
fn every_line_feed_begins_a_line() {
    assert_eq!(tokens("a\nb"), vec![line(&["a"]), line(&["b"])]);
    assert_eq!(tokens("a\n"), vec![line(&["a"]), line(&[])]);
    assert_eq!(tokens("\n\na"), vec![line(&[]), line(&[]), line(&["a"])]);
    assert_eq!(tokens("a\r\nb"), vec![line(&["a"]), line(&["b"])]);
}

#[test]
fn a_string_must_be_closed_on_its_line() {
    assert_eq!(
        lex("ab \"cd", 0),
        Err(LexError::UnterminatedString(Loc { pos: 3, line: 0, col: 3 }))
    );
    assert_eq!(
        lex("\"ok\"\n \"open\nclosed\"", 0),
        Err(LexError::UnterminatedString(Loc { pos: 6, line: 1, col: 1 }))
    );
    assert_eq!(
        format_str("\""),
        Err(UiuaError::Format(LexError::UnterminatedString(Loc { pos: 0, line: 0, col: 0 })))
    );
}

#[test]
fn tokens_carry_their_spans() {
    let text = "ab  \"c d\"\n  [x";
    let lines = lex(text, 7).unwrap();
    let chars: Vec<char> = text.chars().collect();
    for (n, l) in lines.iter().enumerate() {
        for t in l {
            assert_eq!(t.span.file, 7);
            assert_eq!(t.span.start.line, n);
            assert_eq!(t.span.end.line, n);
            let covered: String = chars[t.span.start.pos..t.span.end.pos].iter().collect();
            assert_eq!(covered, t.value);
            assert_eq!(t.span.end.col - t.span.start.col, t.value.chars().count());
        }
    }
    assert_eq!(lines[0][1].span.start, Loc { pos: 4, line: 0, col: 4 });
    assert_eq!(lines[1][0].span.start, Loc { pos: 12, line: 1, col: 2 });
    assert_eq!(lines[1][1].span.end, Loc { pos: 14, line: 1, col: 4 });
}

#[test]
fn formatting_parts_tokens_by_single_spaces() {
    assert_eq!(format_str("1   +   2").unwrap(), "1 + 2");
    assert_eq!(format_str("  [1 2\t3]  ").unwrap(), "[ 1 2 3 ]");
    assert_eq!(format_str("a\n\n  b  # note  ").unwrap(), "a\n\nb # note  ");
    assert_eq!(format_str("\"keep   this\"   x").unwrap(), "\"keep   this\" x");
    assert_eq!(format_str("").unwrap(), "");
    assert_eq!(format_str("a\r\nb\n").unwrap(), "a\nb\n");
}

#[test]
fn formatting_is_idempotent_and_keeps_the_tokens() {
    let samples = [
        "1   +   2",
        "",
        "\n",
        "  \n  \n",
        "x = [1_2 (dup  add)] # tail  \n\n\"s  t\"  y",
        "a#b\n#\n\"\"\"\"",
        "\t[\t]\t",
        "fork add | 1_2_3",
        "¯1 × ÷ \"ünï\"",
    ];
    for s in samples {
        let once = format_str(s).unwrap();
        assert_eq!(format_str(&once).unwrap(), once, "for {s:?}");
        assert_eq!(tokens(&once), tokens(s), "for {s:?}");
        assert_eq!(write_lines(&lex(&once, 0).unwrap()), once);
    }
}

#[test]
fn a_text_that_is_no_program_is_not_formatted() {
    for (text, fault) in [
        ("]", Fault::Unexpected),
        ("1   ]", Fault::Unexpected),
        ("[1 2", Fault::Unclosed),
        ("x = (dup", Fault::Unclosed),
        ("1_", Fault::Dangling),
    ] {
        match format_str(text) {
            Err(UiuaError::Parse(e)) => assert_eq!(e.fault, fault, "for {text:?}"),
            other => panic!("{other:?} for {text:?}"),
        }
    }
}
