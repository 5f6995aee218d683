use uiua::ast::{Arr, Func, Modified, Word};
use uiua::function::FunctionId;
use uiua::io::IoOp;
use uiua::lex::{CodeSpan, Loc, Sp};
use uiua::primitive::Primitive;

fn span() -> CodeSpan {
    let at = Loc { pos: 0, line: 1, col: 1 };
    CodeSpan { file: 0, start: at, end: at }
}

fn sp<T>(value: T) -> Sp<T> {
    Sp::new(value, span())
}

fn number(s: &str) -> Word {
    Word::Number(s.to_string(), s.parse::<f64>().unwrap().to_bits())
}

#[test]
fn literals_are_shown_as_debug_shows_them() {
    assert_eq!(number("1.5").debug_string(), "\"1.5\"");
    assert_eq!(Word::Char('a').debug_string(), "'a'");
    assert_eq!(Word::Char('\n').debug_string(), "'\\n'");
    assert_eq!(Word::Char('\'').debug_string(), "'\\''");
    assert_eq!(Word::String("hi \"you\"\n".to_string()).debug_string(), "\"hi \\\"you\\\"\\n\"");
    assert_eq!(Word::String(String::new()).debug_string(), "\"\"");
}

#[test]
fn format_strings_keep_their_parts() {
    let word = Word::FormatString(vec!["a ".to_string(), " b\t".to_string(), String::new()]);
    assert_eq!(word.debug_string(), "$\"a  b\\t\"");
    assert_eq!(Word::FormatString(Vec::new()).debug_string(), "$\"\"");
}

#[test]
fn multiline_strings_show_each_line_behind_a_dollar() {
    let word = Word::MultilineString(vec![
        sp(vec!["one".to_string(), "two".to_string()]),
        sp(vec!["\"three\"".to_string()]),
    ]);
    assert_eq!(word.debug_string(), "$ onetwo$ \\\"three\\\"");
    assert_eq!(Word::MultilineString(Vec::new()).debug_string(), "");
}

#[test]
fn names_comments_and_spaces() {
    assert_eq!(Word::Ident("foo".to_string()).debug_string(), "ident(foo)");
    assert_eq!(Word::Comment("note".to_string()).debug_string(), "# note");
    assert_eq!(Word::Spaces.debug_string(), "' '");
    assert_eq!(Word::Primitive(Primitive::Add).debug_string(), "add");
    assert_eq!(Word::Primitive(Primitive::Io(IoOp::Println)).debug_string(), "println");
}

#[test]
fn strands_and_oceans_are_lists() {
    let strand = Word::Strand(vec![sp(number("1")), sp(number("2")), sp(Word::Char('c'))]);
    assert_eq!(strand.debug_string(), "strand([\"1\", \"2\", 'c'])");
    assert_eq!(Word::Strand(Vec::new()).debug_string(), "strand([])");
    let ocean = Word::Ocean(vec![sp(Primitive::Dup), sp(Primitive::Flip)]);
    assert_eq!(ocean.debug_string(), "ocean([dup, flip])");
}

#[test]
fn arrays_show_the_words_of_all_their_lines() {
    let arr = Arr {
        lines: vec![vec![sp(number("1")), sp(Word::Spaces)], vec![], vec![sp(number("2"))]],
        constant: false,
    };
    assert_eq!(arr.debug_string(), "arr(\"1\", ' ', \"2\")");
    assert_eq!(Word::Array(arr).debug_string(), "arr(\"1\", ' ', \"2\")");
    let empty = Arr { lines: vec![vec![]], constant: true };
    assert_eq!(empty.debug_string(), "arr");
}

#[test]
fn functions_show_their_number_first() {
    let func = Func {
        id: FunctionId { line: 3, index: 12 },
        signature: None,
        lines: vec![vec![sp(Word::Primitive(Primitive::Add))], vec![sp(number("3"))]],
    };
    assert_eq!(func.debug_string(), "func(3:12, add, \"3\")");
    let empty = Func { id: FunctionId { line: 0, index: 0 }, signature: None, lines: Vec::new() };
    assert_eq!(Word::Func(empty).debug_string(), "func(0:0)");
}

#[test]
fn a_terminated_modifier_ends_in_a_bar() {
    let open = Modified {
        modifier: sp(Primitive::Reduce),
        operands: vec![sp(Word::Primitive(Primitive::Add))],
        terminated: false,
    };
    assert_eq!(open.debug_string(), "reduce(add)");
    let closed = Modified {
        modifier: sp(Primitive::Fork),
        operands: vec![sp(Word::Primitive(Primitive::Add)), sp(Word::Ident("f".to_string()))],
        terminated: true,
    };
    assert_eq!(closed.debug_string(), "fork(add)(ident(f))|");
    let bare = Modified { modifier: sp(Primitive::Each), operands: Vec::new(), terminated: true };
    assert_eq!(Word::Modified(Box::new(bare)).debug_string(), "each|");
}

#[test]
fn words_nest() {
    let inner = Word::Array(Arr { lines: vec![vec![sp(number("1"))]], constant: false });
    let func = Word::Func(Func {
        id: FunctionId { line: 0, index: 1 },
        signature: None,
        lines: vec![vec![sp(inner), sp(Word::Strand(vec![sp(Word::Char('x'))]))]],
    });
    let modified = Word::Modified(Box::new(Modified {
        modifier: sp(Primitive::Each),
        operands: vec![sp(func)],
        terminated: false,
    }));
    assert_eq!(modified.debug_string(), "each(func(0:1, arr(\"1\"), strand(['x'])))");
}

#[test]
fn primitives_declare_their_arities() {
    let table = [
        (Primitive::Dup, 1, Some(2), 0),
        (Primitive::Over, 2, Some(3), 0),
        (Primitive::Flip, 2, Some(2), 0),
        (Primitive::Pop, 1, Some(0), 0),
        (Primitive::Add, 2, Some(1), 0),
        (Primitive::Neg, 1, Some(1), 0),
        (Primitive::Join, 2, Some(1), 0),
        (Primitive::Reduce, 1, Some(1), 1),
        (Primitive::Each, 1, Some(1), 1),
        (Primitive::Fork, 1, Some(2), 2),
        (Primitive::Io(IoOp::FWriteStr), 2, Some(0), 0),
        (Primitive::Io(IoOp::Import), 1, None, 0),
    ];
    for (prim, args, outputs, modifier_args) in table {
        assert_eq!(prim.args(), args, "{prim:?}");
        assert_eq!(prim.outputs(), outputs, "{prim:?}");
        assert_eq!(prim.modifier_args(), modifier_args, "{prim:?}");
    }
}
