use uiua::ast::{Item, Word};
use uiua::function::FunctionId;
use uiua::io::IoOp;
use uiua::kernel::Kernel;
use uiua::parse::{parse, Fault, ParseError};
use uiua::primitive::Primitive;
use uiua::format::format_str;
use uiua::token::lex;

struct Floats;

impl Kernel for Floats {
    fn read(&mut self, literal: &str) -> u64 {
        literal.replace('\u{af}', "-").parse::<f64>().unwrap().to_bits()
    }
    fn text(&mut self, a: u64) -> String {
        f64::from_bits(a).to_string()
    }
    fn neg(&mut self, a: u64) -> u64 {
        (-f64::from_bits(a)).to_bits()
    }
    fn add(&mut self, a: u64, b: u64) -> u64 {
        (f64::from_bits(a) + f64::from_bits(b)).to_bits()
    }
    fn sub(&mut self, a: u64, b: u64) -> u64 {
        (f64::from_bits(a) - f64::from_bits(b)).to_bits()
    }
    fn mul(&mut self, a: u64, b: u64) -> u64 {
        (f64::from_bits(a) * f64::from_bits(b)).to_bits()
    }
    fn div(&mut self, a: u64, b: u64) -> u64 {
        (f64::from_bits(a) / f64::from_bits(b)).to_bits()
    }
}

fn items(text: &str) -> Vec<Item> {
    parse(&lex(text, 0).unwrap(), &mut Floats).unwrap()
}

fn fault(text: &str) -> (Fault, String) {
    let chars: Vec<char> = text.chars().collect();
    let ParseError { fault, span } = parse(&lex(text, 0).unwrap(), &mut Floats).unwrap_err();
    (fault, chars[span.start.pos..span.end.pos].iter().collect())
}

/// The words of a text of one line, each as it is shown.
fn shown(text: &str) -> Vec<String> {
    let mut all = items(text);
    assert_eq!(all.len(), 1);
    match all.remove(0) {
        Item::Words(words) => words.iter().map(|w| w.value.debug_string()).collect(),
        other => panic!("words, not {other:?}"),
    }
}

#[test]
fn atoms() {
    assert_eq!(shown("1 2.5 \u{af}3"), vec!["\"1\"", "\"2.5\"", "\"\u{af}3\""]);
    assert_eq!(shown("\"hi there\" \"\""), vec!["\"hi there\"", "\"\""]);
    assert_eq!(shown("foo Bar x1"), vec!["ident(foo)", "ident(Bar)", "ident(x1)"]);
    assert_eq!(shown("+ dup . println"), vec!["add", "dup", "dup", "println"]);
    assert_eq!(shown("1 # the rest [is a comment"), vec!["\"1\"", "#  the rest [is a comment"]);
    assert_eq!(shown(""), Vec::<String>::new());
}

#[test]
fn numbers_carry_their_value() {
    let all = items("1 2.5 \u{af}3");
    let Item::Words(words) = &all[0] else { panic!("words") };
    let values: Vec<f64> = words
        .iter()
        .map(|w| match &w.value {
            Word::Number(_, bits) => f64::from_bits(*bits),
            other => panic!("a number, not {other:?}"),
        })
        .collect();
    assert_eq!(values, vec![1.0, 2.5, -3.0]);
}

#[test]
fn brackets_nest() {
    assert_eq!(shown("[1 2 3]"), vec!["arr(\"1\", \"2\", \"3\")"]);
    assert_eq!(shown("[]"), vec!["arr"]);
    assert_eq!(shown("[1 [2 3] (4)]"), vec!["arr(\"1\", arr(\"2\", \"3\"), func(0:6, \"4\"))"]);
    assert_eq!(shown("(+ 1) x"), vec!["func(0:0, add, \"1\")", "ident(x)"]);
}

#[test]
fn functions_are_known_by_where_they_open() {
    let all = items("(1)\n  x (2)");
    let ids: Vec<FunctionId> = all
        .iter()
        .flat_map(|item| match item {
            Item::Words(words) => words.iter(),
            other => panic!("words, not {other:?}"),
        })
        .filter_map(|w| match &w.value {
            Word::Func(f) => Some(f.id),
            _ => None,
        })
        .collect();
    assert_eq!(ids, vec![FunctionId { line: 0, index: 0 }, FunctionId { line: 1, index: 1 }]);
}

#[test]
fn underscores_make_strands() {
    assert_eq!(shown("1_2_3"), vec!["strand([\"1\", \"2\", \"3\"])"]);
    assert_eq!(shown("1 _ 2 x"), vec!["strand([\"1\", \"2\"])", "ident(x)"]);
    assert_eq!(shown("[1]_\"a\""), vec!["strand([arr(\"1\"), \"a\"])"]);
}

#[test]
fn modifiers_take_their_operands() {
    assert_eq!(shown("reduce add [1 2]"), vec!["reduce(add)", "arr(\"1\", \"2\")"]);
    assert_eq!(shown("/ + x"), vec!["reduce(add)", "ident(x)"]);
    assert_eq!(shown("/+ x"), vec!["ident(/+)", "ident(x)"]);
    assert_eq!(shown("fork dup (pop 1) 3"), vec!["fork(dup)(func(0:2, pop, \"1\"))", "\"3\""]);
    assert_eq!(shown("each reduce add"), vec!["each(reduce(add))"]);
}

#[test]
fn a_bar_terminates_a_modifier() {
    assert_eq!(shown("fork dup | 3"), vec!["fork(dup)|", "\"3\""]);
    assert_eq!(shown("reduce | x"), vec!["reduce|", "ident(x)"]);
    assert_eq!(shown("fork |"), vec!["fork|"]);
}

#[test]
fn bindings() {
    let all = items("x = 1 2\ny \u{2190} +\n= 3");
    assert_eq!(all.len(), 3);
    match &all[0] {
        Item::Binding(b) => {
            assert_eq!(b.name.value, "x");
            assert_eq!(b.words.len(), 2);
            assert!(b.signature.is_none());
        }
        other => panic!("a binding, not {other:?}"),
    }
    match &all[1] {
        Item::Binding(b) => {
            assert_eq!(b.name.value, "y");
            assert_eq!(b.words[0].value.debug_string(), "add");
        }
        other => panic!("a binding, not {other:?}"),
    }
    assert!(matches!(&all[2], Item::Words(w) if w.len() == 2));
    assert!(matches!(&items("1 = 2")[0], Item::Words(w) if w.len() == 3));
    assert!(matches!(&items("dup = 2")[0], Item::Words(w) if w.len() == 3));
    assert!(matches!(&items("x =")[0], Item::Binding(b) if b.words.is_empty()));
}

#[test]
fn blocks() {
    let all = items("a\n---\nb\nc\n---\n~~~\nd\n~~~\ne");
    assert_eq!(all.len(), 4);
    assert!(matches!(&all[0], Item::Words(_)));
    assert!(matches!(&all[1], Item::Scoped { items, test: false } if items.len() == 2));
    assert!(matches!(&all[2], Item::Scoped { items, test: true } if items.len() == 1));
    assert!(matches!(&all[3], Item::Words(_)));
    assert!(matches!(&items("---\n---")[0], Item::Scoped { items, test: false } if items.is_empty()));
}

#[test]
fn faults_point_at_their_token() {
    assert_eq!(fault("1 ] 2"), (Fault::Unexpected, "]".to_string()));
    assert_eq!(fault("{"), (Fault::Unexpected, "{".to_string()));
    assert_eq!(fault("x | y"), (Fault::Unexpected, "|".to_string()));
    assert_eq!(fault("_1"), (Fault::Unexpected, "_".to_string()));
    assert_eq!(fault("1 [2 (3"), (Fault::Unclosed, "(".to_string()));
    assert_eq!(fault("1 [2 (3)"), (Fault::Unclosed, "[".to_string()));
    assert_eq!(fault("[1 )"), (Fault::Unexpected, ")".to_string()));
    assert_eq!(fault("1 reduce"), (Fault::MissingOperand, "reduce".to_string()));
    assert_eq!(fault("[fork dup]"), (Fault::MissingOperand, "fork".to_string()));
    assert_eq!(fault("each reduce"), (Fault::MissingOperand, "reduce".to_string()));
    assert_eq!(fault("1_"), (Fault::Dangling, "_".to_string()));
    assert_eq!(fault("[1_]"), (Fault::Dangling, "_".to_string()));
    assert_eq!(fault("1__2"), (Fault::Dangling, "_".to_string()));
    assert_eq!(fault("12ab"), (Fault::InvalidNumber, "12ab".to_string()));
    assert_eq!(fault("1."), (Fault::InvalidNumber, "1.".to_string()));
    assert_eq!(fault("1.2.3"), (Fault::InvalidNumber, "1.2.3".to_string()));
    assert_eq!(fault("a\n---\nb"), (Fault::Unclosed, "---".to_string()));
    assert_eq!(fault("---\n~~~\n---"), (Fault::Unexpected, "~~~".to_string()));
    assert_eq!(fault("a\n  b ]"), (Fault::Unexpected, "]".to_string()));
}

#[test]
fn formatting_changes_nothing_of_what_is_read() {
    let samples = [
        "1   +   2",
        "x   =  [1_2   (dup  add)]   # note",
        "~~~\n  fork  dup  |  \"a  b\"\n~~~\n\n\n/ +[1 2 3]",
        "println   \"hello\"",
    ];
    for s in samples {
        let formatted = format_str(s).unwrap();
        let a: Vec<String> = items(s).iter().map(|i| strip(i)).collect();
        let b: Vec<String> = items(&formatted).iter().map(|i| strip(i)).collect();
        assert_eq!(a, b, "for {s:?}");
    }
    assert!(format_str("1   ]").is_err());
}

/// An item as it is shown, without its spans.
fn strip(item: &Item) -> String {
    match item {
        Item::Words(words) => {
            words.iter().map(|w| w.value.debug_string()).collect::<Vec<_>>().join(" ")
        }
        Item::Binding(b) => format!(
            "{} = {}",
            b.name.value,
            b.words.iter().map(|w| w.value.debug_string()).collect::<Vec<_>>().join(" ")
        ),
        Item::Scoped { items, test } => {
            format!("{test}{{{}}}", items.iter().map(strip).collect::<Vec<_>>().join("; "))
        }
        Item::ExtraNewlines(_) => String::new(),
    }
}

#[test]
fn primitives_are_found_by_name_and_glyph() {
    let table = [
        ("dup", Primitive::Dup),
        (".", Primitive::Dup),
        (",", Primitive::Over),
        (":", Primitive::Flip),
        (";", Primitive::Pop),
        ("+", Primitive::Add),
        ("-", Primitive::Sub),
        ("*", Primitive::Mul),
        ("\u{d7}", Primitive::Mul),
        ("\u{f7}", Primitive::Div),
        ("\u{af}", Primitive::Neg),
        ("/", Primitive::Reduce),
        ("\u{2235}", Primitive::Each),
        ("\u{2283}", Primitive::Fork),
        ("\u{21cc}", Primitive::Reverse),
        ("\u{29fb}", Primitive::Len),
        ("\u{25b3}", Primitive::Shape),
        ("\u{2282}", Primitive::Join),
        ("show", Primitive::Io(IoOp::Show)),
        ("imread", Primitive::Io(IoOp::ImRead)),
    ];
    for (name, prim) in table {
        assert_eq!(Primitive::from_name(name), Some(prim), "{name}");
    }
    for prim in [Primitive::Dup, Primitive::Fork, Primitive::Join, Primitive::Io(IoOp::Now)] {
        assert_eq!(Primitive::from_name(prim.name()), Some(prim));
    }
    assert_eq!(Primitive::from_name("nothing"), None);
    assert_eq!(Primitive::from_name(""), None);
}

fn cols(span: &uiua::lex::CodeSpan) -> (usize, usize, usize) {
    (span.start.line, span.start.col, span.end.col)
}

#[test]
fn every_word_carries_the_span_of_its_tokens() {
    let found = items("\n[1_2 (dup)] x\ny = fork neg | 3");
    let words = match &found[1] {
        Item::Words(words) => words,
        other => panic!("{other:?}"),
    };
    assert_eq!(cols(&words[0].span), (1, 0, 11));
    assert_eq!(cols(&words[1].span), (1, 12, 13));
    let inner = match &words[0].value {
        Word::Array(arr) => &arr.lines[0],
        other => panic!("{other:?}"),
    };
    assert_eq!(cols(&inner[0].span), (1, 1, 4));
    assert_eq!(cols(&inner[1].span), (1, 5, 10));
    match &inner[0].value {
        Word::Strand(atoms) => {
            assert_eq!(cols(&atoms[0].span), (1, 1, 2));
            assert_eq!(cols(&atoms[1].span), (1, 3, 4));
        }
        other => panic!("{other:?}"),
    }
    match &inner[1].value {
        Word::Func(func) => assert_eq!(cols(&func.lines[0][0].span), (1, 6, 9)),
        other => panic!("{other:?}"),
    }
    let binding = match &found[2] {
        Item::Binding(binding) => binding,
        other => panic!("{other:?}"),
    };
    assert_eq!(cols(&binding.name.span), (2, 0, 1));
    assert_eq!(cols(&binding.words[0].span), (2, 4, 14));
    assert_eq!(cols(&binding.words[1].span), (2, 15, 16));
    match &binding.words[0].value {
        Word::Modified(modified) => {
            assert_eq!(cols(&modified.modifier.span), (2, 4, 8));
            assert_eq!(cols(&modified.operands[0].span), (2, 9, 12));
        }
        other => panic!("{other:?}"),
    }
}
