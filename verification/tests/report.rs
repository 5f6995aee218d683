use uiua::driver::RunMode;
use uiua::error::RuntimeError;
use uiua::kernel::Kernel;
use uiua::backend::IoBackend;
use uiua::lex::{CodeSpan, Loc};
use uiua::machine::{load_str, Machine, UiuaError};
use uiua::parse::{Fault, ParseError};
use uiua::report::{fault_message, report};
use uiua::token::LexError;

fn at(pos: usize, line: usize, col: usize) -> Loc {
    Loc { pos, line, col }
}

#[test]
fn a_fault_is_shown_under_its_line() {
    let span = CodeSpan { file: 0, start: at(6, 1, 2), end: at(7, 1, 3) };
    let error = UiuaError::Parse(ParseError { fault: Fault::Unexpected, span });
    assert_eq!(
        report(&error, "main.ua", "1 2\n3 ) 4\n5"),
        "Error: Unexpected token\n  at main.ua:2:3\n3 ) 4\n  ^"
    );
}

#[test]
fn a_fault_in_the_first_column_has_the_caret_there() {
    let error = UiuaError::Format(LexError::UnterminatedString(at(0, 0, 0)));
    assert_eq!(
        report(&error, "a.ua", "\"abc"),
        "Error: Unclosed string\n  at a.ua:1:1\n\"abc\n^"
    );
}

#[test]
fn a_place_outside_the_text_is_named_without_a_line() {
    let span = CodeSpan { file: 0, start: at(90, 7, 4), end: at(91, 7, 5) };
    let error = UiuaError::Parse(ParseError { fault: Fault::Unclosed, span });
    assert_eq!(report(&error, "x.ua", "[1 2"), "Error: Unclosed bracket\n  at x.ua:8:5");
    let far = CodeSpan { file: 0, start: at(0, usize::MAX, usize::MAX), end: at(0, 0, 0) };
    let error = UiuaError::Parse(ParseError { fault: Fault::Dangling, span: far });
    let one_more = (usize::MAX as u128 + 1).to_string();
    assert_eq!(
        report(&error, "x.ua", ""),
        format!("Error: Nothing follows the underscore\n  at x.ua:{one_more}:{one_more}")
    );
}

#[test]
fn a_failure_of_the_program_has_no_place() {
    let error = UiuaError::Runtime(RuntimeError::ShapeMismatch);
    assert_eq!(report(&error, "main.ua", "1 2 +"), "Error: Shapes do not match");
    let error = UiuaError::Runtime(RuntimeError::StackUnderflow(2));
    assert_eq!(
        report(&error, "main.ua", "1 +"),
        "Error: Stack was empty when evaluating argument 2"
    );
}

#[test]
fn every_fault_has_a_name() {
    assert_eq!(fault_message(Fault::Unexpected), "Unexpected token");
    assert_eq!(fault_message(Fault::Unclosed), "Unclosed bracket");
    assert_eq!(fault_message(Fault::MissingOperand), "Modifier without its functions");
    assert_eq!(fault_message(Fault::InvalidNumber), "Invalid number");
    assert_eq!(fault_message(Fault::Dangling), "Nothing follows the underscore");
}

struct Silent;

impl IoBackend for Silent {
    fn print_str(&mut self, _s: &str) {}
    fn rand(&mut self) -> u64 {
        0
    }
}

struct Zero;

impl Kernel for Zero {
    fn read(&mut self, _literal: &str) -> u64 {
        0
    }
    fn text(&mut self, _a: u64) -> String {
        String::new()
    }
    fn neg(&mut self, a: u64) -> u64 {
        a
    }
    fn add(&mut self, a: u64, _b: u64) -> u64 {
        a
    }
    fn sub(&mut self, a: u64, _b: u64) -> u64 {
        a
    }
    fn mul(&mut self, a: u64, _b: u64) -> u64 {
        a
    }
    fn div(&mut self, a: u64, _b: u64) -> u64 {
        a
    }
}

#[test]
fn the_errors_of_a_text_are_reported_where_they_lie() {
    let text = "1 2\n3 \"abc";
    let mut machine = Machine::new();
    let error =
        load_str(&mut machine, text, RunMode::Normal, &mut Silent, &mut Zero, 1000).unwrap_err();
    assert_eq!(
        report(&error, "main.ua", text),
        "Error: Unclosed string\n  at main.ua:2:3\n3 \"abc\n  ^"
    );
    let text = "1 2\n  [3 4";
    let error =
        load_str(&mut machine, text, RunMode::Normal, &mut Silent, &mut Zero, 1000).unwrap_err();
    assert_eq!(
        report(&error, "main.ua", text),
        "Error: Unclosed bracket\n  at main.ua:2:3\n  [3 4\n  ^"
    );
}

#[test]
fn an_undefined_name_is_reported_where_it_stands() {
    let text = "x = 1\nx y +";
    let mut machine = Machine::new();
    let error =
        load_str(&mut machine, text, RunMode::Normal, &mut Silent, &mut Zero, 1000).unwrap_err();
    assert_eq!(
        report(&error, "main.ua", text),
        "Error: Unknown identifier `y`\n  at main.ua:2:3\nx y +\n  ^"
    );
}

#[test]
fn counts_are_numbers_without_the_kernel() {
    let mut machine = Machine::new();
    let text = "\"abc\" len\n\"abcd\" shape";
    load_str(&mut machine, text, RunMode::Normal, &mut Silent, &mut Zero, 1000).unwrap();
    let stack = machine.env.take_stack();
    assert_eq!(
        stack,
        vec![
            uiua::value::Value::Array(uiua::value::Array::number(3f64.to_bits())),
            uiua::value::Value::Array(uiua::value::Array::list(uiua::value::Buffer::Num(vec![
                4f64.to_bits()
            ]))),
        ]
    );
}
