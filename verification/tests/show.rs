use uiua::kernel::Kernel;
use uiua::function::FunctionId;
use uiua::show::{array_text, lay_out, value_text};
use uiua::value::{Array, Buffer, Value};

struct Plain;

impl Kernel for Plain {
    fn read(&mut self, literal: &str) -> u64 {
        literal.replace('\u{af}', "-").parse::<f64>().unwrap().to_bits()
    }
    fn text(&mut self, a: u64) -> String {
        f64::from_bits(a).to_string()
    }
    fn neg(&mut self, a: u64) -> u64 {
        (-f64::from_bits(a)).to_bits()
    }
    fn add(&mut self, a: u64, b: u64) -> u64 {
        (f64::from_bits(a) + f64::from_bits(b)).to_bits()
    }
    fn sub(&mut self, a: u64, b: u64) -> u64 {
        (f64::from_bits(a) - f64::from_bits(b)).to_bits()
    }
    fn mul(&mut self, a: u64, b: u64) -> u64 {
        (f64::from_bits(a) * f64::from_bits(b)).to_bits()
    }
    fn div(&mut self, a: u64, b: u64) -> u64 {
        (f64::from_bits(a) / f64::from_bits(b)).to_bits()
    }
}

fn strings(items: &[&str]) -> Vec<String> {
    items.iter().map(|s| s.to_string()).collect()
}

#[test]
fn lay_out_breaks_the_line_where_a_row_is_full() {
    let cells = strings(&["a", "b", "c", "d", "e", "f"]);
    assert_eq!(lay_out(&cells, " ", 0), "a b c d e f");
    assert_eq!(lay_out(&cells, " ", 3), "a b c\nd e f");
    assert_eq!(lay_out(&cells, " ", 2), "a b\nc d\ne f");
    assert_eq!(lay_out(&cells, "", 4), "abcd\nef");
    assert_eq!(lay_out(&cells, ", ", 1), "a\nb\nc\nd\ne\nf");
    assert_eq!(lay_out(&Vec::new(), " ", 3), "");
    assert_eq!(lay_out(&strings(&["only"]), " ", 5), "only");
}

#[test]
fn strings_are_shown_as_they_are() {
    assert_eq!(array_text(&Array::string("hello"), &mut Plain, false), "hello");
    assert_eq!(array_text(&Array::string("hello"), &mut Plain, true), "hello");
    assert_eq!(array_text(&Array::string(""), &mut Plain, true), "");
    assert_eq!(array_text(&Array::character('x'), &mut Plain, true), "x");
}

#[test]
fn numbers_and_bytes_are_parted_by_spaces() {
    let numbers = Array::list(Buffer::Num(vec![
        1f64.to_bits(),
        2.5f64.to_bits(),
        (-3f64).to_bits(),
    ]));
    assert_eq!(array_text(&numbers, &mut Plain, false), "1 2.5 -3");
    assert_eq!(array_text(&Array::bytes(vec![0, 7, 255]), &mut Plain, true), "0 7 255");
    assert_eq!(array_text(&Array::number(3f64.to_bits()), &mut Plain, true), "3");
}

#[test]
fn a_grid_has_a_line_for_each_row() {
    let table = Array::new(vec![2, 3], Buffer::Byte(vec![1, 2, 3, 4, 5, 6])).unwrap();
    assert_eq!(array_text(&table, &mut Plain, true), "1 2 3\n4 5 6");
    assert_eq!(array_text(&table, &mut Plain, false), "1 2 3 4 5 6");
    let cube = Array::new(vec![2, 2, 2], Buffer::Byte((1..=8).collect())).unwrap();
    assert_eq!(array_text(&cube, &mut Plain, true), "1 2\n3 4\n5 6\n7 8");
    let text = Array::new(vec![2, 2], Buffer::Char(vec!['a', 'b', 'c', 'd'])).unwrap();
    assert_eq!(array_text(&text, &mut Plain, true), "ab\ncd");
    assert_eq!(array_text(&text, &mut Plain, false), "abcd");
}

#[test]
fn lists_of_strings_show_their_strings() {
    let list = Array::strings(strings(&["one", "two"]));
    assert_eq!(array_text(&list, &mut Plain, false), "one two");
}

#[test]
fn a_function_is_shown_as_such() {
    assert_eq!(value_text(&Value::Func(FunctionId { line: 0, index: 4 }), &mut Plain, true), "function");
    assert_eq!(value_text(&Value::Array(Array::string("s")), &mut Plain, false), "s");
}
