use uiua::error::{Expected, RuntimeError};
use uiua::kernel_ops::{operands, Operands};
use uiua::pairing::stretch;
use uiua::value::{Array, Buffer, Value};

fn bits(xs: &[f64]) -> Vec<u64> {
    xs.iter().map(|x| x.to_bits()).collect()
}

fn table(shape: &[usize], xs: &[f64]) -> Value {
    Value::Array(Array::new(shape.to_vec(), Buffer::Num(bits(xs))).unwrap())
}

#[test]
fn a_row_is_repeated_for_every_row_of_a_table() {
    let row = bits(&[1.0, 2.0, 3.0]);
    assert_eq!(
        stretch(&row, &vec![3], &vec![2, 3], 6),
        bits(&[1.0, 2.0, 3.0, 1.0, 2.0, 3.0])
    );
}

#[test]
fn a_column_is_repeated_along_every_row() {
    let column = bits(&[1.0, 2.0]);
    assert_eq!(
        stretch(&column, &vec![2, 1], &vec![2, 3], 6),
        bits(&[1.0, 1.0, 1.0, 2.0, 2.0, 2.0])
    );
}

#[test]
fn an_array_stretched_over_its_own_shape_is_itself() {
    let data = bits(&[1.0, 2.0, 3.0, 4.0, 5.0, 6.0]);
    assert_eq!(stretch(&data, &vec![2, 3], &vec![2, 3], 6), data);
    assert_eq!(stretch(&data, &vec![1, 2, 3], &vec![1, 2, 3], 6), data);
}

#[test]
fn a_scalar_goes_to_every_place() {
    assert_eq!(stretch(&bits(&[7.0]), &vec![], &vec![2, 2], 4), bits(&[7.0; 4]));
    assert_eq!(stretch(&bits(&[7.0]), &vec![], &vec![], 1), bits(&[7.0]));
    assert_eq!(stretch(&bits(&[7.0]), &vec![1], &vec![0], 0), bits(&[]));
}

#[test]
fn a_middle_axis_of_one_is_stretched() {
    let data = bits(&[1.0, 2.0, 3.0, 4.0]);
    assert_eq!(
        stretch(&data, &vec![2, 1, 2], &vec![2, 3, 2], 12),
        bits(&[1.0, 2.0, 1.0, 2.0, 1.0, 2.0, 3.0, 4.0, 3.0, 4.0, 3.0, 4.0])
    );
}

#[test]
fn a_column_meets_a_row_in_a_table() {
    let column = table(&[2, 1], &[10.0, 20.0]);
    let row = table(&[3], &[1.0, 2.0, 3.0]);
    assert_eq!(
        operands(&column, &row),
        Ok(Operands {
            shape: vec![2, 3],
            left: bits(&[10.0, 10.0, 10.0, 20.0, 20.0, 20.0]),
            right: bits(&[1.0, 2.0, 3.0, 1.0, 2.0, 3.0]),
        })
    );
}

#[test]
fn bytes_meet_numbers_as_numbers() {
    let bytes = Value::Array(Array::bytes(vec![1, 2]));
    let number = table(&[], &[0.5]);
    assert_eq!(
        operands(&bytes, &number),
        Ok(Operands { shape: vec![2], left: bits(&[1.0, 2.0]), right: bits(&[0.5, 0.5]) })
    );
}

#[test]
fn what_does_not_go_together_is_refused() {
    let two = table(&[2], &[1.0, 2.0]);
    let three = table(&[3], &[1.0, 2.0, 3.0]);
    let text = Value::Array(Array::string("ab"));
    assert_eq!(operands(&two, &three), Err(RuntimeError::ShapeMismatch));
    assert_eq!(operands(&two, &text), Err(RuntimeError::TypeMismatch(Expected::NumericContents)));
    assert_eq!(operands(&text, &two), Err(RuntimeError::TypeMismatch(Expected::NumericContents)));
}

#[test]
fn an_empty_axis_leaves_nothing_to_pair() {
    let big = usize::MAX / 2 + 1;
    let tall = Value::Array(Array::new(vec![big, 0, 1], Buffer::Num(vec![])).unwrap());
    let wide = Value::Array(Array::new(vec![1, 0, 4], Buffer::Num(vec![])).unwrap());
    assert_eq!(
        operands(&tall, &wide),
        Ok(Operands { shape: vec![big, 0, 4], left: vec![], right: vec![] })
    );
    let flat = Value::Array(Array::new(vec![3, 4], Buffer::Num(vec![0; 12])).unwrap());
    assert_eq!(operands(&tall, &flat), Err(RuntimeError::ShapeMismatch));
}
