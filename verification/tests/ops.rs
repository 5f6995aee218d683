use uiua::ops::{
    append, broadcast_shape, equals, join, join_along, numbers_equal, row, row_count, to_numbers,
};
use uiua::value::{Array, ArrayError, Buffer};

fn nums(xs: &[f64]) -> Buffer {
    Buffer::Num(xs.iter().map(|x| x.to_bits()).collect())
}

#[test]
fn rows_are_slices_along_the_first_axis() {
    let a = Array::new(vec![2, 3], Buffer::Byte(vec![1, 2, 3, 4, 5, 6])).unwrap();
    assert_eq!(row_count(&a), 2);
    assert_eq!(row(&a, 0), Ok(Array::bytes(vec![1, 2, 3])));
    assert_eq!(row(&a, 1), Ok(Array::bytes(vec![4, 5, 6])));
    assert_eq!(row(&a, 2), Err(ArrayError::IndexOutOfRange));
    let list = Array::string("abc");
    assert_eq!(row(&list, 1), Ok(Array::character('b')));
    assert_eq!(row(&list, 3), Err(ArrayError::IndexOutOfRange));
    let cube = Array::new(vec![2, 2, 2], Buffer::Byte((0..8).collect())).unwrap();
    assert_eq!(row(&cube, 1), Array::new(vec![2, 2], Buffer::Byte(vec![4, 5, 6, 7])));
}

#[test]
fn a_scalar_has_no_rows() {
    let s = Array::byte(1);
    assert_eq!(row(&s, 0), Err(ArrayError::RankTooLow));
    assert_eq!(row_count(&s), 1);
    let empty = Array::new(vec![0, 3], Buffer::Byte(vec![])).unwrap();
    assert_eq!(row(&empty, 0), Err(ArrayError::IndexOutOfRange));
    assert_eq!(row_count(&empty), 0);
    let thin = Array::new(vec![3, 0], Buffer::Byte(vec![])).unwrap();
    assert_eq!(row(&thin, 2), Ok(Array::bytes(vec![])));
}

#[test]
fn joining_puts_the_rows_of_the_second_after_those_of_the_first() {
    let a = Array::new(vec![1, 2], Buffer::Byte(vec![1, 2])).unwrap();
    let b = Array::new(vec![2, 2], Buffer::Byte(vec![3, 4, 5, 6])).unwrap();
    assert_eq!(join(&a, &b), Array::new(vec![3, 2], Buffer::Byte(vec![1, 2, 3, 4, 5, 6])));
    assert_eq!(join(&Array::string("ab"), &Array::string("c")), Ok(Array::string("abc")));
    assert_eq!(join(&Array::string(""), &Array::string("")), Ok(Array::string("")));
    let strings = Array::strings(vec!["x".to_string()]);
    assert_eq!(
        join(&strings, &strings),
        Ok(Array::strings(vec!["x".to_string(), "x".to_string()]))
    );
    assert_eq!(
        join(&Array::list(nums(&[1.0])), &Array::list(nums(&[2.0, 3.0]))),
        Ok(Array::list(nums(&[1.0, 2.0, 3.0])))
    );
}

#[test]
fn joining_refuses_what_does_not_fit() {
    let a = Array::new(vec![1, 2], Buffer::Byte(vec![1, 2])).unwrap();
    let b = Array::new(vec![1, 3], Buffer::Byte(vec![1, 2, 3])).unwrap();
    assert_eq!(join(&a, &b), Err(ArrayError::ShapeMismatch));
    assert_eq!(join(&a, &Array::bytes(vec![1, 2])), Err(ArrayError::ShapeMismatch));
    assert_eq!(join(&Array::byte(1), &Array::bytes(vec![1])), Err(ArrayError::RankTooLow));
    assert_eq!(join(&Array::bytes(vec![1]), &Array::byte(1)), Err(ArrayError::RankTooLow));
    assert_eq!(join(&Array::string("a"), &Array::bytes(vec![1])), Err(ArrayError::TypeMismatch));
    assert_eq!(join(&Array::character('a'), &Array::byte(1)), Err(ArrayError::TypeMismatch));
    assert_eq!(append(&Buffer::Byte(vec![1]), &nums(&[1.0])), None);
    assert_eq!(append(&Buffer::Byte(vec![1]), &Buffer::Byte(vec![2])), Some(Buffer::Byte(vec![1, 2])));
}

#[test]
fn bytes_widen_to_numbers() {
    let a = Array::new(vec![2, 2], Buffer::Byte(vec![0, 1, 128, 255])).unwrap();
    assert_eq!(to_numbers(&a), Array::new(vec![2, 2], nums(&[0.0, 1.0, 128.0, 255.0])));
    let n = Array::list(nums(&[1.5]));
    assert_eq!(to_numbers(&n), Ok(n.clone()));
    assert_eq!(to_numbers(&Array::string("1")), Err(ArrayError::TypeMismatch));
    assert_eq!(to_numbers(&Array::strings(Vec::new())), Err(ArrayError::TypeMismatch));
}

#[test]
fn numbers_are_equal_as_floats_are() {
    let samples = [
        0.0, -0.0, 1.0, -1.0, 1.5, f64::NAN, -f64::NAN, f64::INFINITY, f64::NEG_INFINITY,
        f64::MIN_POSITIVE, f64::MAX, 255.0,
    ];
    for a in samples {
        for b in samples {
            assert_eq!(numbers_equal(a.to_bits(), b.to_bits()), a == b, "{a} and {b}");
        }
    }
}

#[test]
fn arrays_are_equal_by_shape_and_elements() {
    let a = Array::new(vec![2, 2], Buffer::Byte(vec![1, 2, 3, 4])).unwrap();
    assert!(equals(&a, &a.clone()));
    assert!(!equals(&a, &a.reshape(vec![4]).unwrap()));
    assert!(!equals(&a, &a.reshape(vec![1, 4]).unwrap()));
    assert!(!equals(&a, &Array::new(vec![2, 2], Buffer::Byte(vec![1, 2, 3, 5])).unwrap()));
    assert!(equals(&a, &to_numbers(&a).unwrap()));
    assert!(equals(&to_numbers(&a).unwrap(), &a));
    assert!(equals(&Array::list(nums(&[0.0])), &Array::list(nums(&[-0.0]))));
    assert!(!equals(&Array::list(nums(&[f64::NAN])), &Array::list(nums(&[f64::NAN]))));
    assert!(equals(&Array::string("ab"), &Array::string("ab")));
    assert!(!equals(&Array::string("ab"), &Array::string("ac")));
    assert!(!equals(&Array::string("a"), &Array::bytes(vec![97])));
    assert!(!equals(&Array::bytes(vec![97]), &Array::string("a")));
    let s = Array::strings(vec!["a".to_string(), "b".to_string()]);
    assert!(equals(&s, &s.clone()));
    assert!(!equals(&s, &Array::strings(vec!["a".to_string(), "c".to_string()])));
    assert!(!equals(&s, &Array::string("ab")));
    assert!(equals(&Array::strings(Vec::new()), &Array::strings(Vec::new())));
}

#[test]
fn shapes_broadcast_by_padding_with_ones() {
    let ok = |a: &[usize], b: &[usize], c: &[usize]| {
        assert_eq!(broadcast_shape(&a.to_vec(), &b.to_vec()), Ok(c.to_vec()), "{a:?} {b:?}");
        assert_eq!(broadcast_shape(&b.to_vec(), &a.to_vec()), Ok(c.to_vec()), "{b:?} {a:?}");
    };
    ok(&[], &[], &[]);
    ok(&[3], &[], &[3]);
    ok(&[3], &[3], &[3]);
    ok(&[3], &[1], &[3]);
    ok(&[2, 3], &[3], &[2, 3]);
    ok(&[2, 3], &[1, 3], &[2, 3]);
    ok(&[2, 1], &[1, 3], &[2, 3]);
    ok(&[4, 2, 3], &[2, 1], &[4, 2, 3]);
    ok(&[0], &[1], &[0]);
    ok(&[1, 1], &[5], &[1, 5]);
    let no = |a: &[usize], b: &[usize]| {
        assert_eq!(broadcast_shape(&a.to_vec(), &b.to_vec()), Err(ArrayError::ShapeMismatch));
        assert_eq!(broadcast_shape(&b.to_vec(), &a.to_vec()), Err(ArrayError::ShapeMismatch));
    };
    no(&[2], &[3]);
    no(&[2, 3], &[2]);
    no(&[2, 3], &[3, 3]);
    no(&[0], &[2]);
    no(&[4, 2, 3], &[4, 3]);
}

fn bytes_of(shape: &[usize], data: &[u8]) -> Array {
    Array::new(shape.to_vec(), Buffer::Byte(data.to_vec())).unwrap()
}

#[test]
fn joining_along_an_axis_weaves_the_blocks_of_both() {
    let a = bytes_of(&[2, 2], &[1, 2, 3, 4]);
    let b = bytes_of(&[2, 1], &[9, 8]);
    assert_eq!(join_along(&a, &b, 1), Ok(bytes_of(&[2, 3], &[1, 2, 9, 3, 4, 8])));
    assert_eq!(join_along(&b, &a, 1), Ok(bytes_of(&[2, 3], &[9, 1, 2, 8, 3, 4])));
    let cube = bytes_of(&[2, 1, 2], &[1, 2, 3, 4]);
    let more = bytes_of(&[2, 2, 2], &[10, 11, 12, 13, 14, 15, 16, 17]);
    assert_eq!(
        join_along(&cube, &more, 1),
        Ok(bytes_of(&[2, 3, 2], &[1, 2, 10, 11, 12, 13, 3, 4, 14, 15, 16, 17]))
    );
    let text = Array::new(vec![2, 1], Buffer::Char(vec!['a', 'c'])).unwrap();
    let tail = Array::new(vec![2, 1], Buffer::Char(vec!['b', 'd'])).unwrap();
    assert_eq!(
        join_along(&text, &tail, 1),
        Array::new(vec![2, 2], Buffer::Char(vec!['a', 'b', 'c', 'd']))
    );
}

#[test]
fn joining_along_the_first_axis_is_joining() {
    let a = bytes_of(&[1, 2], &[1, 2]);
    let b = bytes_of(&[2, 2], &[3, 4, 5, 6]);
    assert_eq!(join_along(&a, &b, 0), join(&a, &b));
    assert_eq!(join_along(&a, &b, 0), Ok(bytes_of(&[3, 2], &[1, 2, 3, 4, 5, 6])));
    let names = Array::strings(vec!["x".to_string()]);
    assert_eq!(join_along(&names, &names, 0), join(&names, &names));
}

#[test]
fn joining_along_an_axis_of_nothing() {
    let none = bytes_of(&[2, 0], &[]);
    let some = bytes_of(&[2, 3], &[1, 2, 3, 4, 5, 6]);
    assert_eq!(join_along(&none, &some, 1), Ok(bytes_of(&[2, 3], &[1, 2, 3, 4, 5, 6])));
    assert_eq!(join_along(&some, &none, 1), Ok(bytes_of(&[2, 3], &[1, 2, 3, 4, 5, 6])));
    let left = bytes_of(&[0, 2], &[]);
    let right = bytes_of(&[0, 3], &[]);
    assert_eq!(join_along(&left, &right, 1), Ok(bytes_of(&[0, 5], &[])));
    let big = usize::MAX / 2 + 1;
    let tall = bytes_of(&[big, big, 0], &[]);
    assert_eq!(join_along(&tall, &tall, 2), Ok(bytes_of(&[big, big, 0], &[])));
    assert_eq!(join_along(&tall, &tall, 0), Err(ArrayError::ShapeMismatch));
}

#[test]
fn joining_along_an_axis_refuses_what_does_not_fit() {
    let a = bytes_of(&[2, 2], &[1, 2, 3, 4]);
    let b = bytes_of(&[3, 1], &[1, 2, 3]);
    assert_eq!(join_along(&a, &b, 1), Err(ArrayError::ShapeMismatch));
    assert_eq!(join_along(&a, &b, 0), Err(ArrayError::ShapeMismatch));
    assert_eq!(join_along(&a, &a, 2), Err(ArrayError::RankTooLow));
    assert_eq!(join_along(&a, &Array::bytes(vec![1, 2]), 1), Err(ArrayError::RankTooLow));
    assert_eq!(join_along(&a, &Array::bytes(vec![1, 2]), 0), Err(ArrayError::ShapeMismatch));
    let numbers = Array::new(vec![2, 2], nums(&[1.0, 2.0, 3.0, 4.0])).unwrap();
    assert_eq!(join_along(&a, &numbers, 1), Err(ArrayError::TypeMismatch));
    assert_eq!(join_along(&a, &numbers, 5), Err(ArrayError::TypeMismatch));
}
