use uiua::value::{element_count, Array, ArrayError, Buffer, ElementKind, Value};

fn product_of(a: &Array) -> usize {
    a.shape().iter().product()
}

#[test]
fn element_count_is_the_product_of_the_shape() {
    assert_eq!(element_count(&vec![]), Some(1));
    assert_eq!(element_count(&vec![3]), Some(3));
    assert_eq!(element_count(&vec![2, 3, 4]), Some(24));
    assert_eq!(element_count(&vec![5, 0, 7]), Some(0));
    assert_eq!(element_count(&vec![usize::MAX, 2]), None);
    assert_eq!(element_count(&vec![usize::MAX, 2, 0]), Some(0));
    assert_eq!(element_count(&vec![usize::MAX, 1]), Some(usize::MAX));
}

#[test]
fn an_array_needs_as_many_elements_as_its_shape_says() {
    assert!(Array::new(vec![2, 3], Buffer::Byte(vec![0; 6])).is_ok());
    assert_eq!(Array::new(vec![2, 3], Buffer::Byte(vec![0; 5])), Err(ArrayError::ShapeMismatch));
    assert_eq!(Array::new(vec![], Buffer::Byte(vec![])), Err(ArrayError::ShapeMismatch));
    assert!(Array::new(vec![], Buffer::Byte(vec![1])).is_ok());
    assert!(Array::new(vec![0, 9], Buffer::Num(vec![])).is_ok());
    assert_eq!(
        Array::new(vec![usize::MAX, 2], Buffer::Byte(vec![0; 2])),
        Err(ArrayError::ShapeMismatch)
    );
}

#[test]
fn every_array_keeps_the_shape_invariant() {
    let arrays = vec![
        Array::number(1f64.to_bits()),
        Array::byte(3),
        Array::character('c'),
        Array::boolean(true),
        Array::string("hello"),
        Array::string(""),
        Array::bytes(vec![1, 2, 3]),
        Array::strings(vec!["a".to_string(), "b".to_string()]),
        Array::list(Buffer::Num(vec![0; 4])),
        Array::new(vec![2, 0, 3], Buffer::Char(vec![])).unwrap(),
        Array::new(vec![2, 2], Buffer::Byte(vec![1, 2, 3, 4])).unwrap().reshape(vec![4, 1]).unwrap(),
    ];
    for a in &arrays {
        assert_eq!(product_of(a), a.len(), "{a:?}");
        assert_eq!(a.data().len(), a.len());
        assert_eq!(a.rank(), a.shape().len());
        let copy = a.clone();
        assert_eq!(&copy, a);
        assert_eq!(product_of(&copy), copy.len());
    }
}

#[test]
fn scalars_have_rank_zero() {
    let a = Array::number(2.5f64.to_bits());
    assert_eq!(a.rank(), 0);
    assert_eq!(a.len(), 1);
    assert_eq!(a.kind(), ElementKind::Num);
    assert_eq!(Array::boolean(true).data(), &Buffer::Byte(vec![1]));
    assert_eq!(Array::boolean(false).data(), &Buffer::Byte(vec![0]));
    assert_eq!(Array::character('x').kind(), ElementKind::Char);
}

#[test]
fn lists_have_rank_one() {
    let s = Array::string("héllo");
    assert_eq!(s.shape(), &vec![5]);
    assert!(s.is_chars());
    assert_eq!(s.data(), &Buffer::Char("héllo".chars().collect()));
    assert_eq!(Array::bytes(vec![1, 2]).shape(), &vec![2]);
    assert_eq!(Array::strings(Vec::new()).shape(), &vec![0]);
    assert_eq!(Array::strings(Vec::new()).kind(), ElementKind::Str);
}

#[test]
fn reshape_keeps_the_elements() {
    let a = Array::bytes(vec![1, 2, 3, 4, 5, 6]);
    let b = a.reshape(vec![2, 3]).unwrap();
    assert_eq!(b.shape(), &vec![2, 3]);
    assert_eq!(b.data(), a.data());
    assert_eq!(a.reshape(vec![4, 2]), Err(ArrayError::ShapeMismatch));
    assert_eq!(a.reshape(vec![]), Err(ArrayError::ShapeMismatch));
    assert!(a.reshape(vec![6, 1, 1]).is_ok());
}

#[test]
fn slices_of_a_buffer() {
    let b = Buffer::Char("abcdef".chars().collect());
    assert_eq!(b.slice(1, 4), Buffer::Char(vec!['b', 'c', 'd']));
    assert_eq!(b.slice(2, 2), Buffer::Char(vec![]));
    assert_eq!(b.duplicate(), b);
    let s = Buffer::Str(vec!["x".to_string(), "y".to_string()]);
    assert_eq!(s.slice(1, 2), Buffer::Str(vec!["y".to_string()]));
    assert_eq!(Buffer::Num(vec![1, 2, 3]).slice(0, 2), Buffer::Num(vec![1, 2]));
    assert_eq!(Buffer::Byte(vec![1, 2, 3]).slice(2, 3), Buffer::Byte(vec![3]));
}

#[test]
fn values_are_arrays_or_functions() {
    let v = Value::Array(Array::string("s"));
    assert!(v.is_array());
    assert_eq!(v.as_chars(), Some(&vec!['s']));
    assert_eq!(v.duplicate(), v);
    let f = Value::Func(uiua::function::FunctionId { line: 0, index: 1 });
    assert!(!f.is_array());
    assert_eq!(f.as_chars(), None);
    assert_eq!(f.duplicate(), f);
    assert_eq!(Value::Array(Array::bytes(vec![1])).as_chars(), None);
}
