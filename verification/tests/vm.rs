use uiua::error::RuntimeError;
use uiua::function::Signature;
use uiua::value::{Array, Value};
use uiua::vm::Env;

fn n(x: f64) -> Value {
    Value::Array(Array::number(x.to_bits()))
}

#[test]
fn the_stack_gives_back_what_was_pushed_last() {
    let mut env = Env::new();
    assert_eq!(env.height(), 0);
    env.push(n(1.0));
    env.push(n(2.0));
    assert_eq!(env.height(), 2);
    assert_eq!(env.pop(1), Ok(n(2.0)));
    assert_eq!(env.pop(2), Ok(n(1.0)));
    assert_eq!(env.pop(3), Err(RuntimeError::StackUnderflow(3)));
    assert_eq!(env.height(), 0);
}

#[test]
fn take_stack_hands_out_everything_bottom_first() {
    let mut env = Env::new();
    env.push(n(1.0));
    env.push(n(2.0));
    assert_eq!(env.take_stack(), vec![n(1.0), n(2.0)]);
    assert_eq!(env.height(), 0);
    assert_eq!(env.take_stack(), Vec::new());
}

#[test]
fn a_frame_without_signature_may_leave_any_stack() {
    let mut env = Env::new();
    env.enter(7, None, None);
    env.push(n(1.0));
    env.push(n(1.0));
    assert_eq!(env.exit(), Ok(7));
    assert!(env.frames.is_empty());
}

#[test]
fn a_frame_must_change_the_height_by_outputs_less_args() {
    // Two values in, one out: the stack is one lower at exit.
    let mut env = Env::new();
    env.push(n(1.0));
    env.push(n(2.0));
    env.enter(3, Some(Signature::new(2, 1)), None);
    env.pop(1).unwrap();
    env.pop(2).unwrap();
    env.push(n(3.0));
    assert_eq!(env.exit(), Ok(3));
    assert_eq!(env.height(), 1);
}

#[test]
fn a_frame_that_breaks_its_signature_is_a_mismatch() {
    let mut env = Env::new();
    env.push(n(1.0));
    env.push(n(2.0));
    let sig = Signature::new(2, 1);
    env.enter(3, Some(sig), None);
    env.pop(1).unwrap();
    env.pop(2).unwrap();
    assert_eq!(env.exit(), Err(RuntimeError::SignatureMismatch(sig, 2, 0)));
    assert!(env.frames.is_empty());
    assert_eq!(env.height(), 0);
    env.enter(4, Some(Signature::new(0, 0)), None);
    env.push(n(0.0));
    let err = env.exit().unwrap_err();
    assert_eq!(
        err.message(),
        "Function signature is |0.0 but the stack height went from 0 to 1"
    );
}

#[test]
fn frames_nest() {
    let mut env = Env::new();
    env.enter(1, Some(Signature::new(0, 2)), None);
    env.push(n(1.0));
    env.enter(2, Some(Signature::new(1, 2)), None);
    env.push(n(2.0));
    assert_eq!(env.exit(), Ok(2));
    assert_eq!(env.exit(), Ok(1));
}

#[test]
fn signatures_admit_exactly_their_delta() {
    let sig = Signature::new(2, 1);
    assert!(sig.admits(5, 4));
    assert!(!sig.admits(5, 5));
    assert!(!sig.admits(5, 3));
    assert!(Signature::new(0, 3).admits(0, 3));
    assert!(Signature::new(3, 0).admits(3, 0));
    assert!(!Signature::new(3, 0).admits(2, 0));
    assert!(Signature::new(usize::MAX, 0).admits(usize::MAX, 0));
    assert!(!Signature::new(usize::MAX, 1).admits(0, usize::MAX));
}
