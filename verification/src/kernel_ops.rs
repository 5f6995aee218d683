//! The pure primitives: what each does to the operand stack.
//!
//! The primitives that move values about and those that look at shapes are
//! worked out here. Arithmetic on the elements is the work of the kernel; what
//! is decided here is which arrays go together, which of their elements meet,
//! and what shape comes out.

use vstd::prelude::*;
use vstd::string::*;
use crate::error::{Expected, RuntimeError};
use crate::kernel::Kernel;
use crate::number::{from_byte, from_whole, of_whole, HIDDEN_BIT};
use crate::ops::{broadcast_shape, broadcast_spec, compatible, numeric, widened};
use crate::pairing::{lemma_broadcast_stretches, stretch, stretched};
use crate::text::decimal_string;
use crate::value::{element_count, shape_product, Array, Buffer, BufferView, Value, ValueView};

verus! {

/// Whether a value is an array of numbers or bytes.
pub open spec fn is_numeric(value: ValueView) -> bool {
    value matches ValueView::Array(a) && (a.data is Num || a.data is Byte)
}

/// The shape of a value that is an array.
pub open spec fn shape_of(value: ValueView) -> Seq<usize> {
    value->Array_0.shape
}

/// Whether two numeric values go together in arithmetic: their shapes are
/// compatible, and the shape they broadcast to has no more elements than can
/// be held.
pub open spec fn pervade(a: ValueView, b: ValueView) -> bool {
    &&& is_numeric(a)
    &&& is_numeric(b)
    &&& compatible(shape_of(a), shape_of(b))
    &&& shape_product(pervaded_shape(a, b)) <= usize::MAX
}

/// The shape that arithmetic on two values gives: the one their shapes
/// broadcast to.
pub open spec fn pervaded_shape(a: ValueView, b: ValueView) -> Seq<usize> {
    broadcast_spec(shape_of(a), shape_of(b))
}

/// The numbers of a numeric value, bytes widened.
pub open spec fn numbers(value: ValueView) -> Seq<u64> {
    numeric(value->Array_0.data)->0
}

/// Whether a value is an array of numbers of the given shape.
pub open spec fn is_numbers_of(value: ValueView, shape: Seq<usize>) -> bool {
    value matches ValueView::Array(a) && a.data is Num && a.shape == shape && a.wf()
}

/// The numbers of an array of numbers or bytes.
fn numbers_of(array: &Array) -> (numbers: Option<Vec<u64>>)
    ensures
        match numbers {
            Some(n) => numeric(array@.data) == Some(n@),
            None => numeric(array@.data) is None,
        },
{
    match array.data() {
        Buffer::Num(n) => Some(n.clone()),
        Buffer::Byte(bytes) => {
            let mut out: Vec<u64> = Vec::new();
            let mut i: usize = 0;
            while i < bytes.len()
                invariant
                    i <= bytes.len(),
                    out@ == widened(bytes@.take(i as int)),
                decreases bytes.len() - i,
            {
                let ghost before = widened(bytes@.take(i as int));
                out.push(from_byte(bytes[i]));
                i += 1;
                assert(widened(bytes@.take(i as int)) == before.push(
                    crate::number::of_byte(bytes@[i - 1]),
                ));
            }
            assert(bytes@.take(bytes@.len() as int) == bytes@);
            Some(out)
        },
        _ => None,
    }
}

/// Which arithmetic is asked for.
#[derive(Clone, Copy, Debug, PartialEq, Eq, Structural)]
pub enum Arithmetic {
    Add,
    Sub,
    Mul,
    Div,
}

/// Has the kernel do the arithmetic that is asked for on two numbers: the
/// result is what the kernel's sum, difference, product or quotient of the
/// two gives, on a borrow that holds the kernel as it was and gives it back
/// as it is afterwards.
fn apply<K: Kernel>(op: Arithmetic, a: u64, b: u64, kernel: &mut K) -> (made: u64)
    ensures
        op == Arithmetic::Add ==> exists|inner: &mut K|
            mut_ref_current(inner) == *old(kernel) && mut_ref_future(inner) == *final(kernel)
                && #[trigger] call_ensures(K::add, (inner, a, b), made),
        op == Arithmetic::Sub ==> exists|inner: &mut K|
            mut_ref_current(inner) == *old(kernel) && mut_ref_future(inner) == *final(kernel)
                && #[trigger] call_ensures(K::sub, (inner, a, b), made),
        op == Arithmetic::Mul ==> exists|inner: &mut K|
            mut_ref_current(inner) == *old(kernel) && mut_ref_future(inner) == *final(kernel)
                && #[trigger] call_ensures(K::mul, (inner, a, b), made),
        op == Arithmetic::Div ==> exists|inner: &mut K|
            mut_ref_current(inner) == *old(kernel) && mut_ref_future(inner) == *final(kernel)
                && #[trigger] call_ensures(K::div, (inner, a, b), made),
{
    match op {
        Arithmetic::Add => kernel.add(a, b),
        Arithmetic::Sub => kernel.sub(a, b),
        Arithmetic::Mul => kernel.mul(a, b),
        Arithmetic::Div => kernel.div(a, b),
    }
}

/// What meets in arithmetic on two values: the shape of the result, and
/// for each of its places the element of the left and of the right value.
#[derive(Debug, PartialEq, Eq)]
pub struct Operands {
    pub shape: Vec<usize>,
    pub left: Vec<u64>,
    pub right: Vec<u64>,
}

/// Pairs the elements of two values for arithmetic, each value stretched
/// over the shape that the two broadcast to. Values that do not go together
/// are refused: what is no array of numbers with `TypeMismatch`, shapes that
/// are not compatible, or broadcast to more than can be held, with
/// `ShapeMismatch`.
pub fn operands(a: &Value, b: &Value) -> (paired: Result<Operands, RuntimeError>)
    ensures
        match paired {
            Ok(o) => {
                &&& pervade(a@, b@)
                &&& o.shape@ == pervaded_shape(a@, b@)
                &&& o.left@ == stretched(numbers(a@), shape_of(a@), o.shape@)
                &&& o.right@ == stretched(numbers(b@), shape_of(b@), o.shape@)
            },
            Err(e) => !pervade(a@, b@) && e == if is_numeric(a@) && is_numeric(b@) {
                RuntimeError::ShapeMismatch
            } else {
                RuntimeError::TypeMismatch(Expected::NumericContents)
            },
        },
{
    let (x, y) = match (a, b) {
        (Value::Array(x), Value::Array(y)) => (x, y),
        _ => {
            return Err(RuntimeError::TypeMismatch(Expected::NumericContents));
        },
    };
    let (xs, ys) = match (numbers_of(x), numbers_of(y)) {
        (Some(xs), Some(ys)) => (xs, ys),
        _ => {
            return Err(RuntimeError::TypeMismatch(Expected::NumericContents));
        },
    };
    let shape = match broadcast_shape(x.shape(), y.shape()) {
        Ok(shape) => shape,
        Err(_) => {
            return Err(RuntimeError::ShapeMismatch);
        },
    };
    let count = match element_count(&shape) {
        Some(count) => count,
        None => {
            return Err(RuntimeError::ShapeMismatch);
        },
    };
    proof {
        lemma_broadcast_stretches(x@.shape, y@.shape);
    }
    let left = stretch(&xs, x.shape(), &shape, count);
    let right = stretch(&ys, y.shape(), &shape, count);
    Ok(Operands { shape, left, right })
}

/// Arithmetic on two values, element by element, each value stretched over
/// the shape that the two broadcast to. Values that do not go together are
/// refused as by `operands`.
pub fn arithmetic<K: Kernel>(op: Arithmetic, a: &Value, b: &Value, kernel: &mut K) -> (made: Result<
    Value,
    RuntimeError,
>)
    ensures
        match made {
            Ok(v) => pervade(a@, b@) && is_numbers_of(v@, pervaded_shape(a@, b@)),
            Err(e) => !pervade(a@, b@) && e == if is_numeric(a@) && is_numeric(b@) {
                RuntimeError::ShapeMismatch
            } else {
                RuntimeError::TypeMismatch(Expected::NumericContents)
            },
        },
{
    let paired = operands(a, b)?;
    let n = paired.left.len();
    let mut out: Vec<u64> = Vec::new();
    let mut i: usize = 0;
    while i < n
        invariant
            i <= n,
            out@.len() == i,
            paired.left@.len() == n,
            paired.right@.len() == n,
        decreases n - i,
    {
        out.push(apply(op, paired.left[i], paired.right[i], kernel));
        i += 1;
    }
    match Array::new(paired.shape, Buffer::Num(out)) {
        Ok(r) => Ok(Value::Array(r)),
        Err(_) => Err(RuntimeError::ShapeMismatch),
    }
}

/// The negation of a value, element by element.
pub fn negate<K: Kernel>(a: &Value, kernel: &mut K) -> (made: Result<Value, RuntimeError>)
    ensures
        match made {
            Ok(v) => is_numeric(a@) && is_numbers_of(v@, shape_of(a@)),
            Err(e) => !is_numeric(a@) && e == RuntimeError::TypeMismatch(Expected::NumericContents),
        },
{
    let x = match a {
        Value::Array(x) => x,
        _ => {
            return Err(RuntimeError::TypeMismatch(Expected::NumericContents));
        },
    };
    let xs = match numbers_of(x) {
        Some(xs) => xs,
        None => {
            return Err(RuntimeError::TypeMismatch(Expected::NumericContents));
        },
    };
    let n = x.len();
    let mut out: Vec<u64> = Vec::new();
    let mut i: usize = 0;
    while i < n
        invariant
            i <= n,
            out@.len() == i,
            xs@.len() == n,
        decreases n - i,
    {
        out.push(kernel.neg(xs[i]));
        i += 1;
    }
    match Array::new(x.shape().clone(), Buffer::Num(out)) {
        Ok(r) => Ok(Value::Array(r)),
        Err(_) => Err(RuntimeError::ShapeMismatch),
    }
}

/// Whether a pattern is the number of a count: a count below two to the
/// fifty-third has exactly one pattern; the number of a larger count is
/// what the kernel reads from its decimal numeral.
pub open spec fn is_count(bits: u64, n: nat) -> bool {
    n < 2 * HIDDEN_BIT ==> bits == of_whole(n)
}

/// The numbers of an array of numbers.
pub open spec fn numbers_in(value: ValueView) -> Seq<u64> {
    value->Array_0.data->Num_0
}

/// The number of a count.
fn count_bits<K: Kernel>(n: usize, kernel: &mut K) -> (bits: u64)
    ensures
        is_count(bits, n as nat),
{
    let wide = n as u64;
    if wide < 2 * HIDDEN_BIT {
        from_whole(wide)
    } else {
        let text = decimal_string(wide);
        kernel.read(text.as_str())
    }
}

/// A count as a scalar number.
pub fn count_value<K: Kernel>(n: usize, kernel: &mut K) -> (made: Value)
    ensures
        is_numbers_of(made@, seq![]),
        is_count(numbers_in(made@)[0], n as nat),
{
    Value::Array(Array::number(count_bits(n, kernel)))
}

/// The shape of an array as a list of numbers.
pub fn shape_value<K: Kernel>(array: &Array, kernel: &mut K) -> (made: Value)
    ensures
        is_numbers_of(made@, seq![array@.rank() as usize]),
        forall|i: int|
            0 <= i < array@.rank() ==> is_count(
                #[trigger] numbers_in(made@)[i],
                array@.shape[i] as nat,
            ),
{
    let shape = array.shape();
    let mut out: Vec<u64> = Vec::new();
    let mut i: usize = 0;
    while i < shape.len()
        invariant
            i <= shape.len(),
            out@.len() == i,
            forall|j: int| 0 <= j < i ==> is_count(#[trigger] out@[j], shape@[j] as nat),
        decreases shape.len() - i,
    {
        out.push(count_bits(shape[i], kernel));
        i += 1;
    }
    Value::Array(Array::list(Buffer::Num(out)))
}

/// The elements of an array with its rows in reverse order: the row at the
/// place `i` is the row that stood at the place `rows - 1 - i`.
pub open spec fn reversed(data: BufferView, rows: nat, per: nat, done: nat) -> BufferView
    decreases done,
{
    if done == 0 {
        data.subrange(0, 0)
    } else {
        crate::ops::appended(
            reversed(data, rows, per, (done - 1) as nat),
            data.subrange((rows - done) * per, (rows - done + 1) * per),
        )
    }
}

/// The array with its rows in reverse order. A scalar is its own reverse.
pub fn reverse(array: &Array) -> (made: Array)
    ensures
        made@.wf(),
        made@.shape == array@.shape,
        array@.rank() == 0 ==> made@ == array@,
        array@.rank() > 0 ==> made@.data == reversed(
            array@.data,
            array@.shape[0] as nat,
            crate::ops::row_len(array@.shape),
            array@.shape[0] as nat,
        ),
{
    let shape = array.shape();
    if shape.len() == 0 {
        return array.clone();
    }
    let rows = shape[0];
    let total = array.len();
    let ghost per = crate::ops::row_len(shape@);
    proof {
        crate::ops::lemma_product_split(shape@, 1);
        crate::ops::lemma_product_one(shape@.take(1));
        assert(total == (rows as nat) * per);
    }
    if rows == 0 {
        proof {
            assert(total == 0) by (nonlinear_arith)
                requires
                    total == (rows as nat) * per,
                    rows == 0,
            ;
            match array@.data {
                BufferView::Num(s) => assert(s.subrange(0, 0) =~= s),
                BufferView::Byte(s) => assert(s.subrange(0, 0) =~= s),
                BufferView::Char(s) => assert(s.subrange(0, 0) =~= s),
                BufferView::Str(s) => assert(s.subrange(0, 0) =~= s),
            }
        }
        return array.clone();
    }
    let width = total / rows;
    proof {
        assert(width == per) by (nonlinear_arith)
            requires
                total == (rows as nat) * per,
                width == total / rows,
                rows > 0,
        ;
    }
    let mut out = array.data().slice(0, 0);
    let mut done: usize = 0;
    while done < rows
        invariant
            done <= rows,
            total == (rows as nat) * per,
            width == per,
            total == array@.data.len(),
            out@ == reversed(array@.data, rows as nat, per, done as nat),
            out@.kind() == array@.data.kind(),
            out@.len() == done * per,
        decreases rows - done,
    {
        let from_row = rows - done - 1;
        proof {
            assert(from_row * per + per <= rows * per) by (nonlinear_arith)
                requires
                    from_row < rows,
            ;
            assert((from_row + 1) * per == from_row * per + per) by (nonlinear_arith);
            assert((done + 1) * per == done * per + per) by (nonlinear_arith);
        }
        let piece = array.data().slice(from_row * width, from_row * width + width);
        out = match crate::ops::append(&out, &piece) {
            Some(both) => both,
            None => out,
        };
        done += 1;
    }
    proof {
        assert(out@.len() == total) by (nonlinear_arith)
            requires
                out@.len() == done * per,
                done == rows,
                total == (rows as nat) * per,
        ;
    }
    match Array::new(shape.clone(), out) {
        Ok(r) => r,
        Err(_) => array.clone(),
    }
}

} // verus!
