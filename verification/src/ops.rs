//! Operations on arrays that need no arithmetic on their elements: rows,
//! joining along an axis, widening bytes to numbers, equality, and the shape
//! that two shapes broadcast to.

use vstd::prelude::*;
use crate::number::{from_byte, is_nan, of_byte};
use crate::value::{
    element_count,
    shape_product,
    strings_view,
    Array,
    ArrayError,
    ArrayView,
    Buffer,
    BufferView,
};

verus! {

/// The product of a shape is the product of any front part of it times the
/// product of what follows.
pub proof fn lemma_product_split(shape: Seq<usize>, k: int)
    requires
        0 <= k <= shape.len(),
    ensures
        shape_product(shape) == shape_product(shape.take(k)) * shape_product(shape.skip(k)),
    decreases shape.len(),
{
    if k == shape.len() {
        assert(shape.take(k) == shape);
        assert(shape.skip(k) == Seq::<usize>::empty());
        assert(shape_product(shape) * 1 == shape_product(shape));
    } else {
        let front = shape.drop_last();
        lemma_product_split(front, k);
        assert(front.take(k) == shape.take(k));
        assert(front.skip(k) == shape.skip(k).drop_last());
        assert(shape.skip(k).last() == shape.last());
        let a = shape_product(shape.take(k));
        let b = shape_product(front.skip(k));
        let c = shape.last() as nat;
        assert((a * b) * c == a * (b * c)) by (nonlinear_arith);
    }
}

/// The product of a shape of one dimension is that dimension.
pub proof fn lemma_product_one(shape: Seq<usize>)
    requires
        shape.len() == 1,
    ensures
        shape_product(shape) == shape[0],
{
    assert(shape.drop_last() == Seq::<usize>::empty());
    assert(shape_product(shape.drop_last()) == 1);
    assert(1 * (shape[0] as nat) == shape[0] as nat);
}

/// The number of elements in one row of an array of the given shape: the
/// product of all dimensions but the first.
pub open spec fn row_len(shape: Seq<usize>) -> nat {
    shape_product(shape.skip(1))
}

/// The row of the given index: the part of the array at that index of its
/// first axis.
pub open spec fn row_spec(array: ArrayView, index: int) -> ArrayView {
    ArrayView {
        shape: array.shape.skip(1),
        data: array.data.subrange(
            index * row_len(array.shape),
            (index + 1) * row_len(array.shape),
        ),
    }
}

/// A copy of the dimensions from `from` on.
fn tail_of(shape: &Vec<usize>, from: usize) -> (tail: Vec<usize>)
    requires
        from <= shape.len(),
    ensures
        tail@ == shape@.skip(from as int),
{
    let mut tail: Vec<usize> = Vec::new();
    let mut i: usize = from;
    while i < shape.len()
        invariant
            from <= i <= shape.len(),
            tail@ == shape@.subrange(from as int, i as int),
        decreases shape.len() - i,
    {
        tail.push(shape[i]);
        i += 1;
    }
    assert(shape@.subrange(from as int, shape@.len() as int) == shape@.skip(from as int));
    tail
}

/// The row of the given index. An array of rank zero has no rows:
/// `RankTooLow`. An index at or beyond the first dimension is
/// `IndexOutOfRange`.
pub fn row(array: &Array, index: usize) -> (made: Result<Array, ArrayError>)
    ensures
        match made {
            Ok(r) => array@.rank() > 0 && index < array@.shape[0] && r@ == row_spec(
                array@,
                index as int,
            ) && r@.wf(),
            Err(e) => if array@.rank() == 0 {
                e == ArrayError::RankTooLow
            } else {
                e == ArrayError::IndexOutOfRange && index >= array@.shape[0]
            },
        },
{
    let shape = array.shape();
    if shape.len() == 0 {
        return Err(ArrayError::RankTooLow);
    }
    let rows = shape[0];
    if index >= rows {
        return Err(ArrayError::IndexOutOfRange);
    }
    let rest = tail_of(shape, 1);
    let total = array.len();
    proof {
        lemma_product_split(shape@, 1);
        lemma_product_one(shape@.take(1));
        let per = shape_product(rest@);
        assert(total == (rows as nat) * per);
        assert(per <= (rows as nat) * per) by (nonlinear_arith)
            requires
                rows >= 1,
        ;
        assert((index as nat) * per + per <= (rows as nat) * per) by (nonlinear_arith)
            requires
                index < rows,
        ;
        assert((index + 1) * per == (index as nat) * per + per) by (nonlinear_arith);
    }
    let per = match element_count(&rest) {
        Some(n) => n,
        None => {
            return Err(ArrayError::IndexOutOfRange);
        },
    };
    let from = index * per;
    let data = array.data().slice(from, from + per);
    match Array::new(rest, data) {
        Ok(r) => Ok(r),
        Err(_) => Err(ArrayError::IndexOutOfRange),
    }
}

/// The number of rows: the first dimension, and one for a scalar.
pub fn row_count(array: &Array) -> (n: usize)
    ensures
        n == if array@.rank() == 0 {
            1
        } else {
            array@.shape[0]
        },
{
    let shape = array.shape();
    if shape.len() == 0 {
        1
    } else {
        shape[0]
    }
}

/// The elements of one buffer followed by those of another of the same
/// kind.
pub open spec fn appended(a: BufferView, b: BufferView) -> BufferView {
    match (a, b) {
        (BufferView::Num(x), BufferView::Num(y)) => BufferView::Num(x + y),
        (BufferView::Byte(x), BufferView::Byte(y)) => BufferView::Byte(x + y),
        (BufferView::Char(x), BufferView::Char(y)) => BufferView::Char(x + y),
        (BufferView::Str(x), BufferView::Str(y)) => BufferView::Str(x + y),
        _ => a,
    }
}

/// The elements of one buffer followed by those of another; `None` where
/// the two are not of the same kind.
pub fn append(a: &Buffer, b: &Buffer) -> (both: Option<Buffer>)
    ensures
        match both {
            Some(c) => a@.kind() == b@.kind() && c@ == appended(a@, b@),
            None => a@.kind() != b@.kind(),
        },
{
    match (a, b) {
        (Buffer::Num(x), Buffer::Num(y)) => {
            let mut out = x.clone();
            let mut i: usize = 0;
            while i < y.len()
                invariant
                    i <= y.len(),
                    out@ == x@ + y@.take(i as int),
                decreases y.len() - i,
            {
                assert(y@.take(i + 1) == y@.take(i as int).push(y@[i as int]));
                out.push(y[i]);
                i += 1;
            }
            assert(y@.take(y@.len() as int) == y@);
            Some(Buffer::Num(out))
        },
        (Buffer::Byte(x), Buffer::Byte(y)) => {
            let mut out = x.clone();
            let mut i: usize = 0;
            while i < y.len()
                invariant
                    i <= y.len(),
                    out@ == x@ + y@.take(i as int),
                decreases y.len() - i,
            {
                assert(y@.take(i + 1) == y@.take(i as int).push(y@[i as int]));
                out.push(y[i]);
                i += 1;
            }
            assert(y@.take(y@.len() as int) == y@);
            Some(Buffer::Byte(out))
        },
        (Buffer::Char(x), Buffer::Char(y)) => {
            let mut out = x.clone();
            let mut i: usize = 0;
            while i < y.len()
                invariant
                    i <= y.len(),
                    out@ == x@ + y@.take(i as int),
                decreases y.len() - i,
            {
                assert(y@.take(i + 1) == y@.take(i as int).push(y@[i as int]));
                out.push(y[i]);
                i += 1;
            }
            assert(y@.take(y@.len() as int) == y@);
            Some(Buffer::Char(out))
        },
        (Buffer::Str(_), Buffer::Str(y)) => {
            let mut out = match a.duplicate() {
                Buffer::Str(copy) => copy,
                _ => Vec::new(),
            };
            let ghost first = strings_view(out@);
            let mut i: usize = 0;
            while i < y.len()
                invariant
                    i <= y.len(),
                    strings_view(out@) == first + strings_view(y@).take(i as int),
                decreases y.len() - i,
            {
                let copy = y[i].clone();
                proof {
                    let before = strings_view(out@);
                    assert(strings_view(out@.push(copy)) == before.push(copy@));
                    assert(strings_view(y@).take(i + 1) == strings_view(y@).take(i as int).push(
                        y@[i as int]@,
                    ));
                }
                out.push(copy);
                i += 1;
            }
            assert(strings_view(y@).take(y@.len() as int) == strings_view(y@));
            Some(Buffer::Str(out))
        },
        _ => None,
    }
}

/// Whether two arrays can be joined along their first axis: their elements
/// are of one kind, both have a first axis, their other dimensions agree and
/// the rows of both can be counted together.
pub open spec fn joinable(a: ArrayView, b: ArrayView) -> bool {
    &&& a.data.kind() == b.data.kind()
    &&& a.rank() > 0
    &&& b.rank() > 0
    &&& a.shape.skip(1) == b.shape.skip(1)
    &&& a.shape[0] + b.shape[0] <= usize::MAX
}

/// Two arrays joined along their first axis: the rows of the first, then
/// the rows of the second.
pub open spec fn joined(a: ArrayView, b: ArrayView) -> ArrayView {
    ArrayView {
        shape: seq![(a.shape[0] + b.shape[0]) as usize] + a.shape.skip(1),
        data: appended(a.data, b.data),
    }
}

/// Two arrays joined along their first axis. Elements of different kinds are
/// a `TypeMismatch`; a scalar has no first axis: `RankTooLow`; rows of
/// different shapes, or more rows than can be counted, are a
/// `ShapeMismatch`.
pub fn join(a: &Array, b: &Array) -> (made: Result<Array, ArrayError>)
    ensures
        match made {
            Ok(r) => joinable(a@, b@) && r@ == joined(a@, b@) && r@.wf(),
            Err(e) => !joinable(a@, b@) && e == if a@.data.kind() != b@.data.kind() {
                ArrayError::TypeMismatch
            } else if a@.rank() == 0 || b@.rank() == 0 {
                ArrayError::RankTooLow
            } else {
                ArrayError::ShapeMismatch
            },
        },
{
    let data = match append(a.data(), b.data()) {
        Some(d) => d,
        None => {
            return Err(ArrayError::TypeMismatch);
        },
    };
    let (sa, sb) = (a.shape(), b.shape());
    if sa.len() == 0 || sb.len() == 0 {
        return Err(ArrayError::RankTooLow);
    }
    let rest = tail_of(sa, 1);
    let other = tail_of(sb, 1);
    if !same_dims(&rest, &other) {
        return Err(ArrayError::ShapeMismatch);
    }
    let rows = match sa[0].checked_add(sb[0]) {
        Some(n) => n,
        None => {
            return Err(ArrayError::ShapeMismatch);
        },
    };
    let mut shape: Vec<usize> = Vec::new();
    shape.push(rows);
    let mut i: usize = 0;
    while i < rest.len()
        invariant
            i <= rest.len(),
            shape@ == seq![rows] + rest@.take(i as int),
        decreases rest.len() - i,
    {
        assert(rest@.take(i + 1) == rest@.take(i as int).push(rest@[i as int]));
        shape.push(rest[i]);
        i += 1;
    }
    proof {
        assert(rest@.take(rest@.len() as int) == rest@);
        let per = shape_product(rest@);
        lemma_product_split(sa@, 1);
        lemma_product_one(sa@.take(1));
        lemma_product_split(sb@, 1);
        lemma_product_one(sb@.take(1));
        lemma_product_split(shape@, 1);
        lemma_product_one(shape@.take(1));
        assert(shape@.skip(1) == rest@);
        assert(shape@.take(1)[0] == rows);
        let (x, y) = (sa@[0] as nat, sb@[0] as nat);
        assert((x + y) * per == x * per + y * per) by (nonlinear_arith);
        assert(data@.len() == a@.data.len() + b@.data.len());
    }
    match Array::new(shape, data) {
        Ok(r) => Ok(r),
        Err(_) => Err(ArrayError::ShapeMismatch),
    }
}

/// A buffer with a copy of the elements of `other` from `from` up to `to` put
/// at its end.
fn extended(acc: Buffer, other: &Buffer, from: usize, to: usize) -> (out: Buffer)
    requires
        acc@.kind() == other@.kind(),
        from <= to <= other@.len(),
    ensures
        out@ == appended(acc@, other@.subrange(from as int, to as int)),
{
    match (acc, other) {
        (Buffer::Num(mut out), Buffer::Num(y)) => {
            let ghost first = out@;
            let mut i: usize = from;
            while i < to
                invariant
                    from <= i <= to <= y@.len(),
                    out@ == first + y@.subrange(from as int, i as int),
                decreases to - i,
            {
                assert(y@.subrange(from as int, i + 1) == y@.subrange(from as int, i as int).push(
                    y@[i as int],
                ));
                out.push(y[i]);
                i += 1;
            }
            Buffer::Num(out)
        },
        (Buffer::Byte(mut out), Buffer::Byte(y)) => {
            let ghost first = out@;
            let mut i: usize = from;
            while i < to
                invariant
                    from <= i <= to <= y@.len(),
                    out@ == first + y@.subrange(from as int, i as int),
                decreases to - i,
            {
                assert(y@.subrange(from as int, i + 1) == y@.subrange(from as int, i as int).push(
                    y@[i as int],
                ));
                out.push(y[i]);
                i += 1;
            }
            Buffer::Byte(out)
        },
        (Buffer::Char(mut out), Buffer::Char(y)) => {
            let ghost first = out@;
            let mut i: usize = from;
            while i < to
                invariant
                    from <= i <= to <= y@.len(),
                    out@ == first + y@.subrange(from as int, i as int),
                decreases to - i,
            {
                assert(y@.subrange(from as int, i + 1) == y@.subrange(from as int, i as int).push(
                    y@[i as int],
                ));
                out.push(y[i]);
                i += 1;
            }
            Buffer::Char(out)
        },
        (Buffer::Str(mut out), Buffer::Str(y)) => {
            let ghost first = strings_view(out@);
            let mut i: usize = from;
            while i < to
                invariant
                    from <= i <= to <= y@.len(),
                    strings_view(out@) == first + strings_view(y@).subrange(from as int, i as int),
                decreases to - i,
            {
                let copy = y[i].clone();
                proof {
                    let before = strings_view(out@);
                    assert(strings_view(out@.push(copy)) == before.push(copy@));
                    assert(strings_view(y@).subrange(from as int, i + 1) == strings_view(
                        y@,
                    ).subrange(from as int, i as int).push(y@[i as int]@));
                }
                out.push(copy);
                i += 1;
            }
            Buffer::Str(out)
        },
        (acc, _) => acc,
    }
}

/// The blocks of two buffers in turn: of the first `n` blocks of each, one
/// of `ca` elements of `a`, then one of `cb` elements of `b`, and so on.
pub open spec fn woven(a: BufferView, ca: nat, b: BufferView, cb: nat, n: nat) -> BufferView
    decreases n,
{
    if n == 0 {
        a.subrange(0, 0)
    } else {
        appended(
            appended(
                woven(a, ca, b, cb, (n - 1) as nat),
                a.subrange((n - 1) * ca, (n * ca) as int),
            ),
            b.subrange((n - 1) * cb, (n * cb) as int),
        )
    }
}

/// Blocks woven from two buffers of one kind are of that kind, and as many
/// elements as the blocks hold.
proof fn lemma_woven_len(a: BufferView, ca: nat, b: BufferView, cb: nat, n: nat)
    requires
        a.kind() == b.kind(),
        n * ca <= a.len(),
        n * cb <= b.len(),
    ensures
        woven(a, ca, b, cb, n).kind() == a.kind(),
        woven(a, ca, b, cb, n).len() == n * ca + n * cb,
    decreases n,
{
    if n > 0 {
        let m = (n - 1) as nat;
        assert(m * ca + ca == n * ca && m * ca <= n * ca) by (nonlinear_arith)
            requires
                m + 1 == n,
        ;
        assert(m * cb + cb == n * cb && m * cb <= n * cb) by (nonlinear_arith)
            requires
                m + 1 == n,
        ;
        lemma_woven_len(a, ca, b, cb, m);
        let before = woven(a, ca, b, cb, m);
        let block = a.subrange((m * ca) as int, (n * ca) as int);
        lemma_subrange(a, (m * ca) as int, (n * ca) as int);
        lemma_subrange(b, (m * cb) as int, (n * cb) as int);
        lemma_appended(before, block);
        lemma_appended(appended(before, block), b.subrange((m * cb) as int, (n * cb) as int));
        assert((n - 1) * ca == m * ca && (n - 1) * cb == m * cb);
    } else {
        lemma_subrange(a, 0, 0);
        assert(n * ca == 0 && n * cb == 0) by (nonlinear_arith)
            requires
                n == 0,
        ;
    }
}

/// A part of a buffer is of its kind and holds what lies between its ends.
proof fn lemma_subrange(a: BufferView, from: int, to: int)
    requires
        0 <= from <= to <= a.len(),
    ensures
        a.subrange(from, to).kind() == a.kind(),
        a.subrange(from, to).len() == to - from,
{
}

/// Two buffers of one kind, one after the other, are of that kind and hold
/// what both hold.
proof fn lemma_appended(a: BufferView, b: BufferView)
    requires
        a.kind() == b.kind(),
    ensures
        appended(a, b).kind() == a.kind(),
        appended(a, b).len() == a.len() + b.len(),
{
}

/// Whether two arrays can be joined along an axis: their elements are of one
/// kind, both have the axis, their other dimensions agree and their
/// dimensions of the axis can be counted together.
pub open spec fn joinable_along(a: ArrayView, b: ArrayView, axis: int) -> bool {
    &&& a.data.kind() == b.data.kind()
    &&& 0 <= axis < a.rank()
    &&& a.rank() == b.rank()
    &&& forall|i: int| 0 <= i < a.rank() && i != axis ==> a.shape[i] == #[trigger] b.shape[i]
    &&& a.shape[axis] + b.shape[axis] <= usize::MAX
}

/// Two arrays joined along an axis: for each index on the axes before it,
/// what the first holds there, then what the second holds there.
pub open spec fn joined_along(a: ArrayView, b: ArrayView, axis: int) -> ArrayView {
    ArrayView {
        shape: a.shape.update(axis, (a.shape[axis] + b.shape[axis]) as usize),
        data: woven(
            a.data,
            shape_product(a.shape.skip(axis)),
            b.data,
            shape_product(b.shape.skip(axis)),
            shape_product(a.shape.take(axis)),
        ),
    }
}

/// Whether two shapes of one rank agree on every axis but the given one.
fn agree_but(a: &Vec<usize>, b: &Vec<usize>, axis: usize) -> (same: bool)
    requires
        a.len() == b.len(),
    ensures
        same == (forall|i: int| 0 <= i < a.len() && i != axis ==> a@[i] == #[trigger] b@[i]),
{
    let mut i: usize = 0;
    while i < a.len()
        invariant
            i <= a.len(),
            a.len() == b.len(),
            forall|j: int| 0 <= j < i && j != axis ==> a@[j] == #[trigger] b@[j],
        decreases a.len() - i,
    {
        if i != axis && a[i] != b[i] {
            return false;
        }
        i += 1;
    }
    true
}

/// The first dimensions of a shape.
fn head_of(shape: &Vec<usize>, upto: usize) -> (head: Vec<usize>)
    requires
        upto <= shape.len(),
    ensures
        head@ == shape@.take(upto as int),
{
    let mut head: Vec<usize> = Vec::new();
    let mut i: usize = 0;
    while i < upto
        invariant
            i <= upto <= shape.len(),
            head@ == shape@.take(i as int),
        decreases upto - i,
    {
        assert(shape@.take(i + 1) == shape@.take(i as int).push(shape@[i as int]));
        head.push(shape[i]);
        i += 1;
    }
    head
}

/// Two arrays joined along an axis. Elements of different kinds are a
/// `TypeMismatch`; an array without the axis is a `RankTooLow`; ranks or
/// other dimensions that differ, or a dimension that cannot be counted, are
/// a `ShapeMismatch`.
pub fn join_along(a: &Array, b: &Array, axis: usize) -> (made: Result<Array, ArrayError>)
    ensures
        match made {
            Ok(r) => joinable_along(a@, b@, axis as int) && r@ == joined_along(a@, b@, axis as int)
                && r@.wf(),
            Err(e) => !joinable_along(a@, b@, axis as int) && e == if a@.data.kind()
                != b@.data.kind() {
                ArrayError::TypeMismatch
            } else if a@.rank() <= axis || b@.rank() <= axis {
                ArrayError::RankTooLow
            } else {
                ArrayError::ShapeMismatch
            },
        },
{
    let start = a.data().slice(0, 0);
    let mut data = match append(&start, &b.data().slice(0, 0)) {
        Some(d) => d,
        None => {
            return Err(ArrayError::TypeMismatch);
        },
    };
    let (sa, sb) = (a.shape(), b.shape());
    if sa.len() <= axis || sb.len() <= axis {
        return Err(ArrayError::RankTooLow);
    }
    if sa.len() != sb.len() || !agree_but(sa, sb, axis) {
        return Err(ArrayError::ShapeMismatch);
    }
    let along = match sa[axis].checked_add(sb[axis]) {
        Some(n) => n,
        None => {
            return Err(ArrayError::ShapeMismatch);
        },
    };
    let mut shape = sa.clone();
    shape.set(axis, along);
    let (held_a, held_b) = (a.len(), b.len());
    let ghost outer = shape_product(sa@.take(axis as int));
    let ghost ca = shape_product(sa@.skip(axis as int));
    let ghost cb = shape_product(sb@.skip(axis as int));
    let ghost inner = shape_product(sa@.skip(axis + 1));
    proof {
        assert(sa@.take(axis as int) =~= sb@.take(axis as int));
        assert(sa@.skip(axis + 1) =~= sb@.skip(axis + 1));
        assert(shape@.take(axis as int) =~= sa@.take(axis as int));
        assert(shape@.skip(axis + 1) =~= sa@.skip(axis + 1));
        lemma_product_split(sa@, axis as int);
        lemma_product_split(sb@, axis as int);
        lemma_product_split(shape@, axis as int);
        lemma_product_split(sa@.skip(axis as int), 1);
        lemma_product_split(sb@.skip(axis as int), 1);
        lemma_product_split(shape@.skip(axis as int), 1);
        lemma_product_one(sa@.skip(axis as int).take(1));
        lemma_product_one(sb@.skip(axis as int).take(1));
        lemma_product_one(shape@.skip(axis as int).take(1));
        assert(sa@.skip(axis as int).skip(1) =~= sa@.skip(axis + 1));
        assert(sb@.skip(axis as int).skip(1) =~= sa@.skip(axis + 1));
        assert(shape@.skip(axis as int).skip(1) =~= sa@.skip(axis + 1));
        let (x, y) = (sa@[axis as int] as nat, sb@[axis as int] as nat);
        assert(ca == x * inner);
        assert(cb == y * inner);
        assert(shape_product(shape@.skip(axis as int)) == (x + y) * inner);
        assert(outer * ((x + y) * inner) == outer * (x * inner) + outer * (y * inner))
            by (nonlinear_arith);
        assert(shape_product(shape@) == outer * ca + outer * cb);
        lemma_woven_len(a@.data, ca, b@.data, cb, outer);
        assert(start@ == a@.data.subrange(0, 0));
    }
    if held_a > 0 || held_b > 0 {
        proof {
            // One of the arrays holds something, so the blocks can be
            // counted.
            assert(outer >= 1 && (outer <= held_a || outer <= held_b)) by (nonlinear_arith)
                requires
                    held_a == outer * ca,
                    held_b == outer * cb,
                    held_a > 0 || held_b > 0,
            ;
        }
        let n = match element_count(&head_of(sa, axis)) {
            Some(n) => n,
            None => {
                return Err(ArrayError::ShapeMismatch);
            },
        };
        let (step_a, step_b) = (held_a / n, held_b / n);
        proof {
            assert(step_a == ca) by (nonlinear_arith)
                requires
                    held_a == n * ca,
                    n >= 1,
                    step_a == held_a / n,
            ;
            assert(step_b == cb) by (nonlinear_arith)
                requires
                    held_b == n * cb,
                    n >= 1,
                    step_b == held_b / n,
            ;
            match a@.data {
                BufferView::Num(s) => assert(s.subrange(0, 0) + s.subrange(0, 0) == s.subrange(
                    0,
                    0,
                )),
                BufferView::Byte(s) => assert(s.subrange(0, 0) + s.subrange(0, 0) == s.subrange(
                    0,
                    0,
                )),
                BufferView::Char(s) => assert(s.subrange(0, 0) + s.subrange(0, 0) == s.subrange(
                    0,
                    0,
                )),
                BufferView::Str(s) => assert(s.subrange(0, 0) + s.subrange(0, 0) == s.subrange(
                    0,
                    0,
                )),
            }
        }
        let mut o: usize = 0;
        let (mut from_a, mut from_b): (usize, usize) = (0, 0);
        while o < n
            invariant
                o <= n,
                n == outer,
                step_a == ca,
                step_b == cb,
                held_a == a@.data.len() == n * ca,
                held_b == b@.data.len() == n * cb,
                a@.data.kind() == b@.data.kind(),
                from_a == o * ca,
                from_b == o * cb,
                data@ == woven(a@.data, ca, b@.data, cb, o as nat),
            decreases n - o,
        {
            proof {
                assert((o + 1) * ca == o * ca + ca && (o + 1) * ca <= n * ca) by (nonlinear_arith)
                    requires
                        o < n,
                ;
                assert((o + 1) * cb == o * cb + cb && (o + 1) * cb <= n * cb) by (nonlinear_arith)
                    requires
                        o < n,
                ;
                assert(o * ca <= n * ca && o * cb <= n * cb) by (nonlinear_arith)
                    requires
                        o < n,
                ;
                lemma_woven_len(a@.data, ca, b@.data, cb, o as nat);
            }
            data = extended(data, a.data(), from_a, from_a + step_a);
            data = extended(data, b.data(), from_b, from_b + step_b);
            from_a += step_a;
            from_b += step_b;
            o += 1;
        }
    } else {
        proof {
            lemma_woven_nothing(a@.data, ca, b@.data, cb, outer);
            match a@.data {
                BufferView::Num(s) => assert(s.subrange(0, 0) + s.subrange(0, 0) == s.subrange(
                    0,
                    0,
                )),
                BufferView::Byte(s) => assert(s.subrange(0, 0) + s.subrange(0, 0) == s.subrange(
                    0,
                    0,
                )),
                BufferView::Char(s) => assert(s.subrange(0, 0) + s.subrange(0, 0) == s.subrange(
                    0,
                    0,
                )),
                BufferView::Str(s) => assert(s.subrange(0, 0) + s.subrange(0, 0) == s.subrange(
                    0,
                    0,
                )),
            }
        }
    }
    match Array::new(shape, data) {
        Ok(r) => Ok(r),
        Err(_) => Err(ArrayError::ShapeMismatch),
    }
}

/// Joining along the first axis is joining along the axis of index zero.
pub proof fn lemma_join_first_axis(a: ArrayView, b: ArrayView)
    requires
        a.wf(),
        b.wf(),
    ensures
        joinable(a, b) <==> joinable_along(a, b, 0),
        joinable(a, b) ==> joined(a, b) == joined_along(a, b, 0),
{
    if joinable(a, b) {
        assert(a.shape.len() == a.shape.skip(1).len() + 1);
        assert(b.shape.len() == b.shape.skip(1).len() + 1);
        assert forall|i: int| 0 <= i < a.rank() && i != 0 implies a.shape[i]
            == #[trigger] b.shape[i] by {
            assert(a.shape[i] == a.shape.skip(1)[i - 1]);
            assert(b.shape[i] == b.shape.skip(1)[i - 1]);
        }
        let along = joined_along(a, b, 0);
        assert(along.shape =~= joined(a, b).shape);
        assert(a.shape.skip(0) == a.shape);
        assert(b.shape.skip(0) == b.shape);
        assert(a.shape.take(0) == Seq::<usize>::empty());
        let (ca, cb) = (a.data.len(), b.data.len());
        assert(woven(a.data, ca, b.data, cb, 1) == appended(
            appended(woven(a.data, ca, b.data, cb, 0), a.data.subrange(0, ca as int)),
            b.data.subrange(0, cb as int),
        )) by {
            assert((1 - 1) * ca == 0 && 1 * ca == ca && (1 - 1) * cb == 0 && 1 * cb == cb);
        }
        match (a.data, b.data) {
            (BufferView::Num(s), BufferView::Num(t)) => {
                assert(s.subrange(0, 0) + s.subrange(0, ca as int) + t.subrange(0, cb as int) == s
                    + t);
            },
            (BufferView::Byte(s), BufferView::Byte(t)) => {
                assert(s.subrange(0, 0) + s.subrange(0, ca as int) + t.subrange(0, cb as int) == s
                    + t);
            },
            (BufferView::Char(s), BufferView::Char(t)) => {
                assert(s.subrange(0, 0) + s.subrange(0, ca as int) + t.subrange(0, cb as int) == s
                    + t);
            },
            (BufferView::Str(s), BufferView::Str(t)) => {
                assert(s.subrange(0, 0) + s.subrange(0, ca as int) + t.subrange(0, cb as int) == s
                    + t);
            },
            _ => {},
        }
    }
    if joinable_along(a, b, 0) {
        assert(a.shape.skip(1) =~= b.shape.skip(1)) by {
            assert forall|i: int| 0 <= i < a.shape.skip(1).len() implies a.shape.skip(1)[i]
                == b.shape.skip(1)[i] by {
                assert(a.shape[i + 1] == b.shape[i + 1]);
            }
        }
    }
}

/// Blocks woven from two empty buffers of one kind hold nothing.
proof fn lemma_woven_nothing(a: BufferView, ca: nat, b: BufferView, cb: nat, n: nat)
    requires
        a.kind() == b.kind(),
        a.len() == 0,
        b.len() == 0,
        n * ca == 0,
        n * cb == 0,
    ensures
        woven(a, ca, b, cb, n) == a.subrange(0, 0),
    decreases n,
{
    if n > 0 {
        let m = (n - 1) as nat;
        assert(ca == 0 && cb == 0 && m * ca == 0 && m * cb == 0) by (nonlinear_arith)
            requires
                n * ca == 0,
                n * cb == 0,
                m + 1 == n,
        ;
        lemma_woven_nothing(a, ca, b, cb, m);
        match (a, b) {
            (BufferView::Num(s), BufferView::Num(t)) => {
                assert(s.subrange(0, 0) + s.subrange(0, 0) == s.subrange(0, 0));
                assert(s.subrange(0, 0) + t.subrange(0, 0) == s.subrange(0, 0));
            },
            (BufferView::Byte(s), BufferView::Byte(t)) => {
                assert(s.subrange(0, 0) + s.subrange(0, 0) == s.subrange(0, 0));
                assert(s.subrange(0, 0) + t.subrange(0, 0) == s.subrange(0, 0));
            },
            (BufferView::Char(s), BufferView::Char(t)) => {
                assert(s.subrange(0, 0) + s.subrange(0, 0) == s.subrange(0, 0));
                assert(s.subrange(0, 0) + t.subrange(0, 0) == s.subrange(0, 0));
            },
            (BufferView::Str(s), BufferView::Str(t)) => {
                assert(s.subrange(0, 0) + s.subrange(0, 0) == s.subrange(0, 0));
                assert(s.subrange(0, 0) + t.subrange(0, 0) == s.subrange(0, 0));
            },
            _ => {},
        }
    }
}

/// Whether two lists of dimensions are the same.
fn same_dims(a: &Vec<usize>, b: &Vec<usize>) -> (same: bool)
    ensures
        same == (a@ == b@),
{
    if a.len() != b.len() {
        return false;
    }
    let mut i: usize = 0;
    while i < a.len()
        invariant
            i <= a.len(),
            a.len() == b.len(),
            a@.take(i as int) == b@.take(i as int),
        decreases a.len() - i,
    {
        if a[i] != b[i] {
            return false;
        }
        assert(a@.take(i + 1) == a@.take(i as int).push(a@[i as int]));
        assert(b@.take(i + 1) == b@.take(i as int).push(b@[i as int]));
        i += 1;
    }
    assert(a@.take(a@.len() as int) == a@);
    assert(b@.take(b@.len() as int) == b@);
    true
}

/// Bytes widened to the numbers they are.
pub open spec fn widened(bytes: Seq<u8>) -> Seq<u64> {
    bytes.map_values(|b: u8| of_byte(b))
}

/// The array with its bytes widened to numbers. An array of numbers stays as
/// it is; characters and strings are no numbers: `TypeMismatch`.
pub fn to_numbers(array: &Array) -> (made: Result<Array, ArrayError>)
    ensures
        match made {
            Ok(r) => r@.wf() && r@.shape == array@.shape && match array@.data {
                BufferView::Num(s) => r@.data == BufferView::Num(s),
                BufferView::Byte(s) => r@.data == BufferView::Num(widened(s)),
                _ => false,
            },
            Err(e) => e == ArrayError::TypeMismatch && !(array@.data is Num || array@.data is Byte),
        },
{
    let numbers: Vec<u64> = match array.data() {
        Buffer::Num(n) => n.clone(),
        Buffer::Byte(bytes) => {
            let mut out: Vec<u64> = Vec::new();
            let mut i: usize = 0;
            while i < bytes.len()
                invariant
                    i <= bytes.len(),
                    out@ == widened(bytes@.take(i as int)),
                decreases bytes.len() - i,
            {
                let ghost before = widened(bytes@.take(i as int));
                out.push(from_byte(bytes[i]));
                i += 1;
                assert(widened(bytes@.take(i as int)) == before.push(of_byte(bytes@[i - 1])));
            }
            assert(bytes@.take(bytes@.len() as int) == bytes@);
            out
        },
        _ => {
            return Err(ArrayError::TypeMismatch);
        },
    };
    match Array::new(array.shape().clone(), Buffer::Num(numbers)) {
        Ok(r) => Ok(r),
        Err(_) => Err(ArrayError::TypeMismatch),
    }
}

/// Whether two patterns denote equal numbers: neither is a NaN, and they are
/// the same pattern or both a zero.
pub open spec fn same_number(a: u64, b: u64) -> bool {
    !is_nan(a) && !is_nan(b) && (a == b || (a % 0x8000_0000_0000_0000 == 0 && b
        % 0x8000_0000_0000_0000 == 0))
}

/// Whether two patterns denote equal numbers.
pub fn numbers_equal(a: u64, b: u64) -> (same: bool)
    ensures
        same == same_number(a, b),
{
    let a_rest: u64 = a % 0x8000_0000_0000_0000;
    let b_rest: u64 = b % 0x8000_0000_0000_0000;
    let a_nan = a_rest / 0x0010_0000_0000_0000 == 2047 && a % 0x0010_0000_0000_0000 != 0;
    let b_nan = b_rest / 0x0010_0000_0000_0000 == 2047 && b % 0x0010_0000_0000_0000 != 0;
    !a_nan && !b_nan && (a == b || (a_rest == 0 && b_rest == 0))
}

/// The numbers that a buffer holds, bytes widened; `None` for characters and
/// strings.
pub open spec fn numeric(data: BufferView) -> Option<Seq<u64>> {
    match data {
        BufferView::Num(s) => Some(s),
        BufferView::Byte(s) => Some(widened(s)),
        _ => None,
    }
}

/// Whether two buffers hold equal elements: as many, and each equal to the
/// one at its place. Bytes and numbers are compared as numbers; characters
/// only equal characters and strings only strings.
pub open spec fn same_elements(a: BufferView, b: BufferView) -> bool {
    match (a, b) {
        (BufferView::Char(x), BufferView::Char(y)) => x == y,
        (BufferView::Str(x), BufferView::Str(y)) => x == y,
        _ => match (numeric(a), numeric(b)) {
            (Some(x), Some(y)) => x.len() == y.len() && forall|i: int|
                0 <= i < x.len() ==> same_number(x[i], #[trigger] y[i]),
            _ => false,
        },
    }
}

/// Whether two arrays are equal: of the same shape, with equal elements.
pub open spec fn same_array(a: ArrayView, b: ArrayView) -> bool {
    a.shape == b.shape && same_elements(a.data, b.data)
}

fn number_at(data: &Buffer, i: usize) -> (n: u64)
    requires
        numeric(data@) is Some,
        i < data@.len(),
    ensures
        n == numeric(data@)->0[i as int],
{
    match data {
        Buffer::Num(s) => s[i],
        Buffer::Byte(s) => from_byte(s[i]),
        _ => 0,
    }
}

/// Whether two arrays are equal.
#[verifier::loop_isolation(false)]
pub fn equals(a: &Array, b: &Array) -> (same: bool)
    ensures
        same == same_array(a@, b@),
{
    let (sa, sb) = (a.shape(), b.shape());
    if sa.len() != sb.len() {
        return false;
    }
    let mut k: usize = 0;
    while k < sa.len()
        invariant
            k <= sa.len(),
            sa.len() == sb.len(),
            sa@.take(k as int) == sb@.take(k as int),
        decreases sa.len() - k,
    {
        if sa[k] != sb[k] {
            assert(a@.shape[k as int] != b@.shape[k as int]);
            return false;
        }
        assert(sa@.take(k + 1) == sa@.take(k as int).push(sa@[k as int]));
        assert(sb@.take(k + 1) == sb@.take(k as int).push(sb@[k as int]));
        k += 1;
    }
    assert(sa@.take(sa@.len() as int) == sa@);
    assert(sb@.take(sb@.len() as int) == sb@);
    match (a.data(), b.data()) {
        (Buffer::Char(x), Buffer::Char(y)) => crate::text::same_chars(x, y),
        (Buffer::Str(x), Buffer::Str(y)) => {
            if x.len() != y.len() {
                return false;
            }
            let mut i: usize = 0;
            while i < x.len()
                invariant
                    i <= x.len(),
                    x.len() == y.len(),
                    strings_view(x@).take(i as int) == strings_view(y@).take(i as int),
                decreases x.len() - i,
            {
                if !crate::text::same_text(x[i].as_str(), y[i].as_str()) {
                    assert(strings_view(x@)[i as int] != strings_view(y@)[i as int]);
                    return false;
                }
                assert(strings_view(x@).take(i + 1) == strings_view(x@).take(i as int).push(
                    x@[i as int]@,
                ));
                assert(strings_view(y@).take(i + 1) == strings_view(y@).take(i as int).push(
                    y@[i as int]@,
                ));
                i += 1;
            }
            assert(strings_view(x@).take(x@.len() as int) == strings_view(x@));
            assert(strings_view(y@).take(y@.len() as int) == strings_view(y@));
            true
        },
        (Buffer::Char(_), _) | (Buffer::Str(_), _) | (_, Buffer::Char(_)) | (_, Buffer::Str(_)) => {
            false
        },
        (x, y) => {
            if x.len() != y.len() {
                return false;
            }
            let ghost xs = numeric(x@)->0;
            let ghost ys = numeric(y@)->0;
            let n = x.len();
            let mut i: usize = 0;
            while i < n
                invariant
                    i <= n,
                    n == x@.len(),
                    n == y@.len(),
                    numeric(x@) == Some(xs),
                    numeric(y@) == Some(ys),
                    xs.len() == n,
                    ys.len() == n,
                    forall|j: int| 0 <= j < i ==> same_number(xs[j], #[trigger] ys[j]),
                decreases n - i,
            {
                if !numbers_equal(number_at(x, i), number_at(y, i)) {
                    assert(!same_number(xs[i as int], ys[i as int]));
                    return false;
                }
                i += 1;
            }
            true
        },
    }
}

/// The dimension of index `i` of a shape padded at the front with ones to
/// the rank `rank`.
pub open spec fn padded(shape: Seq<usize>, rank: int, i: int) -> usize {
    if i < rank - shape.len() {
        1
    } else {
        shape[i - (rank - shape.len())]
    }
}

/// Whether two shapes can be broadcast against each other: with the shorter
/// padded at the front with ones, the dimensions of each axis are equal or
/// one of them is one.
pub open spec fn compatible(a: Seq<usize>, b: Seq<usize>) -> bool {
    forall|i: int|
        0 <= i < common_rank(a, b) ==> fit(
            #[trigger] padded(a, common_rank(a, b), i),
            padded(b, common_rank(a, b), i),
        )
}

/// Whether two dimensions of one axis go together: they are equal or one of
/// them is one.
pub open spec fn fit(x: usize, y: usize) -> bool {
    x == y || x == 1 || y == 1
}

/// The rank to which two shapes are padded: that of the longer.
pub open spec fn common_rank(a: Seq<usize>, b: Seq<usize>) -> int {
    if a.len() >= b.len() {
        a.len() as int
    } else {
        b.len() as int
    }
}

proof fn lemma_compatible_at(a: Seq<usize>, b: Seq<usize>, i: int)
    requires
        compatible(a, b),
        0 <= i < common_rank(a, b),
    ensures
        fit(padded(a, common_rank(a, b), i), padded(b, common_rank(a, b), i)),
{
}

/// The shape that two compatible shapes broadcast to: on each axis the
/// dimension that is not one, if there is such.
pub open spec fn broadcast_spec(a: Seq<usize>, b: Seq<usize>) -> Seq<usize> {
    let rank = common_rank(a, b);
    Seq::new(
        rank as nat,
        |i: int|
            if padded(a, rank, i) == 1 {
                padded(b, rank, i)
            } else {
                padded(a, rank, i)
            },
    )
}

/// The shape that two shapes broadcast to, or `ShapeMismatch` where they are
/// not compatible.
#[verifier::loop_isolation(false)]
pub fn broadcast_shape(a: &Vec<usize>, b: &Vec<usize>) -> (shape: Result<Vec<usize>, ArrayError>)
    ensures
        match shape {
            Ok(s) => compatible(a@, b@) && s@ == broadcast_spec(a@, b@),
            Err(e) => e == ArrayError::ShapeMismatch && !compatible(a@, b@),
        },
{
    let rank = if a.len() >= b.len() {
        a.len()
    } else {
        b.len()
    };
    let (pad_a, pad_b) = (rank - a.len(), rank - b.len());
    let mut out: Vec<usize> = Vec::new();
    let mut i: usize = 0;
    while i < rank
        invariant
            i <= rank,
            rank == if a.len() >= b.len() {
                a.len()
            } else {
                b.len()
            },
            pad_a == rank - a.len(),
            pad_b == rank - b.len(),
            out@.len() == i,
            forall|j: int|
                0 <= j < i ==> fit(#[trigger] padded(a@, rank as int, j), padded(b@, rank as int, j)),
            forall|j: int|
                0 <= j < i ==> #[trigger] out@[j] == if padded(a@, rank as int, j) == 1 {
                    padded(b@, rank as int, j)
                } else {
                    padded(a@, rank as int, j)
                },
        decreases rank - i,
    {
        let x = if i < pad_a {
            1
        } else {
            a[i - pad_a]
        };
        let y = if i < pad_b {
            1
        } else {
            b[i - pad_b]
        };
        assert(x == padded(a@, rank as int, i as int));
        assert(y == padded(b@, rank as int, i as int));
        if !(x == y || x == 1 || y == 1) {
            proof {
                if compatible(a@, b@) {
                    lemma_compatible_at(a@, b@, i as int);
                }
            }
            return Err(ArrayError::ShapeMismatch);
        }
        out.push(
            if x == 1 {
                y
            } else {
                x
            },
        );
        i += 1;
    }
    assert(out@ =~= broadcast_spec(a@, b@));
    Ok(out)
}

} // verus!
