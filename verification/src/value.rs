//! Arrays and values: the data the interpreter computes with.
//!
//! Every array carries a shape and a flat element buffer; the product of the
//! shape's dimensions is the length of the buffer. Numbers are held as IEEE-754
//! binary64 bit patterns, so that this crate stays free of machine floating
//! point.

use vstd::prelude::*;
use crate::function::FunctionId;
use crate::text::chars_of;

verus! {

/// The product of the dimensions of a shape; `1` for the empty shape.
pub open spec fn shape_product(shape: Seq<usize>) -> nat
    decreases shape.len(),
{
    if shape.len() == 0 {
        1
    } else {
        shape_product(shape.drop_last()) * (shape.last() as nat)
    }
}

/// Whether some dimension of the shape is zero.
pub open spec fn has_zero(shape: Seq<usize>) -> bool {
    exists|i: int| 0 <= i < shape.len() && shape[i] == 0
}

/// A shape with a zero dimension has product zero.
pub proof fn lemma_product_zero(shape: Seq<usize>)
    requires
        has_zero(shape),
    ensures
        shape_product(shape) == 0,
    decreases shape.len(),
{
    let i = choose|i: int| 0 <= i < shape.len() && shape[i] == 0;
    if i == shape.len() - 1 {
        assert(shape_product(shape.drop_last()) * 0 == 0) by (nonlinear_arith);
    } else {
        assert(shape.drop_last()[i] == 0);
        lemma_product_zero(shape.drop_last());
        assert(0 * (shape.last() as nat) == 0) by (nonlinear_arith);
    }
}

/// Without a zero dimension, the product of a prefix is at least one and at
/// most the product of the whole shape.
pub proof fn lemma_product_prefix(shape: Seq<usize>, n: int)
    requires
        !has_zero(shape),
        0 <= n <= shape.len(),
    ensures
        1 <= shape_product(shape.take(n)) <= shape_product(shape),
    decreases shape.len() - n,
{
    lemma_product_positive(shape.take(n));
    if n == shape.len() {
        assert(shape.take(n) == shape);
    } else {
        lemma_product_prefix(shape, n + 1);
        let longer = shape.take(n + 1);
        assert(longer.drop_last() == shape.take(n));
        assert(longer.last() == shape[n]);
        assert(shape[n] >= 1);
        let p = shape_product(shape.take(n));
        let d = shape[n] as nat;
        assert(p <= p * d) by (nonlinear_arith)
            requires
                d >= 1,
        ;
    }
}

/// A shape without a zero dimension has a positive product.
pub proof fn lemma_product_positive(shape: Seq<usize>)
    requires
        !has_zero(shape),
    ensures
        shape_product(shape) >= 1,
    decreases shape.len(),
{
    if shape.len() > 0 {
        let front = shape.drop_last();
        assert forall|i: int| 0 <= i < front.len() implies front[i] != 0 by {
            assert(front[i] == shape[i]);
        }
        lemma_product_positive(front);
        assert(shape.last() == shape[shape.len() - 1]);
        let p = shape_product(front);
        let d = shape.last() as nat;
        assert(p * d >= 1) by (nonlinear_arith)
            requires
                p >= 1,
                d >= 1,
        ;
    }
}

/// The product of the dimensions, or `None` when it exceeds `usize::MAX`.
pub fn element_count(shape: &Vec<usize>) -> (count: Option<usize>)
    ensures
        match count {
            Some(n) => n == shape_product(shape@),
            None => shape_product(shape@) > usize::MAX,
        },
{
    let mut i: usize = 0;
    while i < shape.len()
        invariant
            i <= shape.len(),
            forall|j: int| 0 <= j < i ==> shape@[j] != 0,
        decreases shape.len() - i,
    {
        if shape[i] == 0 {
            proof {
                lemma_product_zero(shape@);
            }
            return Some(0);
        }
        i += 1;
    }
    let mut product: usize = 1;
    let mut k: usize = 0;
    while k < shape.len()
        invariant
            k <= shape.len(),
            !has_zero(shape@),
            product == shape_product(shape@.take(k as int)),
        decreases shape.len() - k,
    {
        proof {
            let longer = shape@.take(k + 1);
            assert(longer.drop_last() == shape@.take(k as int));
            assert(longer.last() == shape@[k as int]);
            lemma_product_prefix(shape@, k + 1);
        }
        match product.checked_mul(shape[k]) {
            Some(next) => {
                product = next;
            },
            None => {
                return None;
            },
        }
        k += 1;
    }
    proof {
        assert(shape@.take(shape@.len() as int) == shape@);
    }
    Some(product)
}

/// The kind of the elements of an array.
#[derive(Clone, Copy, Debug, PartialEq, Eq, Structural)]
pub enum ElementKind {
    /// Numbers, as binary64 bit patterns.
    Num,
    /// Bytes.
    Byte,
    /// Unicode scalar values.
    Char,
    /// Whole strings, as the rows of a list of strings.
    Str,
}

/// The mathematical content of an element buffer.
pub enum BufferView {
    Num(Seq<u64>),
    Byte(Seq<u8>),
    Char(Seq<char>),
    Str(Seq<Seq<char>>),
}

impl BufferView {
    /// The number of elements.
    pub open spec fn len(self) -> nat {
        match self {
            BufferView::Num(s) => s.len(),
            BufferView::Byte(s) => s.len(),
            BufferView::Char(s) => s.len(),
            BufferView::Str(s) => s.len(),
        }
    }

    /// The kind of the elements.
    pub open spec fn kind(self) -> ElementKind {
        match self {
            BufferView::Num(_) => ElementKind::Num,
            BufferView::Byte(_) => ElementKind::Byte,
            BufferView::Char(_) => ElementKind::Char,
            BufferView::Str(_) => ElementKind::Str,
        }
    }

    /// The elements from `from` up to `to`.
    pub open spec fn subrange(self, from: int, to: int) -> BufferView {
        match self {
            BufferView::Num(s) => BufferView::Num(s.subrange(from, to)),
            BufferView::Byte(s) => BufferView::Byte(s.subrange(from, to)),
            BufferView::Char(s) => BufferView::Char(s.subrange(from, to)),
            BufferView::Str(s) => BufferView::Str(s.subrange(from, to)),
        }
    }
}

/// A flat, typed element buffer.
#[derive(Debug, PartialEq, Eq)]
pub enum Buffer {
    /// Numbers, each as the bit pattern of a binary64 float.
    Num(Vec<u64>),
    /// Bytes.
    Byte(Vec<u8>),
    /// Characters.
    Char(Vec<char>),
    /// Strings.
    Str(Vec<String>),
}

/// The strings of a vector as sequences of characters.
pub open spec fn strings_view(v: Seq<String>) -> Seq<Seq<char>> {
    Seq::new(v.len(), |i: int| v[i]@)
}

impl View for Buffer {
    type V = BufferView;

    open spec fn view(&self) -> BufferView {
        match self {
            Buffer::Num(v) => BufferView::Num(v@),
            Buffer::Byte(v) => BufferView::Byte(v@),
            Buffer::Char(v) => BufferView::Char(v@),
            Buffer::Str(v) => BufferView::Str(strings_view(v@)),
        }
    }
}

impl Buffer {
    /// The number of elements.
    pub fn len(&self) -> (n: usize)
        ensures
            n == self@.len(),
    {
        match self {
            Buffer::Num(v) => v.len(),
            Buffer::Byte(v) => v.len(),
            Buffer::Char(v) => v.len(),
            Buffer::Str(v) => v.len(),
        }
    }

    /// The kind of the elements.
    pub fn kind(&self) -> (k: ElementKind)
        ensures
            k == self@.kind(),
    {
        match self {
            Buffer::Num(_) => ElementKind::Num,
            Buffer::Byte(_) => ElementKind::Byte,
            Buffer::Char(_) => ElementKind::Char,
            Buffer::Str(_) => ElementKind::Str,
        }
    }

    /// A copy of this buffer.
    pub fn duplicate(&self) -> (copy: Buffer)
        ensures
            copy@ == self@,
    {
        let copy = self.slice(0, self.len());
        proof {
            match self@ {
                BufferView::Num(s) => assert(s.subrange(0, s.len() as int) == s),
                BufferView::Byte(s) => assert(s.subrange(0, s.len() as int) == s),
                BufferView::Char(s) => assert(s.subrange(0, s.len() as int) == s),
                BufferView::Str(s) => assert(s.subrange(0, s.len() as int) == s),
            }
        }
        copy
    }

    /// A copy of the elements from `from` up to `to`.
    pub fn slice(&self, from: usize, to: usize) -> (part: Buffer)
        requires
            from <= to <= self@.len(),
        ensures
            part@ == self@.subrange(from as int, to as int),
    {
        match self {
            Buffer::Num(v) => {
                let mut out: Vec<u64> = Vec::new();
                let mut i: usize = from;
                while i < to
                    invariant
                        from <= i <= to <= v@.len(),
                        out@ == v@.subrange(from as int, i as int),
                    decreases to - i,
                {
                    out.push(v[i]);
                    i += 1;
                }
                Buffer::Num(out)
            },
            Buffer::Byte(v) => {
                let mut out: Vec<u8> = Vec::new();
                let mut i: usize = from;
                while i < to
                    invariant
                        from <= i <= to <= v@.len(),
                        out@ == v@.subrange(from as int, i as int),
                    decreases to - i,
                {
                    out.push(v[i]);
                    i += 1;
                }
                Buffer::Byte(out)
            },
            Buffer::Char(v) => {
                let mut out: Vec<char> = Vec::new();
                let mut i: usize = from;
                while i < to
                    invariant
                        from <= i <= to <= v@.len(),
                        out@ == v@.subrange(from as int, i as int),
                    decreases to - i,
                {
                    out.push(v[i]);
                    i += 1;
                }
                Buffer::Char(out)
            },
            Buffer::Str(v) => {
                let mut out: Vec<String> = Vec::new();
                let mut i: usize = from;
                while i < to
                    invariant
                        from <= i <= to <= v@.len(),
                        strings_view(out@) == strings_view(v@).subrange(from as int, i as int),
                    decreases to - i,
                {
                    let copy = v[i].clone();
                    proof {
                        let before = strings_view(out@);
                        let after = strings_view(out@.push(copy));
                        assert(after == before.push(v@[i as int]@));
                    }
                    out.push(copy);
                    i += 1;
                }
                Buffer::Str(out)
            },
        }
    }
}

/// The mathematical content of an array: its shape and its elements.
pub struct ArrayView {
    pub shape: Seq<usize>,
    pub data: BufferView,
}

impl ArrayView {
    /// The shape invariant: the product of the dimensions is the number of
    /// elements.
    pub open spec fn wf(self) -> bool {
        shape_product(self.shape) == self.data.len()
    }

    /// The number of dimensions.
    pub open spec fn rank(self) -> nat {
        self.shape.len()
    }

    /// Whether this is a list of characters or a single character: what is
    /// accepted where a string is asked for.
    pub open spec fn is_string(self) -> bool {
        self.data is Char
    }

    /// The characters of a character array, in buffer order.
    pub open spec fn chars(self) -> Seq<char> {
        self.data->Char_0
    }
}

/// A rank-N array of numbers, bytes, characters or strings.
#[derive(Debug, PartialEq, Eq)]
pub struct Array {
    shape: Vec<usize>,
    data: Buffer,
}

impl View for Array {
    type V = ArrayView;

    closed spec fn view(&self) -> ArrayView {
        ArrayView { shape: self.shape@, data: self.data@ }
    }
}

/// Why an operation on arrays was refused.
#[derive(Clone, Copy, Debug, PartialEq, Eq, Structural)]
pub enum ArrayError {
    /// The shape does not fit the number of elements, or two shapes do not
    /// fit each other.
    ShapeMismatch,
    /// The element kinds do not fit.
    TypeMismatch,
    /// The operation needs more dimensions than the array has.
    RankTooLow,
    /// An index lies outside the array.
    IndexOutOfRange,
}

impl Array {
    #[verifier::type_invariant]
    spec fn shape_invariant(&self) -> bool {
        shape_product(self.shape@) == self.data@.len()
    }

    /// An array of the given shape over the given elements. Refused with
    /// `ShapeMismatch` unless the product of the shape is the number of
    /// elements.
    pub fn new(shape: Vec<usize>, data: Buffer) -> (made: Result<Array, ArrayError>)
        ensures
            match made {
                Ok(a) => a@ == (ArrayView { shape: shape@, data: data@ }) && a@.wf(),
                Err(e) => e == ArrayError::ShapeMismatch && shape_product(shape@) != data@.len(),
            },
    {
        let have = data.len();
        match element_count(&shape) {
            Some(n) => {
                if n == have {
                    Ok(Array { shape, data })
                } else {
                    Err(ArrayError::ShapeMismatch)
                }
            },
            None => Err(ArrayError::ShapeMismatch),
        }
    }

    /// The list of the given elements: shape `[n]` for `n` elements.
    pub fn list(data: Buffer) -> (made: Array)
        ensures
            made@ == (ArrayView { shape: seq![data@.len() as usize], data: data@ }),
            made@.wf(),
    {
        let mut shape: Vec<usize> = Vec::new();
        shape.push(data.len());
        proof {
            assert(shape@ == seq![data@.len() as usize]);
            assert(shape@.drop_last() == Seq::<usize>::empty());
            assert(shape_product(shape@.drop_last()) == 1);
            assert(shape_product(shape@) == 1 * (shape@.last() as nat));
        }
        Array { shape, data }
    }

    /// The scalar number with the given bit pattern.
    pub fn number(bits: u64) -> (made: Array)
        ensures
            made@ == (ArrayView { shape: seq![], data: BufferView::Num(seq![bits]) }),
            made@.wf(),
    {
        let mut v: Vec<u64> = Vec::new();
        v.push(bits);
        proof {
            assert(v@ == seq![bits]);
        }
        Array { shape: Vec::new(), data: Buffer::Num(v) }
    }

    /// The scalar byte.
    pub fn byte(b: u8) -> (made: Array)
        ensures
            made@ == (ArrayView { shape: seq![], data: BufferView::Byte(seq![b]) }),
            made@.wf(),
    {
        let mut v: Vec<u8> = Vec::new();
        v.push(b);
        proof {
            assert(v@ == seq![b]);
        }
        Array { shape: Vec::new(), data: Buffer::Byte(v) }
    }

    /// The scalar character.
    pub fn character(c: char) -> (made: Array)
        ensures
            made@ == (ArrayView { shape: seq![], data: BufferView::Char(seq![c]) }),
            made@.wf(),
    {
        let mut v: Vec<char> = Vec::new();
        v.push(c);
        proof {
            assert(v@ == seq![c]);
        }
        Array { shape: Vec::new(), data: Buffer::Char(v) }
    }

    /// The truth value as a scalar byte, `1` for true and `0` for false.
    pub fn boolean(b: bool) -> (made: Array)
        ensures
            made@ == (ArrayView {
                shape: seq![],
                data: BufferView::Byte(seq![if b { 1u8 } else { 0u8 }]),
            }),
            made@.wf(),
    {
        Array::byte(if b { 1 } else { 0 })
    }

    /// The shape. The product of its dimensions is the number of elements.
    pub fn shape(&self) -> (shape: &Vec<usize>)
        ensures
            shape@ == self@.shape,
            self@.wf(),
    {
        proof {
            use_type_invariant(self);
        }
        &self.shape
    }

    /// The elements, in row-major order.
    pub fn data(&self) -> (data: &Buffer)
        ensures
            data@ == self@.data,
            self@.wf(),
    {
        proof {
            use_type_invariant(self);
        }
        &self.data
    }

    /// The number of dimensions.
    pub fn rank(&self) -> (rank: usize)
        ensures
            rank == self@.rank(),
    {
        self.shape.len()
    }

    /// The number of elements, which is the product of the shape.
    pub fn len(&self) -> (n: usize)
        ensures
            n == self@.data.len(),
            n == shape_product(self@.shape),
    {
        proof {
            use_type_invariant(self);
        }
        self.data.len()
    }

    /// The kind of the elements.
    pub fn kind(&self) -> (k: ElementKind)
        ensures
            k == self@.data.kind(),
    {
        self.data.kind()
    }

    /// Whether the elements are characters.
    pub fn is_chars(&self) -> (b: bool)
        ensures
            b == self@.is_string(),
    {
        match &self.data {
            Buffer::Char(_) => true,
            _ => false,
        }
    }

    /// A copy of this array.
    pub fn duplicate(&self) -> (copy: Array)
        ensures
            copy@ == self@,
    {
        proof {
            use_type_invariant(self);
        }
        let shape = self.shape.clone();
        let data = self.data.duplicate();
        Array { shape, data }
    }

    /// The same elements under another shape. Refused with `ShapeMismatch`
    /// unless the product of the new shape is the number of elements.
    pub fn reshape(&self, shape: Vec<usize>) -> (made: Result<Array, ArrayError>)
        ensures
            match made {
                Ok(a) => a@ == (ArrayView { shape: shape@, data: self@.data }) && a@.wf(),
                Err(e) => e == ArrayError::ShapeMismatch && shape_product(shape@)
                    != self@.data.len(),
            },
    {
        Array::new(shape, self.data.duplicate())
    }

    /// The string as a list of its characters.
    pub fn string(s: &str) -> (made: Array)
        ensures
            made@ == (ArrayView { shape: seq![s@.len() as usize], data: BufferView::Char(s@) }),
            made@.wf(),
    {
        Array::list(Buffer::Char(chars_of(s)))
    }

    /// The list of the given strings.
    pub fn strings(items: Vec<String>) -> (made: Array)
        ensures
            made@ == (ArrayView {
                shape: seq![items@.len() as usize],
                data: BufferView::Str(strings_view(items@)),
            }),
            made@.wf(),
    {
        Array::list(Buffer::Str(items))
    }

    /// The list of the given bytes.
    pub fn bytes(items: Vec<u8>) -> (made: Array)
        ensures
            made@ == (ArrayView {
                shape: seq![items@.len() as usize],
                data: BufferView::Byte(items@),
            }),
            made@.wf(),
    {
        Array::list(Buffer::Byte(items))
    }
}

impl Clone for Array {
    fn clone(&self) -> (copy: Self)
        ensures
            copy@ == self@,
    {
        self.duplicate()
    }
}

impl Clone for Buffer {
    fn clone(&self) -> (copy: Self)
        ensures
            copy@ == self@,
    {
        self.duplicate()
    }
}

impl Clone for Value {
    fn clone(&self) -> (copy: Self)
        ensures
            copy@ == self@,
    {
        self.duplicate()
    }
}

/// The mathematical content of a value.
pub enum ValueView {
    Array(ArrayView),
    Func(FunctionId),
}

/// What the stack holds: an array, or a reference to a function.
#[derive(Debug, PartialEq, Eq)]
pub enum Value {
    Array(Array),
    Func(FunctionId),
}

impl View for Value {
    type V = ValueView;

    open spec fn view(&self) -> ValueView {
        match self {
            Value::Array(a) => ValueView::Array(a@),
            Value::Func(id) => ValueView::Func(*id),
        }
    }
}

impl ValueView {
    /// Whether the value is an array of characters.
    pub open spec fn is_string(self) -> bool {
        self matches ValueView::Array(a) && a.is_string()
    }

    /// The characters of a string value.
    pub open spec fn chars(self) -> Seq<char> {
        self->Array_0.chars()
    }
}

impl Value {
    /// Whether the value is an array.
    pub fn is_array(&self) -> (b: bool)
        ensures
            b == (self@ is Array),
    {
        match self {
            Value::Array(_) => true,
            Value::Func(_) => false,
        }
    }

    /// A copy of this value.
    pub fn duplicate(&self) -> (copy: Value)
        ensures
            copy@ == self@,
    {
        match self {
            Value::Array(a) => Value::Array(a.duplicate()),
            Value::Func(id) => Value::Func(*id),
        }
    }

    /// The characters of the value if it is an array of characters.
    pub fn as_chars(&self) -> (chars: Option<&Vec<char>>)
        ensures
            match chars {
                Some(c) => self@.is_string() && c@ == self@.chars(),
                None => !self@.is_string(),
            },
    {
        match self {
            Value::Array(a) => match a.data() {
                Buffer::Char(c) => Some(c),
                _ => None,
            },
            Value::Func(_) => None,
        }
    }
}

} // verus!
