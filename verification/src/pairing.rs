//! Which elements meet when two arrays of different shapes go together.
//!
//! An array is stretched over a larger shape by repeating it along every
//! axis on which it has one element, and along the axes it lacks at the
//! front. The element that lands at a place of the larger shape is found by
//! taking the place apart into its index on each axis.

use vstd::prelude::*;
use vstd::arithmetic::div_mod::*;
use vstd::arithmetic::mul::*;
use crate::ops::{broadcast_spec, common_rank, compatible, fit, padded};
use crate::value::{has_zero, lemma_product_prefix, lemma_product_zero, shape_product};

verus! {

/// Whether an array of shape `own` can be stretched over the shape `whole`:
/// counted from the last axis, each dimension of `own` is one or that of
/// `whole`.
pub open spec fn stretches(own: Seq<usize>, whole: Seq<usize>) -> bool {
    &&& own.len() <= whole.len()
    &&& forall|j: int|
        0 <= j < own.len() ==> #[trigger] own[j] == 1 || own[j] == whole[whole.len() - own.len()
            + j]
}

/// The place in an array of shape `own` of the element that lands at `place`
/// when the array is stretched over `whole`: on each axis the index of the
/// place, or zero where the array has one element.
pub open spec fn source(place: nat, whole: Seq<usize>, own: Seq<usize>) -> nat
    decreases own.len(),
{
    if own.len() == 0 || whole.len() == 0 {
        0
    } else {
        source(place / (whole.last() as nat), whole.drop_last(), own.drop_last()) * (
        own.last() as nat) + (place % (whole.last() as nat)) % (own.last() as nat)
    }
}

/// The elements of an array of shape `own`, stretched over `whole`.
pub open spec fn stretched(data: Seq<u64>, own: Seq<usize>, whole: Seq<usize>) -> Seq<u64> {
    Seq::new(shape_product(whole), |i: int| data[source(i as nat, whole, own) as int])
}

/// A shape that is stretched over a shape without an empty axis has none
/// itself.
pub proof fn lemma_stretches_positive(own: Seq<usize>, whole: Seq<usize>)
    requires
        stretches(own, whole),
        !has_zero(whole),
    ensures
        !has_zero(own),
{
    if has_zero(own) {
        let i = choose|i: int| 0 <= i < own.len() && own[i] == 0;
        assert(own[i] == 1 || own[i] == whole[whole.len() - own.len() + i]);
        assert(whole[whole.len() - own.len() + i] == 0);
    }
}

/// The first axes of a stretched shape stretch over as many of the last of
/// the first axes of the whole.
proof fn lemma_stretches_front(own: Seq<usize>, whole: Seq<usize>, m: int)
    requires
        stretches(own, whole),
        0 <= m <= own.len(),
    ensures
        stretches(own.take(m), whole.take(whole.len() - own.len() + m)),
{
    let front = own.take(m);
    let over = whole.take(whole.len() - own.len() + m);
    assert forall|j: int| 0 <= j < front.len() implies #[trigger] front[j] == 1 || front[j]
        == over[over.len() - front.len() + j] by {
        assert(own[j] == 1 || own[j] == whole[whole.len() - own.len() + j]);
    }
}

/// The source of a place of the whole is a place of the array.
pub proof fn lemma_source_bound(place: nat, whole: Seq<usize>, own: Seq<usize>)
    requires
        stretches(own, whole),
        place < shape_product(whole),
    ensures
        source(place, whole, own) < shape_product(own),
    decreases own.len(),
{
    if own.len() > 0 {
        let d = whole.last() as nat;
        let e = own.last() as nat;
        let outer = shape_product(whole.drop_last());
        let inner = shape_product(own.drop_last());
        assert(own[own.len() - 1] == 1 || own[own.len() - 1] == whole[whole.len() - own.len()
            + own.len() - 1]);
        assert(d > 0) by {
            if d == 0 {
                assert(outer * 0 == 0);
            }
        }
        assert(e > 0);
        assert(place / d < outer) by {
            lemma_fundamental_div_mod(place as int, d as int);
            lemma_mod_bound(place as int, d as int);
            if place / d >= outer {
                lemma_mul_inequality(outer as int, (place / d) as int, d as int);
                lemma_mul_is_commutative(d as int, (place / d) as int);
            }
        }
        assert(stretches(own.drop_last(), whole.drop_last())) by {
            let front = own.drop_last();
            let over = whole.drop_last();
            assert forall|j: int| 0 <= j < front.len() implies #[trigger] front[j] == 1
                || front[j] == over[over.len() - front.len() + j] by {
                assert(own[j] == 1 || own[j] == whole[whole.len() - own.len() + j]);
            }
        }
        lemma_source_bound(place / d, whole.drop_last(), own.drop_last());
        let rest = source(place / d, whole.drop_last(), own.drop_last());
        let c = (place % d) % e;
        lemma_mod_bound((place % d) as int, e as int);
        assert(rest * e + c < inner * e) by {
            lemma_mul_inequality((rest + 1) as int, inner as int, e as int);
            lemma_mul_is_distributive_add_other_way(e as int, rest as int, 1);
        }
    }
}

/// Finds the source of a place among the first `m` axes of the array.
fn source_within(place: usize, whole: &Vec<usize>, own: &Vec<usize>, m: usize) -> (index: usize)
    requires
        stretches(own@, whole@),
        m <= own.len(),
        !has_zero(whole@),
        place < shape_product(whole@.take(whole.len() - own.len() + m)),
        shape_product(own@) <= usize::MAX,
    ensures
        index == source(place as nat, whole@.take(whole.len() - own.len() + m), own@.take(m as int)),
    decreases m,
{
    if m == 0 {
        return 0;
    }
    let ghost front = own@.take(m as int);
    let ghost over = whole@.take(whole.len() - own.len() + m);
    let d = whole[whole.len() - own.len() + m - 1];
    let e = own[m - 1];
    proof {
        lemma_stretches_front(own@, whole@, m as int);
        lemma_stretches_positive(own@, whole@);
        lemma_product_prefix(own@, m as int);
        lemma_source_bound(place as nat, over, front);
        assert(over.drop_last() == whole@.take(whole.len() - own.len() + m - 1));
        assert(front.drop_last() == own@.take(m - 1));
        assert(over.last() == d);
        assert(front.last() == e);
        assert(own@[m - 1] != 0);
        assert(whole@[whole.len() - own.len() + m - 1] != 0);
        let outer = shape_product(over.drop_last());
        assert(place / d < outer) by {
            lemma_fundamental_div_mod(place as int, d as int);
            lemma_mod_bound(place as int, d as int);
            if place / d >= outer {
                lemma_mul_inequality(outer as int, (place / d) as int, d as int);
                lemma_mul_is_commutative(d as int, (place / d) as int);
            }
        }
    }
    let rest = source_within(place / d, whole, own, m - 1);
    let low = (place % d) % e;
    assert(rest * e + low == source(place as nat, over, front));
    rest * e + low
}

/// Stretches the elements of an array of shape `own` over `whole`, which has
/// `count` places.
pub fn stretch(data: &Vec<u64>, own: &Vec<usize>, whole: &Vec<usize>, count: usize) -> (out: Vec<
    u64,
>)
    requires
        stretches(own@, whole@),
        data@.len() == shape_product(own@),
        count == shape_product(whole@),
    ensures
        out@ == stretched(data@, own@, whole@),
{
    let held = data.len();
    let mut out: Vec<u64> = Vec::new();
    let mut i: usize = 0;
    while i < count
        invariant
            i <= count,
            stretches(own@, whole@),
            data@.len() == shape_product(own@),
            held == data@.len(),
            count == shape_product(whole@),
            out@.len() == i,
            forall|j: int|
                0 <= j < i ==> #[trigger] out@[j] == data@[source(j as nat, whole@, own@) as int],
        decreases count - i,
    {
        proof {
            if has_zero(whole@) {
                lemma_product_zero(whole@);
            }
            assert(whole@.take(whole.len() - own.len() + own.len()) == whole@);
            assert(own@.take(own.len() as int) == own@);
            lemma_source_bound(i as nat, whole@, own@);
        }
        let from = source_within(i, whole, own, own.len());
        out.push(data[from]);
        i += 1;
    }
    assert(out@ =~= stretched(data@, own@, whole@));
    out
}

/// Each of two compatible shapes stretches over the shape they broadcast
/// to.
pub proof fn lemma_broadcast_stretches(a: Seq<usize>, b: Seq<usize>)
    requires
        compatible(a, b),
    ensures
        stretches(a, broadcast_spec(a, b)),
        stretches(b, broadcast_spec(a, b)),
{
    let rank = common_rank(a, b);
    let whole = broadcast_spec(a, b);
    assert forall|j: int| 0 <= j < a.len() implies #[trigger] a[j] == 1 || a[j] == whole[whole.len()
        - a.len() + j] by {
        let i = rank - a.len() + j;
        assert(padded(a, rank, i) == a[j]);
    }
    assert forall|j: int| 0 <= j < b.len() implies #[trigger] b[j] == 1 || b[j] == whole[whole.len()
        - b.len() + j] by {
        let i = rank - b.len() + j;
        assert(padded(b, rank, i) == b[j]);
        assert(fit(padded(a, rank, i), padded(b, rank, i)));
    }
}

} // verus!
