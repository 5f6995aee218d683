//! Numbers as IEEE-754 binary64 bit patterns, and their conversions to
//! bytes, worked out in integer arithmetic.
//!
//! A pattern holds a sign bit, eleven exponent bits and fifty-two fraction
//! bits. A finite pattern denotes `significand * 2^(scale)`, negated when the
//! sign bit is set.

use vstd::prelude::*;
use vstd::arithmetic::power2::*;
use vstd::bits::lemma_u64_shr_is_div;

verus! {

/// The pattern with only the sign bit set: every pattern at or above it is
/// negative.
pub const SIGN_BIT: u64 = 0x8000_0000_0000_0000;

/// Two to the fifty-second: the weight of the lowest exponent bit, and the
/// hidden bit of a normal significand.
pub const HIDDEN_BIT: u64 = 0x0010_0000_0000_0000;

/// Whether the sign bit is set.
pub open spec fn is_negative(bits: u64) -> bool {
    bits >= SIGN_BIT
}

/// The biased exponent, from 0 to 2047.
pub open spec fn exponent(bits: u64) -> nat {
    ((bits % SIGN_BIT) / HIDDEN_BIT) as nat
}

/// The fraction bits.
pub open spec fn fraction(bits: u64) -> nat {
    (bits % HIDDEN_BIT) as nat
}

/// Whether the pattern is a NaN.
pub open spec fn is_nan(bits: u64) -> bool {
    exponent(bits) == 2047 && fraction(bits) != 0
}

/// Whether the pattern is an infinity.
pub open spec fn is_infinite(bits: u64) -> bool {
    exponent(bits) == 2047 && fraction(bits) == 0
}

/// The significand of a finite pattern: the fraction, with the hidden bit
/// for a normal number.
pub open spec fn significand(bits: u64) -> nat {
    if exponent(bits) == 0 {
        fraction(bits)
    } else {
        fraction(bits) + HIDDEN_BIT as nat
    }
}

/// The power of two by which the significand of a finite pattern is scaled.
pub open spec fn scale(bits: u64) -> int {
    if exponent(bits) == 0 {
        -1074
    } else {
        exponent(bits) - 1075
    }
}

/// The integer part of `m * 2^e`.
pub open spec fn floor_scaled(m: nat, e: int) -> nat {
    if e >= 0 {
        m * pow2(e as nat)
    } else {
        m / pow2((-e) as nat)
    }
}

/// The byte nearest to `n` from below, 255 for anything larger.
pub open spec fn saturate(n: nat) -> u8 {
    if n > 255 {
        255
    } else {
        n as u8
    }
}

/// The byte that a number becomes when it is cut down to one: its integer
/// part, saturated into `0..=255`; zero for a NaN and for every negative
/// number.
pub open spec fn as_byte(bits: u64) -> u8 {
    if is_nan(bits) || is_negative(bits) {
        0
    } else if is_infinite(bits) {
        255
    } else {
        saturate(floor_scaled(significand(bits), scale(bits)))
    }
}

/// `p / d`, rounded to the nearest integer, a tie going to the even one.
pub open spec fn round_half_even(p: nat, d: nat) -> nat {
    let q = p / d;
    let r = p % d;
    if 2 * r > d || (2 * r == d && q % 2 == 1) {
        q + 1
    } else {
        q
    }
}

/// By how many bits the exact product of a normal significand and 255 is
/// longer than the fifty-three bits a significand can hold.
pub open spec fn excess_bits(product: nat) -> nat {
    if product < 0x1000_0000_0000_0000 {
        7
    } else {
        8
    }
}

/// The byte for a colour intensity: the integer part of the binary64 product
/// of the number and 255, saturated into `0..=255`; zero for a NaN and for
/// every negative number.
///
/// The product of a normal number `m * 2^s` and 255 is `(255 m) * 2^s`,
/// rounded to fifty-three significant bits; a subnormal number times 255 is
/// still far below one.
pub open spec fn intensity_byte(bits: u64) -> u8 {
    if is_nan(bits) || is_negative(bits) {
        0
    } else if is_infinite(bits) {
        255
    } else if exponent(bits) == 0 {
        0
    } else {
        let product = significand(bits) * 255;
        let excess = excess_bits(product);
        let rounded = round_half_even(product, pow2(excess));
        saturate(floor_scaled(rounded, scale(bits) + excess))
    }
}

proof fn lemma_small_quotient(m: nat, k: nat, limit: nat)
    requires
        m < pow2(limit),
        limit <= k,
    ensures
        m / pow2(k) == 0,
{
    if limit < k {
        lemma_pow2_strictly_increases(limit, k);
    }
    let d = pow2(k);
    assert(m / d == 0) by (nonlinear_arith)
        requires
            m < d,
    ;
}

proof fn lemma_large_product(m: nat, j: nat)
    requires
        m > 255,
    ensures
        m * pow2(j) > 255,
{
    lemma_pow2_pos(j);
    let d = pow2(j);
    assert(m * d > 255) by (nonlinear_arith)
        requires
            m > 255,
            d >= 1,
    ;
}

/// Shifts a significand of at most fifty-four bits right by `k` places and
/// saturates the result into a byte.
fn shifted_byte(m: u64, k: u64) -> (b: u8)
    requires
        m <= 0x0020_0000_0000_0000,
        k >= 1,
    ensures
        b == saturate(floor_scaled(m as nat, -(k as int))),
{
    proof {
        lemma2_to64();
        lemma2_to64_rest();
    }
    if k >= 54 {
        proof {
            lemma_small_quotient(m as nat, k as nat, 54);
        }
        0
    } else {
        proof {
            lemma_u64_shr_is_div(m, k);
        }
        let v: u64 = m >> k;
        if v > 255 {
            255
        } else {
            v as u8
        }
    }
}

/// The byte that a number becomes when it is cut down to one.
pub fn to_byte(bits: u64) -> (b: u8)
    ensures
        b == as_byte(bits),
{
    if bits >= SIGN_BIT {
        return 0;
    }
    let exp: u64 = bits / HIDDEN_BIT;
    let frac: u64 = bits % HIDDEN_BIT;
    if exp == 2047 {
        return if frac != 0 {
            0
        } else {
            255
        };
    }
    proof {
        lemma2_to64();
        lemma2_to64_rest();
    }
    if exp == 0 {
        proof {
            lemma_small_quotient(frac as nat, 1074, 52);
        }
        return 0;
    }
    let m: u64 = frac + HIDDEN_BIT;
    if exp >= 1075 {
        proof {
            lemma_large_product(m as nat, (exp - 1075) as nat);
        }
        return 255;
    }
    shifted_byte(m, 1075 - exp)
}

/// The byte for a colour intensity.
pub fn to_intensity(bits: u64) -> (b: u8)
    ensures
        b == intensity_byte(bits),
{
    if bits >= SIGN_BIT {
        return 0;
    }
    let exp: u64 = bits / HIDDEN_BIT;
    let frac: u64 = bits % HIDDEN_BIT;
    if exp == 2047 {
        return if frac != 0 {
            0
        } else {
            255
        };
    }
    if exp == 0 {
        return 0;
    }
    proof {
        lemma2_to64();
        lemma2_to64_rest();
    }
    let m: u64 = frac + HIDDEN_BIT;
    let product: u64 = m * 255;
    let (excess, q, twice, unit): (u64, u64, u64, u64) = if product < 0x1000_0000_0000_0000 {
        (7, product / 128, 2 * (product % 128), 128)
    } else {
        (8, product / 256, 2 * (product % 256), 256)
    };
    let rounded: u64 = if twice > unit || (twice == unit && q % 2 == 1) {
        q + 1
    } else {
        q
    };
    assert(rounded == round_half_even(product as nat, pow2(excess as nat)));
    assert(0x0010_0000_0000_0000 <= rounded <= 0x0020_0000_0000_0000);
    if exp + excess >= 1075 {
        proof {
            lemma_large_product(rounded as nat, (exp + excess - 1075) as nat);
        }
        return 255;
    }
    shifted_byte(rounded, 1075 - (exp + excess))
}

/// The pattern of the number equal to a byte.
pub open spec fn of_byte(b: u8) -> u64 {
    if b == 0 {
        0
    } else {
        let top = top_bit(b as nat);
        ((1023 + top) * HIDDEN_BIT + (b - pow2(top)) * pow2((52 - top) as nat)) as u64
    }
}

/// The position of the highest set bit of a number from 1 to 255.
pub open spec fn top_bit(n: nat) -> nat {
    if n >= 128 {
        7
    } else if n >= 64 {
        6
    } else if n >= 32 {
        5
    } else if n >= 16 {
        4
    } else if n >= 8 {
        3
    } else if n >= 4 {
        2
    } else if n >= 2 {
        1
    } else {
        0
    }
}

/// Puts together the pattern of the whole number `w`, whose highest set bit
/// has the weight `weight == 2^top`.
fn assemble(w: u64, top: u64, weight: u64, lift: u64) -> (bits: u64)
    requires
        top <= 7,
        weight == pow2(top as nat),
        lift == pow2((52 - top) as nat),
        weight * lift == HIDDEN_BIT,
        weight <= w < 2 * weight,
        top == top_bit(w as nat),
        w <= 255,
    ensures
        bits == of_byte(w as u8),
        as_byte(bits) == w,
{
    proof {
        lemma_pow2_pos((52 - top) as nat);
    }
    assert((w - weight) * lift < HIDDEN_BIT && (w - weight) * lift + HIDDEN_BIT == w * lift)
        by (nonlinear_arith)
        requires
            weight * lift == HIDDEN_BIT,
            weight <= w < 2 * weight,
            lift > 0,
    ;
    let frac: u64 = (w - weight) * lift;
    let bits: u64 = (1023 + top) * HIDDEN_BIT + frac;
    proof {
        assert(bits < SIGN_BIT);
        assert(exponent(bits) == 1023 + top);
        assert(fraction(bits) == frac);
        let m = significand(bits);
        assert(m == w * lift);
        assert(scale(bits) == top - 52);
        assert(m / (lift as nat) == w as nat) by (nonlinear_arith)
            requires
                m == w * lift,
                lift > 0,
        ;
    }
    bits
}

/// The pattern of the number equal to a byte. Cutting it down to a byte
/// again gives the byte back.
pub fn from_byte(b: u8) -> (bits: u64)
    ensures
        bits == of_byte(b),
        as_byte(bits) == b,
{
    proof {
        lemma2_to64();
        lemma2_to64_rest();
    }
    let w: u64 = b as u64;
    if b == 0 {
        proof {
            lemma_small_quotient(0, 1074, 52);
        }
        0
    } else if b >= 128 {
        assemble(w, 7, 128, 0x0000_2000_0000_0000)
    } else if b >= 64 {
        assemble(w, 6, 64, 0x0000_4000_0000_0000)
    } else if b >= 32 {
        assemble(w, 5, 32, 0x0000_8000_0000_0000)
    } else if b >= 16 {
        assemble(w, 4, 16, 0x0001_0000_0000_0000)
    } else if b >= 8 {
        assemble(w, 3, 8, 0x0002_0000_0000_0000)
    } else if b >= 4 {
        assemble(w, 2, 4, 0x0004_0000_0000_0000)
    } else if b >= 2 {
        assemble(w, 1, 2, 0x0008_0000_0000_0000)
    } else {
        assemble(w, 0, 1, 0x0010_0000_0000_0000)
    }
}

/// How often a whole number from one on must be doubled to reach two to
/// the fifty-second.
pub open spec fn doublings(n: nat) -> nat
    decreases
            (if n < HIDDEN_BIT {
                HIDDEN_BIT - n
            } else {
                0
            }),
{
    if n == 0 || n >= HIDDEN_BIT {
        0
    } else {
        1 + doublings(2 * n)
    }
}

/// The pattern of a whole number below two to the fifty-third: zero for
/// zero; for any other the exponent that brings the number, doubled until
/// its highest bit is the hidden bit, back to itself.
pub open spec fn of_whole(n: nat) -> u64 {
    if n == 0 {
        0
    } else {
        ((1075 - doublings(n)) * HIDDEN_BIT + (n * pow2(doublings(n)) - HIDDEN_BIT)) as u64
    }
}

/// Whether a pattern denotes the whole number `n`: it is not negative, and
/// its significand is `n` times the power of two that its scale takes away.
pub open spec fn is_whole(bits: u64, n: nat) -> bool {
    &&& !is_negative(bits)
    &&& scale(bits) <= 0
    &&& significand(bits) == n * pow2((-scale(bits)) as nat)
}

/// The pattern of a whole number below two to the fifty-third, which every
/// such number has exactly.
pub fn from_whole(n: u64) -> (bits: u64)
    requires
        n < 2 * HIDDEN_BIT,
    ensures
        bits == of_whole(n as nat),
        is_whole(bits, n as nat),
{
    proof {
        lemma2_to64();
        lemma2_to64_rest();
    }
    if n == 0 {
        assert(0 * pow2(1074) == 0) by (nonlinear_arith);
        return 0;
    }
    let mut m: u64 = n;
    let mut k: u64 = 0;
    assert(n * pow2(0) == n) by (nonlinear_arith)
        requires
            pow2(0) == 1,
    ;
    while m < HIDDEN_BIT
        invariant
            1 <= n,
            m == n * pow2(k as nat),
            pow2(k as nat) <= m < 2 * HIDDEN_BIT,
            k <= 52,
            doublings(n as nat) == k + doublings(m as nat),
            pow2(52) == HIDDEN_BIT,
        decreases 52 - k,
    {
        proof {
            lemma_pow2_pos(k as nat);
            assert(doublings(m as nat) == 1 + doublings(2 * (m as nat)));
            if k >= 52 {
                if k > 52 {
                    lemma_pow2_strictly_increases(52, k as nat);
                }
                assert(false);
            }
            lemma_pow2_unfold((k + 1) as nat);
            assert(n * (2 * pow2(k as nat)) == 2 * (n * pow2(k as nat))) by (nonlinear_arith);
        }
        m = m * 2;
        k = k + 1;
    }
    let bits: u64 = (1075 - k) * HIDDEN_BIT + (m - HIDDEN_BIT);
    proof {
        assert(doublings(m as nat) == 0);
        assert(bits < SIGN_BIT);
        assert(exponent(bits) == 1075 - k);
        assert(fraction(bits) == m - HIDDEN_BIT);
        assert(significand(bits) == m);
        assert(scale(bits) == -(k as int));
    }
    bits
}

} // verus!
