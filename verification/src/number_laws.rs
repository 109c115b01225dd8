//! What the order of numbers, the buckets and the ranking come to, on the bits themselves.

use vstd::arithmetic::power2::{
    lemma_pow2_pos, lemma_pow2_strictly_increases, lemma_pow2_unfold, pow2,
};
use vstd::prelude::*;

use crate::quantizer::{
    at_most, bucket, corrected, is_ascending, is_bucket_for, is_finite, is_nan, lemma_count_at_most,
    magnitude, order_key, vector_bytes, QuantizedView, CODEBOOK_LEVELS, ONE,
};

verus! {

/// A number is finite unless its exponent is all ones; with such an exponent it is infinite where
/// its fraction is zero, and else no number.
pub proof fn law_exponents_tell_the_numbers(bits: u64)
    ensures
        is_finite(bits) <==> (bits / 0x10_0000_0000_0000) % 0x800 != 0x7ff,
        is_nan(bits) <==> (bits / 0x10_0000_0000_0000) % 0x800 == 0x7ff && bits
            % 0x10_0000_0000_0000 != 0,
{
}

/// Which of two numbers comes first in the order: of two that are not negative the one with the
/// smaller bits, of two negative ones the one with the greater bits, and a negative one before one
/// that is not. Only the two zeros come at the same place.
pub proof fn law_bits_give_the_order(a: u64, b: u64)
    ensures
        a < 0x8000_0000_0000_0000 && b < 0x8000_0000_0000_0000 ==> (order_key(a) < order_key(b)
            <==> a < b),
        a > 0x8000_0000_0000_0000 && b > 0x8000_0000_0000_0000 ==> (order_key(a) < order_key(b)
            <==> b < a),
        a > 0x8000_0000_0000_0000 && b < 0x8000_0000_0000_0000 ==> order_key(a) < order_key(b),
        order_key(0x8000_0000_0000_0000) == order_key(0),
        at_most(a, b) <==> !is_nan(a) && !is_nan(b) && order_key(a) <= order_key(b),
{
}

/// The absolute value of a finite number, in units of the smallest positive one.
pub open spec fn units(bits: u64) -> nat {
    let exponent = (bits / 0x10_0000_0000_0000) % 0x800;
    let fraction = bits % 0x10_0000_0000_0000;
    if exponent == 0 {
        fraction as nat
    } else {
        (0x10_0000_0000_0000 + fraction) as nat * pow2((exponent - 1) as nat)
    }
}

/// The value of a finite number, in units of the smallest positive one.
pub open spec fn value_of(bits: u64) -> int {
    if bits / 0x8000_0000_0000_0000 == 1 {
        -(units(bits) as int)
    } else {
        units(bits) as int
    }
}

proof fn lemma_units_grow(a: u64, b: u64)
    requires
        a < b < 0x8000_0000_0000_0000,
    ensures
        units(a) < units(b),
{
    let e = (a / 0x10_0000_0000_0000) % 0x800;
    let f = a % 0x10_0000_0000_0000;
    let g = (b / 0x10_0000_0000_0000) % 0x800;
    let h = b % 0x10_0000_0000_0000;
    assert(e < g || e == g && f < h);
    if e == g {
        if e > 0 {
            let p = pow2((e - 1) as nat);
            lemma_pow2_pos((e - 1) as nat);
            assert((0x10_0000_0000_0000 + f) * p < (0x10_0000_0000_0000 + h) * p) by (
            nonlinear_arith)
                requires
                    f < h,
                    p > 0,
            ;
        }
    } else {
        let q = pow2((g - 1) as nat);
        lemma_pow2_pos((g - 1) as nat);
        if e == 0 {
            assert(f < (0x10_0000_0000_0000 + h) * q) by (nonlinear_arith)
                requires
                    f < 0x10_0000_0000_0000,
                    h >= 0,
                    q >= 1,
            ;
        } else {
            let p = pow2((e - 1) as nat);
            lemma_pow2_pos((e - 1) as nat);
            lemma_pow2_unfold(e as nat);
            assert(pow2(e as nat) == 2 * p);
            if e < g - 1 {
                lemma_pow2_strictly_increases(e as nat, (g - 1) as nat);
            }
            assert((0x10_0000_0000_0000 + f) * p < (0x10_0000_0000_0000 + h) * q) by (
            nonlinear_arith)
                requires
                    f < 0x10_0000_0000_0000,
                    h >= 0,
                    p > 0,
                    q >= 2 * p,
            ;
        }
    }
}

/// The order of finite numbers is that of their values, and numbers of the same value come at the
/// same place.
pub proof fn law_the_order_is_that_of_the_values(a: u64, b: u64)
    requires
        is_finite(a),
        is_finite(b),
    ensures
        order_key(a) < order_key(b) <==> value_of(a) < value_of(b),
        at_most(a, b) <==> value_of(a) <= value_of(b),
{
    let m = magnitude(a) as u64;
    let n = magnitude(b) as u64;
    assert(units(a) == units(m));
    assert(units(b) == units(n));
    if m < n {
        lemma_units_grow(m, n);
    }
    if n < m {
        lemma_units_grow(n, m);
    }
    if 0 < m {
        lemma_units_grow(0, m);
    }
    if 0 < n {
        lemma_units_grow(0, n);
    }
    assert(units(0) == 0);
}

/// The bucket of a number is told by the boundaries that are at most the number: with ascending
/// boundaries these are the ones before the bucket, and no other. The last level takes in all that
/// comes behind its boundary.
pub proof fn law_buckets_are_told_by_their_boundaries(boundaries: Seq<u64>, x: u64, b: int, i: int)
    requires
        forall|j: int| 0 <= j < boundaries.len() ==> !is_nan(#[trigger] boundaries[j]),
        forall|j: int, k: int|
            0 <= j < k < boundaries.len() ==> at_most(
                #[trigger] boundaries[j],
                #[trigger] boundaries[k],
            ),
        is_bucket_for(boundaries, x, b),
        0 <= i < boundaries.len(),
        i < 255,
    ensures
        0 <= b <= 255,
        at_most(boundaries[i], x) <==> i < b,
{
    assert(is_ascending(boundaries));
    let p = lemma_split(boundaries, x);
    lemma_count(boundaries, x, p);
}

/// Whatever the boundaries, the one before the bucket of a number is at most the number, and the one
/// behind it is not, but for the last level.
pub proof fn law_numbers_are_between_the_boundaries_of_their_bucket(
    boundaries: Seq<u64>,
    x: u64,
    b: int,
)
    requires
        is_bucket_for(boundaries, x, b),
    ensures
        0 <= b <= boundaries.len(),
        0 < b < 255 ==> at_most(boundaries[b - 1], x),
        b < 255 && b < boundaries.len() ==> !at_most(boundaries[b], x),
{
}

/// Where the boundaries at most `x` end.
proof fn lemma_split(boundaries: Seq<u64>, x: u64) -> (p: int)
    requires
        is_ascending(boundaries),
    ensures
        0 <= p <= boundaries.len(),
        forall|i: int| 0 <= i < p ==> at_most(#[trigger] boundaries[i], x),
        forall|i: int| p <= i < boundaries.len() ==> !at_most(#[trigger] boundaries[i], x),
    decreases boundaries.len(),
{
    if boundaries.len() == 0 {
        0
    } else {
        let before = boundaries.drop_last();
        assert forall|i: int, j: int| 0 <= i < j < before.len() implies order_key(
            #[trigger] before[i],
        ) <= order_key(#[trigger] before[j]) by {
            assert(before[i] == boundaries[i] && before[j] == boundaries[j]);
        }
        assert forall|i: int| 0 <= i < before.len() implies !is_nan(#[trigger] before[i]) by {
            assert(before[i] == boundaries[i]);
        }
        let q = lemma_split(before, x);
        let last = boundaries.len() - 1;
        if at_most(boundaries[last], x) {
            assert forall|i: int| 0 <= i < last + 1 implies at_most(
                #[trigger] boundaries[i],
                x,
            ) by {
                if i < last {
                    assert(order_key(boundaries[i]) <= order_key(boundaries[last]));
                }
            }
            last + 1
        } else {
            assert forall|i: int| 0 <= i < q implies at_most(#[trigger] boundaries[i], x) by {
                assert(before[i] == boundaries[i]);
            }
            assert forall|i: int| q <= i < boundaries.len() implies !at_most(
                #[trigger] boundaries[i],
                x,
            ) by {
                if i < last {
                    assert(before[i] == boundaries[i]);
                }
            }
            q
        }
    }
}

proof fn lemma_count(boundaries: Seq<u64>, x: u64, p: int)
    requires
        0 <= p <= boundaries.len(),
        forall|i: int| 0 <= i < p ==> at_most(#[trigger] boundaries[i], x),
        forall|i: int| p <= i < boundaries.len() ==> !at_most(#[trigger] boundaries[i], x),
    ensures
        bucket(boundaries, x) == (if p < 255 {
            p
        } else {
            255
        }),
{
    lemma_count_at_most(boundaries, x, p);
}

/// The factor is left at one exactly where the product is no number or at most 1e-6 away from
/// zero.
pub proof fn law_only_real_products_are_inverted(self_dot: u64, inverse: u32)
    ensures
        is_nan(self_dot) ==> corrected(self_dot, inverse) == 0x3f80_0000,
        !is_nan(self_dot) && at_most(0xbeb0_c6f7_a000_0000, self_dot) && at_most(
            self_dot,
            0x3eb0_c6f7_a000_0000,
        ) ==> corrected(self_dot, inverse) == 0x3f80_0000,
        !is_nan(self_dot) && !(at_most(0xbeb0_c6f7_a000_0000, self_dot) && at_most(
            self_dot,
            0x3eb0_c6f7_a000_0000,
        )) ==> corrected(self_dot, inverse) == inverse,
{
}

/// A quantized vector takes a byte for each coordinate and four for the factor; a coordinate has
/// 256 levels.
pub proof fn law_vectors_take_a_byte_per_coordinate(v: QuantizedView)
    ensures
        vector_bytes(v) == v.buckets.len() + 4,
        CODEBOOK_LEVELS == 256,
        ONE == 0x3f80_0000,
{
}

} // verus!
