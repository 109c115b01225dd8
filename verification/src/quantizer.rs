//! Vectors compressed to one byte per coordinate.
//!
//! A floating-point number is carried as its bit pattern: `u64` for the 64-bit format, `u32` for
//! the 32-bit one. The order of the numbers is read off the bits.

use vstd::prelude::*;

verus! {

/// How many levels a coordinate is quantized to.
pub const CODEBOOK_LEVELS: usize = 256;

/// The bits of the 32-bit number 1.
pub const ONE: u32 = 0x3f80_0000;

/// The bits, in the 64-bit format, of the number up to which a product counts as zero: 1e-6, as
/// the 32-bit format rounds it.
pub const LENGTH_FLOOR: u64 = 0x3eb0_c6f7_a000_0000;

/// The bits of the number, its sign left out. They grow with the number's absolute value.
pub open spec fn magnitude(bits: u64) -> int {
    if bits >= 0x8000_0000_0000_0000 {
        bits - 0x8000_0000_0000_0000
    } else {
        bits as int
    }
}

/// Whether the bits stand for no number.
pub open spec fn is_nan(bits: u64) -> bool {
    magnitude(bits) > 0x7ff0_0000_0000_0000
}

/// Whether the bits stand for a number that is finite.
pub open spec fn is_finite(bits: u64) -> bool {
    magnitude(bits) < 0x7ff0_0000_0000_0000
}

/// Where the number comes in the order of the numbers; both zeros come at the same place.
pub open spec fn order_key(bits: u64) -> int {
    if bits >= 0x8000_0000_0000_0000 {
        -magnitude(bits)
    } else {
        magnitude(bits)
    }
}

/// Whether `a <= b`, as numbers.
pub open spec fn at_most(a: u64, b: u64) -> bool {
    !is_nan(a) && !is_nan(b) && order_key(a) <= order_key(b)
}

/// How many of `boundaries` are at most `x`.
pub open spec fn count_at_most(boundaries: Seq<u64>, x: u64) -> nat
    decreases boundaries.len(),
{
    if boundaries.len() == 0 {
        0
    } else {
        count_at_most(boundaries.drop_last(), x) + (if at_most(boundaries.last(), x) {
            1nat
        } else {
            0nat
        })
    }
}

/// Whether `boundaries` are numbers, in ascending order.
pub open spec fn is_ascending(boundaries: Seq<u64>) -> bool {
    &&& forall|i: int| 0 <= i < boundaries.len() ==> !is_nan(#[trigger] boundaries[i])
    &&& forall|i: int, j: int|
        0 <= i < j < boundaries.len() ==> order_key(#[trigger] boundaries[i]) <= order_key(
            #[trigger] boundaries[j],
        )
}

/// The bucket that `x` falls in: the number of boundaries at or below it, within the levels.
pub open spec fn bucket(boundaries: Seq<u64>, x: u64) -> int {
    let n = count_at_most(boundaries, x);
    if n < CODEBOOK_LEVELS {
        n as int
    } else {
        CODEBOOK_LEVELS - 1
    }
}

/// Whether `x` comes behind the boundary before bucket `b` and not behind the one after it, as far
/// as there are such boundaries. The last level takes all buckets from its own on.
pub open spec fn is_between(boundaries: Seq<u64>, x: u64, b: int) -> bool {
    &&& 0 <= b <= boundaries.len()
    &&& 0 < b < CODEBOOK_LEVELS - 1 ==> at_most(boundaries[b - 1], x)
    &&& b < boundaries.len() && b < CODEBOOK_LEVELS - 1 ==> !at_most(boundaries[b], x)
}

/// Whether `b` is a bucket for `x`: one between whose boundaries `x` is, and the one that it falls
/// in, where the boundaries ascend.
pub open spec fn is_bucket_for(boundaries: Seq<u64>, x: u64, b: int) -> bool {
    &&& is_between(boundaries, x, b)
    &&& is_ascending(boundaries) ==> b == bucket(boundaries, x)
}

/// The factor for a vector whose product with what it decodes to is `self_dot`: the inverse of the
/// product, unless the product counts as zero or is no number.
pub open spec fn corrected(self_dot: u64, inverse: u32) -> u32 {
    if !is_nan(self_dot) && magnitude(self_dot) > LENGTH_FLOOR {
        inverse
    } else {
        ONE
    }
}

/// The bits of the number, its sign left out.
fn magnitude_of(bits: u64) -> (r: u64)
    ensures
        r == magnitude(bits),
        r < 0x8000_0000_0000_0000,
{
    if bits >= 0x8000_0000_0000_0000 {
        bits - 0x8000_0000_0000_0000
    } else {
        bits
    }
}

/// Where the number comes in the order of the numbers.
pub fn order_key_of(bits: u64) -> (r: i64)
    ensures
        r == order_key(bits),
{
    let m: i64 = magnitude_of(bits) as i64;
    if bits >= 0x8000_0000_0000_0000 {
        -m
    } else {
        m
    }
}

/// Whether the bits stand for a number that is finite.
pub fn is_finite_number(bits: u64) -> (r: bool)
    ensures
        r == is_finite(bits),
{
    magnitude_of(bits) < 0x7ff0_0000_0000_0000
}

/// Whether the bits stand for no number.
pub fn is_no_number(bits: u64) -> (r: bool)
    ensures
        r == is_nan(bits),
{
    magnitude_of(bits) > 0x7ff0_0000_0000_0000
}

/// Whether `a <= b`, as numbers.
fn is_at_most(a: u64, b: u64) -> (r: bool)
    ensures
        r == at_most(a, b),
{
    !is_no_number(a) && !is_no_number(b) && order_key_of(a) <= order_key_of(b)
}

/// The boundaries at or below `x` are counted by where they end.
pub proof fn lemma_count_at_most(boundaries: Seq<u64>, x: u64, p: int)
    requires
        0 <= p <= boundaries.len(),
        forall|i: int| 0 <= i < p ==> at_most(#[trigger] boundaries[i], x),
        forall|i: int| p <= i < boundaries.len() ==> !at_most(#[trigger] boundaries[i], x),
    ensures
        count_at_most(boundaries, x) == p,
    decreases boundaries.len(),
{
    if boundaries.len() > 0 {
        let before = boundaries.drop_last();
        let q = if p == boundaries.len() {
            p - 1
        } else {
            p
        };
        assert forall|i: int| 0 <= i < q implies at_most(#[trigger] before[i], x) by {
            assert(before[i] == boundaries[i]);
        }
        assert forall|i: int| q <= i < before.len() implies !at_most(#[trigger] before[i], x) by {
            assert(before[i] == boundaries[i]);
        }
        lemma_count_at_most(before, x, q);
        assert(boundaries.last() == boundaries[boundaries.len() - 1]);
    }
}

/// The bucket that `x` falls in. Where the boundaries do not ascend, it is one between whose
/// boundaries `x` is.
pub fn quantize_coordinate(x: u64, boundaries: &Vec<u64>) -> (r: u8)
    ensures
        is_bucket_for(boundaries@, x, r as int),
{
    let n: usize = boundaries.len();
    let mut low: usize = 0;
    let mut high: usize = n;
    while low < high
        invariant
            low <= high <= n == boundaries@.len(),
            low > 0 ==> at_most(boundaries@[low - 1], x),
            high < n ==> !at_most(boundaries@[high as int], x),
            is_ascending(boundaries@) ==> (forall|i: int|
                0 <= i < low ==> at_most(#[trigger] boundaries@[i], x)),
            is_ascending(boundaries@) ==> (forall|i: int|
                high <= i < n ==> !at_most(#[trigger] boundaries@[i], x)),
        decreases high - low,
    {
        let mid: usize = low + (high - low) / 2;
        if is_at_most(boundaries[mid], x) {
            assert forall|i: int| is_ascending(boundaries@) && 0 <= i < mid + 1 implies at_most(
                #[trigger] boundaries@[i],
                x,
            ) by {
                if i < mid {
                    assert(order_key(boundaries@[i]) <= order_key(boundaries@[mid as int]));
                }
            }
            low = mid + 1;
        } else {
            assert forall|i: int| is_ascending(boundaries@) && mid <= i < n implies !at_most(
                #[trigger] boundaries@[i],
                x,
            ) by {
                if i > mid {
                    assert(order_key(boundaries@[mid as int]) <= order_key(boundaries@[i]));
                }
            }
            high = mid;
        }
    }
    proof {
        if is_ascending(boundaries@) {
            lemma_count_at_most(boundaries@, x, low as int);
        }
    }
    if low < CODEBOOK_LEVELS {
        low as u8
    } else {
        255u8
    }
}

/// A vector at one byte per coordinate, with the factor that makes up for the length lost by
/// quantizing it.
pub struct QuantizedVector {
    data: Vec<u8>,
    correction: u32,
}

/// What a `QuantizedVector` stands for: the bucket of each coordinate, and the bits of the factor.
#[verifier::ext_equal]
pub struct QuantizedView {
    pub buckets: Seq<u8>,
    pub correction: u32,
}

impl View for QuantizedVector {
    type V = QuantizedView;

    closed spec fn view(&self) -> QuantizedView {
        QuantizedView { buckets: self.data@, correction: self.correction }
    }
}

impl QuantizedVector {
    /// Quantizes each coordinate of a rotated vector, with 1 as the factor.
    pub fn encode(rotated: &Vec<u64>, boundaries: &Vec<u64>) -> (r: QuantizedVector)
        ensures
            r@.buckets.len() == rotated@.len(),
            forall|i: int|
                0 <= i < rotated@.len() ==> is_bucket_for(
                    boundaries@,
                    rotated@[i],
                    #[trigger] r@.buckets[i] as int,
                ),
            r@.correction == ONE,
    {
        let n: usize = rotated.len();
        let mut data: Vec<u8> = Vec::new();
        let mut i: usize = 0;
        while i < n
            invariant
                i <= n == rotated@.len(),
                data@.len() == i,
                forall|j: int|
                    0 <= j < i ==> is_bucket_for(
                        boundaries@,
                        rotated@[j],
                        #[trigger] data@[j] as int,
                    ),
            decreases n - i,
        {
            data.push(quantize_coordinate(rotated[i], boundaries));
            i = i + 1;
        }
        QuantizedVector { data, correction: ONE }
    }

    /// Sets the factor, given the product of the rotated vector with what it decodes to: its
    /// inverse, unless the product counts as zero.
    pub fn renormalize(&mut self, self_dot: u64, inverse: u32)
        ensures
            final(self)@.buckets == old(self)@.buckets,
            final(self)@.correction == corrected(self_dot, inverse),
    {
        if !is_no_number(self_dot) && magnitude_of(self_dot) > LENGTH_FLOOR {
            self.correction = inverse;
        } else {
            self.correction = ONE;
        }
    }

    /// The factor that makes up for the length lost by quantizing.
    pub fn correction(&self) -> (r: u32)
        ensures
            r == self@.correction,
    {
        self.correction
    }

    /// The vector that the buckets stand for: the centroid of each.
    pub fn decode(&self, centroids: &Vec<u64>) -> (r: Vec<u64>)
        requires
            centroids@.len() == CODEBOOK_LEVELS,
        ensures
            r@.len() == self@.buckets.len(),
            forall|i: int|
                0 <= i < r@.len() ==> #[trigger] r@[i] == centroids@[self@.buckets[i] as int],
    {
        let n: usize = self.data.len();
        let mut out: Vec<u64> = Vec::new();
        let mut i: usize = 0;
        while i < n
            invariant
                i <= n == self.data@.len(),
                centroids@.len() == CODEBOOK_LEVELS,
                out@.len() == i,
                forall|j: int|
                    0 <= j < i ==> #[trigger] out@[j] == centroids@[self.data@[j] as int],
            decreases n - i,
        {
            out.push(centroids[self.data[i] as usize]);
            i = i + 1;
        }
        out
    }

    /// How many coordinates the vector has.
    pub fn dim(&self) -> (r: usize)
        ensures
            r == self@.buckets.len(),
    {
        self.data.len()
    }

    /// How many bytes the vector takes: one per coordinate, and four for the factor.
    pub fn byte_size(&self) -> (r: usize)
        requires
            self@.buckets.len() + 4 <= usize::MAX,
        ensures
            r == vector_bytes(self@),
    {
        self.data.len() + 4
    }
}

/// How many bytes a quantized vector takes.
pub open spec fn vector_bytes(v: QuantizedView) -> nat {
    v.buckets.len() + 4
}

/// A greater number never falls in a lower bucket.
pub proof fn law_buckets_follow_the_order(boundaries: Seq<u64>, x: u64, y: u64)
    requires
        at_most(x, y),
    ensures
        bucket(boundaries, x) <= bucket(boundaries, y),
{
    lemma_counts_follow_the_order(boundaries, x, y);
}

proof fn lemma_counts_follow_the_order(boundaries: Seq<u64>, x: u64, y: u64)
    requires
        at_most(x, y),
    ensures
        count_at_most(boundaries, x) <= count_at_most(boundaries, y),
    decreases boundaries.len(),
{
    if boundaries.len() > 0 {
        lemma_counts_follow_the_order(boundaries.drop_last(), x, y);
    }
}

/// A quantized vector takes less than a third of the bytes of its coordinates in the 32-bit
/// format, from 13 coordinates on.
pub proof fn law_quantized_vectors_are_small(v: QuantizedView)
    requires
        v.buckets.len() >= 13,
    ensures
        3 * vector_bytes(v) < 4 * v.buckets.len(),
{
}

} // verus!
