//! Validation of convolution kernels and the selection rules behind the
//! rescaling bounds.
//!
//! Kernel weights are IEEE 754 double-precision values. Verified code never
//! computes with them; it works on their raw bit patterns (`f64::to_bits`),
//! over which finiteness, sign, and the ordering of finite values are exact
//! integer predicates. The caller converts weights to bits, validates and
//! selects here, and performs the floating-point sums itself.

use vstd::prelude::*;

verus! {

/// Why a weight sequence was rejected at kernel construction.
#[derive(Debug, PartialEq, Eq, Structural)]
pub enum ConvolutionError {
    /// The weight count is not a positive perfect square with an odd root.
    ConvolutionIsNotWellShaped,
    /// Some weight is infinite or not a number.
    ConvolutionDoesNotContainNumbers,
}

/// The bit pattern of `-0.0`.
pub const F64_NEG_ZERO_BITS: u64 = 0x8000_0000_0000_0000;

/// Whether the `f64` with bit pattern `b` is finite (neither infinite nor
/// NaN): its exponent field is not all ones.
pub open spec fn f64_bits_finite(b: u64) -> bool {
    (b >> 52) & 0x7ff != 0x7ff
}

/// Whether the finite `f64` with bit pattern `b` is strictly negative:
/// its sign bit is set and it is not the negative zero. Meaningful only for
/// finite bit patterns; for a finite weight `x`, this decides `x < 0.0`,
/// and its negation decides `x >= 0.0`.
pub open spec fn f64_bits_negative(b: u64) -> bool {
    (b >> 63) == 1 && b != F64_NEG_ZERO_BITS
}

/// Ordering key for non-negative finite `f64` bit patterns: among finite
/// values with a clear sign bit, the numeric order coincides with the
/// unsigned order of the bit patterns, and the negative zero compares equal
/// to the positive zero.
pub open spec fn f64_nonneg_key(b: u64) -> u64 {
    if b == F64_NEG_ZERO_BITS {
        0
    } else {
        b
    }
}

/// Whether `n` is a perfect square with an odd, positive root: the shape of
/// a valid flattened kernel (1x1, 3x3, 5x5, ...).
pub open spec fn is_odd_square(n: int) -> bool {
    exists|s: int| 1 <= s && s % 2 == 1 && #[trigger] (s * s) == n
}

/// The square root `s` of `n` is pinned down by `s * s <= n < (s + 1)^2`.
proof fn lemma_sqrt_unique(n: int, s: int, t: int)
    requires
        0 <= s,
        0 <= t,
        s * s <= n,
        n < (s + 1) * (s + 1),
        t * t == n,
    ensures
        t == s,
{
    if t > s {
        assert(t * t >= (s + 1) * (s + 1)) by (nonlinear_arith)
            requires
                t >= s + 1,
                s >= 0,
        ;
    }
    if t < s {
        assert(t * t < s * s) by (nonlinear_arith)
            requires
                0 <= t < s,
        ;
    }
}

/// The integer square root of `n`: the largest `r` with `r * r <= n`.
fn floor_sqrt(n: u64) -> (r: u64)
    ensures
        r * r <= n < (r + 1) * (r + 1),
        r <= 0xffff_ffff,
{
    let mut lo: u64 = 0;
    let mut hi: u64 = 0xffff_ffff;
    while lo < hi
        invariant
            lo <= hi <= 0xffff_ffff,
            lo * lo <= n,
            n < (hi + 1) * (hi + 1),
        decreases hi - lo,
    {
        let mid = lo + (hi - lo + 1) / 2;
        assert(lo < mid <= hi);
        assert(mid * mid <= 0xffff_ffffu64 * 0xffff_ffffu64) by (nonlinear_arith)
            requires
                mid <= 0xffff_ffffu64,
        ;
        if mid * mid <= n {
            lo = mid;
        } else {
            hi = mid - 1;
        }
    }
    lo
}

/// Whether `len` weights form a square kernel of odd dimension: `len` must
/// be a perfect square whose root is odd (so positive). The weights
/// themselves play no part in the shape check, so it takes only their count.
pub fn is_correctly_dimensionsed(len: usize) -> (r: bool)
    ensures
        r == is_odd_square(len as int),
{
    let s = floor_sqrt(len as u64);
    let r = s * s == len as u64 && s % 2 == 1;
    proof {
        if r {
            assert(1 <= s as int && s as int % 2 == 1 && (s as int) * (s as int) == len as int);
        } else {
            if is_odd_square(len as int) {
                let t = choose|t: int| 1 <= t && t % 2 == 1 && #[trigger] (t * t) == len as int;
                lemma_sqrt_unique(len as int, s as int, t);
            }
        }
    }
    r
}

/// Whether some bit pattern in `bits` is non-finite (an infinity or a NaN).
pub fn any_non_finite(bits: &Vec<u64>) -> (r: bool)
    ensures
        r == exists|i: int| 0 <= i < bits@.len() && !f64_bits_finite(#[trigger] bits@[i]),
{
    let mut i: usize = 0;
    while i < bits.len()
        invariant
            i <= bits@.len(),
            forall|j: int| 0 <= j < i ==> f64_bits_finite(#[trigger] bits@[j]),
        decreases bits@.len() - i,
    {
        let b = bits[i];
        if (b >> 52) & 0x7ff == 0x7ff {
            return true;
        }
        i += 1;
    }
    false
}

/// Whether some weight is strictly negative (`x < 0.0`). Exact for kernels
/// whose weights are all finite.
pub fn any_negative(bits: &Vec<u64>) -> (r: bool)
    ensures
        r == exists|i: int| 0 <= i < bits@.len() && f64_bits_negative(#[trigger] bits@[i]),
{
    let mut i: usize = 0;
    while i < bits.len()
        invariant
            i <= bits@.len(),
            forall|j: int| 0 <= j < i ==> !f64_bits_negative(#[trigger] bits@[j]),
        decreases bits@.len() - i,
    {
        let b = bits[i];
        if b >> 63 == 1 && b != F64_NEG_ZERO_BITS {
            return true;
        }
        i += 1;
    }
    false
}

/// Whether some weight is non-negative (`x >= 0.0`). Exact for kernels
/// whose weights are all finite.
pub fn any_positive(bits: &Vec<u64>) -> (r: bool)
    ensures
        r == exists|i: int| 0 <= i < bits@.len() && !f64_bits_negative(#[trigger] bits@[i]),
{
    let mut i: usize = 0;
    while i < bits.len()
        invariant
            i <= bits@.len(),
            forall|j: int| 0 <= j < i ==> f64_bits_negative(#[trigger] bits@[j]),
        decreases bits@.len() - i,
    {
        let b = bits[i];
        proof {
            assert(b >> 63 == 0 || b >> 63 == 1) by (bit_vector);
        }
        if b >> 63 == 0 || b == F64_NEG_ZERO_BITS {
            return true;
        }
        i += 1;
    }
    false
}

/// The index of the smallest non-negative weight; among equal minima
/// (positive and negative zero) the earliest index wins. For finite
/// weights this selects what `min` over the non-negative weights returns.
pub fn minimal_positive(bits: &Vec<u64>) -> (r: usize)
    requires
        exists|i: int| 0 <= i < bits@.len() && !f64_bits_negative(#[trigger] bits@[i]),
    ensures
        r < bits@.len(),
        !f64_bits_negative(bits@[r as int]),
        forall|j: int|
            0 <= j < bits@.len() && !f64_bits_negative(#[trigger] bits@[j]) ==> f64_nonneg_key(
                bits@[r as int],
            ) <= f64_nonneg_key(bits@[j]),
        forall|j: int|
            0 <= j < r && !f64_bits_negative(#[trigger] bits@[j]) ==> f64_nonneg_key(
                bits@[r as int],
            ) < f64_nonneg_key(bits@[j]),
{
    let mut best: usize = 0;
    let mut found = false;
    let mut i: usize = 0;
    while i < bits.len()
        invariant
            i <= bits@.len(),
            !found ==> forall|j: int| 0 <= j < i ==> f64_bits_negative(#[trigger] bits@[j]),
            found ==> best < i && !f64_bits_negative(bits@[best as int]),
            found ==> forall|j: int|
                0 <= j < i && !f64_bits_negative(#[trigger] bits@[j]) ==> f64_nonneg_key(
                    bits@[best as int],
                ) <= f64_nonneg_key(bits@[j]),
            found ==> forall|j: int|
                0 <= j < best && !f64_bits_negative(#[trigger] bits@[j]) ==> f64_nonneg_key(
                    bits@[best as int],
                ) < f64_nonneg_key(bits@[j]),
        decreases bits@.len() - i,
    {
        let b = bits[i];
        proof {
            assert(b >> 63 == 0 || b >> 63 == 1) by (bit_vector);
        }
        if b >> 63 == 0 || b == F64_NEG_ZERO_BITS {
            let key = if b == F64_NEG_ZERO_BITS {
                0
            } else {
                b
            };
            if !found {
                best = i;
                found = true;
            } else {
                let bb = bits[best];
                let best_key = if bb == F64_NEG_ZERO_BITS {
                    0
                } else {
                    bb
                };
                if key < best_key {
                    best = i;
                }
            }
        }
        i += 1;
    }
    proof {
        if !found {
            let i0 = choose|i: int| 0 <= i < bits@.len() && !f64_bits_negative(#[trigger] bits@[i]);
            assert(f64_bits_negative(bits@[i0]));
        }
    }
    best
}

/// The index of the largest strictly negative weight; among equal maxima
/// the latest index wins. For finite negative weights, larger numeric value
/// means smaller unsigned bit pattern, so this minimizes the bit pattern.
/// This selects what `max` over the negative weights returns.
pub fn maximal_negative(bits: &Vec<u64>) -> (r: usize)
    requires
        exists|i: int| 0 <= i < bits@.len() && f64_bits_negative(#[trigger] bits@[i]),
    ensures
        r < bits@.len(),
        f64_bits_negative(bits@[r as int]),
        forall|j: int|
            0 <= j < bits@.len() && f64_bits_negative(#[trigger] bits@[j]) ==> bits@[r as int]
                <= bits@[j],
        forall|j: int|
            r < j < bits@.len() && f64_bits_negative(#[trigger] bits@[j]) ==> bits@[r as int]
                < bits@[j],
{
    let mut best: usize = 0;
    let mut found = false;
    let mut i: usize = 0;
    while i < bits.len()
        invariant
            i <= bits@.len(),
            !found ==> forall|j: int| 0 <= j < i ==> !f64_bits_negative(#[trigger] bits@[j]),
            found ==> best < i && f64_bits_negative(bits@[best as int]),
            found ==> forall|j: int|
                0 <= j < i && f64_bits_negative(#[trigger] bits@[j]) ==> bits@[best as int]
                    <= bits@[j],
            found ==> forall|j: int|
                best < j < i && f64_bits_negative(#[trigger] bits@[j]) ==> bits@[best as int]
                    < bits@[j],
        decreases bits@.len() - i,
    {
        let b = bits[i];
        proof {
            assert(b >> 63 == 0 || b >> 63 == 1) by (bit_vector);
        }
        if b >> 63 == 1 && b != F64_NEG_ZERO_BITS {
            if !found {
                best = i;
                found = true;
            } else if b <= bits[best] {
                best = i;
            }
        }
        i += 1;
    }
    proof {
        if !found {
            let i0 = choose|i: int| 0 <= i < bits@.len() && f64_bits_negative(#[trigger] bits@[i]);
            assert(!f64_bits_negative(bits@[i0]));
        }
    }
    best
}

/// Validates a flattened kernel given the bit patterns of its weights, in
/// the order construction checks them: first that every weight is finite,
/// then that the count is an odd square. On success returns the kernel
/// dimension, the odd square root of the weight count.
pub fn validate_kernel(bits: &Vec<u64>) -> (r: Result<usize, ConvolutionError>)
    ensures
        match r {
            Ok(size) => (forall|i: int|
                0 <= i < bits@.len() ==> f64_bits_finite(#[trigger] bits@[i])) && 1 <= size && size
                % 2 == 1 && size * size == bits@.len(),
            Err(e) => (e == ConvolutionError::ConvolutionDoesNotContainNumbers && exists|i: int|
                0 <= i < bits@.len() && !f64_bits_finite(#[trigger] bits@[i])) || (e
                == ConvolutionError::ConvolutionIsNotWellShaped && (forall|i: int|
                0 <= i < bits@.len() ==> f64_bits_finite(#[trigger] bits@[i]))
                && !is_odd_square(bits@.len() as int)),
        },
{
    if any_non_finite(bits) {
        return Err(ConvolutionError::ConvolutionDoesNotContainNumbers);
    }
    if !is_correctly_dimensionsed(bits.len()) {
        return Err(ConvolutionError::ConvolutionIsNotWellShaped);
    }
    let size = floor_sqrt(bits.len() as u64);
    proof {
        let t = choose|t: int|
            1 <= t && t % 2 == 1 && #[trigger] (t * t) == bits@.len() as int;
        lemma_sqrt_unique(bits@.len() as int, size as int, t);
    }
    Ok(size as usize)
}

} // verus!
