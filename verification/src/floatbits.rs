//! Floating-point values held as their IEEE-754 bit patterns.
//!
//! Coordinates, depths, and measures are `f64` in the model. Here they are carried as the
//! `u64` that `f64::to_bits` gives, which makes every test the model applies to them — is it
//! finite, is it zero, is it negative — an exact statement about integers, and negation an
//! exact flip of the sign bit.

use vstd::prelude::*;

verus! {

/// The sign bit.
pub const SIGN: u64 = 0x8000_0000_0000_0000u64;

/// Every bit but the sign.
pub const MAGNITUDE: u64 = 0x7fff_ffff_ffff_ffffu64;

/// The exponent of infinity and NaN.
pub const EXPONENT: u64 = 0x7ff0_0000_0000_0000u64;

/// `1.0`.
pub const ONE: u64 = 0x3ff0_0000_0000_0000u64;

/// `f64::is_finite`: the exponent is not all ones.
pub open spec fn finite(x: u64) -> bool {
    x & EXPONENT != EXPONENT
}

/// `x == 0.0`: positive or negative zero.
pub open spec fn zero(x: u64) -> bool {
    x & MAGNITUDE == 0
}

/// `f64::is_nan`.
pub open spec fn nan(x: u64) -> bool {
    x & MAGNITUDE > EXPONENT
}

/// `x < 0.0`: the sign is set, and it is neither zero nor NaN.
pub open spec fn negative(x: u64) -> bool {
    x & SIGN != 0 && !zero(x) && !nan(x)
}

/// `x > 0.0`: the sign is clear, and it is neither zero nor NaN.
pub open spec fn positive(x: u64) -> bool {
    x & SIGN == 0 && !zero(x) && !nan(x)
}

/// `-x`: the sign flipped, every other bit kept.
pub open spec fn neg(x: u64) -> u64 {
    x ^ SIGN
}

/// `-v` for a vector, componentwise.
pub open spec fn neg3(v: [u64; 3]) -> [u64; 3] {
    [neg(v[0]), neg(v[1]), neg(v[2])]
}

pub fn is_finite(x: u64) -> (r: bool)
    ensures
        r == finite(x),
{
    x & EXPONENT != EXPONENT
}

pub fn is_nan(x: u64) -> (r: bool)
    ensures
        r == nan(x),
{
    x & MAGNITUDE > EXPONENT
}

/// The quiet NaN a result that came out NaN is stored as: `f64::NAN`'s bits.
pub const QUIET_NAN: u64 = 0x7ff8_0000_0000_0000u64;

/// A value with any NaN replaced by [`QUIET_NAN`]: the sign and payload of a NaN that
/// arithmetic produces are not specified, so only the canonical one is kept.
pub open spec fn canonical(x: u64) -> u64 {
    if nan(x) {
        QUIET_NAN
    } else {
        x
    }
}

pub fn canonicalize(x: u64) -> (r: u64)
    ensures
        r == canonical(x),
{
    if is_nan(x) {
        QUIET_NAN
    } else {
        x
    }
}

pub fn is_zero(x: u64) -> (r: bool)
    ensures
        r == zero(x),
{
    x & MAGNITUDE == 0
}

pub fn is_negative(x: u64) -> (r: bool)
    ensures
        r == negative(x),
{
    x & SIGN != 0 && !(x & MAGNITUDE == 0) && !(x & MAGNITUDE > EXPONENT)
}

pub fn is_positive(x: u64) -> (r: bool)
    ensures
        r == positive(x),
{
    x & SIGN == 0 && !(x & MAGNITUDE == 0) && !(x & MAGNITUDE > EXPONENT)
}

pub fn negate(x: u64) -> (r: u64)
    ensures
        r == neg(x),
{
    x ^ SIGN
}

pub fn negate3(v: [u64; 3]) -> (r: [u64; 3])
    ensures
        r == neg3(v),
{
    [negate(v[0]), negate(v[1]), negate(v[2])]
}

/// Negating a vector twice gives it back.
pub proof fn lemma_neg3_twice(v: [u64; 3])
    ensures
        neg3(neg3(v)) == v,
{
    assert(forall|x: u64| #[trigger] (x ^ 0x8000_0000_0000_0000u64) ^ 0x8000_0000_0000_0000u64 == x) by (bit_vector);
    assert(neg(neg(v[0])) == v[0] && neg(neg(v[1])) == v[1] && neg(neg(v[2])) == v[2]);
}

/// Negation keeps finiteness and zero-ness, and turns negative into positive.
pub proof fn lemma_neg_facts(x: u64)
    ensures
        finite(neg(x)) == finite(x),
        zero(neg(x)) == zero(x),
        nan(neg(x)) == nan(x),
        negative(x) ==> positive(neg(x)),
{
    assert(((x ^ 0x8000_0000_0000_0000u64) & 0x7ff0_0000_0000_0000u64 != 0x7ff0_0000_0000_0000u64)
        == (x & 0x7ff0_0000_0000_0000u64 != 0x7ff0_0000_0000_0000u64)) by (bit_vector);
    assert((x ^ 0x8000_0000_0000_0000u64) & 0x7fff_ffff_ffff_ffffu64
        == x & 0x7fff_ffff_ffff_ffffu64) by (bit_vector);
    assert(x & 0x8000_0000_0000_0000u64 != 0 ==> (x ^ 0x8000_0000_0000_0000u64) & 0x8000_0000_0000_0000u64 == 0) by (bit_vector);
}

/// The componentwise sum of two vectors, as `glam::DVec3`'s `+` computes it, up to the sign
/// and payload of a lane that comes out NaN.
pub uninterp spec fn dvec3_sum(a: Seq<u64>, b: Seq<u64>) -> Seq<u64>;

/// `glam::DVec3 + glam::DVec3`, on bit patterns.
///
/// Claims that each lane is the lane named by `dvec3_sum` where that lane is a number, and
/// that a lane is NaN exactly where the named one is. The bits of a NaN lane are left open:
/// IEEE-754 arithmetic does not fix a NaN's sign or payload.
#[verifier::external_body]
pub fn add3(a: [u64; 3], b: [u64; 3]) -> (r: [u64; 3])
    ensures
        forall|i: int|
            0 <= i < 3 ==> nan(#[trigger] r[i]) == nan(dvec3_sum(a@, b@)[i]) && (!nan(dvec3_sum(a@, b@)[i]) ==> r[i]
                == dvec3_sum(a@, b@)[i]),
{
    let sum = bytemuck::cast::<[u64; 3], glam::DVec3>(a) + bytemuck::cast::<[u64; 3], glam::DVec3>(b);
    bytemuck::cast::<glam::DVec3, [u64; 3]>(sum)
}


/// `f64::INFINITY`.
pub const INFINITY: u64 = 0x7ff0_0000_0000_0000u64;

/// `f64::NEG_INFINITY`.
pub const NEG_INFINITY: u64 = 0xfff0_0000_0000_0000u64;

/// Where a non-NaN value sits on the number line: the magnitude bits, negated when the sign
/// is set. Magnitude bits order IEEE-754 magnitudes, subnormals and infinity included, and
/// both zeros land on 0.
pub open spec fn rank(x: u64) -> int {
    if x & SIGN != 0 {
        -((x & MAGNITUDE) as int)
    } else {
        (x & MAGNITUDE) as int
    }
}

/// `a < b` on `f64`: false whenever either side is NaN.
pub open spec fn less(a: u64, b: u64) -> bool {
    !nan(a) && !nan(b) && rank(a) < rank(b)
}

pub fn is_less(a: u64, b: u64) -> (r: bool)
    ensures
        r == less(a, b),
{
    if a & MAGNITUDE > EXPONENT || b & MAGNITUDE > EXPONENT {
        return false;
    }
    let ma = a & MAGNITUDE;
    let mb = b & MAGNITUDE;
    if a & SIGN != 0 {
        if b & SIGN != 0 {
            mb < ma
        } else {
            !(ma == 0 && mb == 0)
        }
    } else {
        if b & SIGN != 0 {
            false
        } else {
            ma < mb
        }
    }
}

/// The bits of `v as f64`, the nearest `f64` to a count.
pub uninterp spec fn real_of_count(v: i64) -> u64;

/// `glam::I64Vec2::as_dvec2` on the first lane, which converts with Rust's `as f64`.
///
/// Claims only that the result is a function of the count, named `real_of_count`; the
/// rounding is Rust's.
#[verifier::external_body]
pub fn count_as_real(v: i64) -> (r: u64)
    ensures
        r == real_of_count(v),
{
    bytemuck::cast::<glam::DVec2, [u64; 2]>(glam::I64Vec2::new(v, 0).as_dvec2())[0]
}

}
