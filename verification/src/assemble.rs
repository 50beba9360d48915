use vstd::prelude::*;

use vstd::arithmetic::div_mod::{lemma_basic_div, lemma_div_non_zero};
use vstd::arithmetic::power2::{
    lemma2_to64, lemma_pow2_adds, lemma_pow2_pos, lemma_pow2_strictly_increases, lemma_pow2_unfold,
    pow2,
};

use crate::error::DecodeError;
use crate::value::DecodedValue;

verus! {

/// One 3-component vertex record (a position or a normal).
#[derive(Clone, Copy, Debug, PartialEq, Eq, Structural)]
pub struct Vector3 {
    pub x: DecodedValue,
    pub y: DecodedValue,
    pub z: DecodedValue,
}

/// One 2-component vertex record (a texture coordinate).
#[derive(Clone, Copy, Debug, PartialEq, Eq, Structural)]
pub struct Vector2 {
    pub x: DecodedValue,
    pub y: DecodedValue,
}

/// The 3-vector records of a flat stream whose length is a multiple of 3.
pub open spec fn spec_vec3_array(s: Seq<DecodedValue>) -> Seq<Vector3> {
    Seq::new(
        s.len() / 3,
        |i: int| Vector3 { x: s[3 * i], y: s[3 * i + 1], z: s[3 * i + 2] },
    )
}

/// The 2-vector records of a flat stream whose length is a multiple of 2.
pub open spec fn spec_vec2_array(s: Seq<DecodedValue>) -> Seq<Vector2> {
    Seq::new(s.len() / 2, |i: int| Vector2 { x: s[2 * i], y: s[2 * i + 1] })
}

/// Regroup a flat component stream into `count` 3-vectors.  Fails with
/// `ShapeMismatch` if and only if the stream does not hold exactly
/// `count * 3` components.
#[verifier::loop_isolation(false)]
pub fn to_vec3_array(stream: &Vec<DecodedValue>, count: u32) -> (r: Result<Vec<Vector3>, DecodeError>)
    ensures
        ({
            if stream@.len() == count * 3 {
                r matches Ok(v) && v@ == spec_vec3_array(stream@) && v@.len() == count
            } else {
                r == Err::<Vec<Vector3>, DecodeError>(DecodeError::ShapeMismatch)
            }
        }),
{
    if stream.len() as u64 != (count as u64) * 3 {
        return Err(DecodeError::ShapeMismatch);
    }
    let n = count as usize;
    let mut v: Vec<Vector3> = Vec::new();
    let mut i: usize = 0;
    while i < n
        invariant
            i <= n,
            stream@.len() == n * 3,
            v@.len() == i,
            forall|j: int| 0 <= j < i ==> v@[j] == spec_vec3_array(stream@)[j],
        decreases n - i,
    {
        v.push(
            Vector3 { x: stream[3 * i], y: stream[3 * i + 1], z: stream[3 * i + 2] },
        );
        i = i + 1;
    }
    proof {
        assert(v@ =~= spec_vec3_array(stream@));
    }
    Ok(v)
}

/// Regroup a flat component stream into `count` 2-vectors.  Fails with
/// `ShapeMismatch` if and only if the stream does not hold exactly
/// `count * 2` components.
#[verifier::loop_isolation(false)]
pub fn to_vec2_array(stream: &Vec<DecodedValue>, count: u32) -> (r: Result<Vec<Vector2>, DecodeError>)
    ensures
        ({
            if stream@.len() == count * 2 {
                r matches Ok(v) && v@ == spec_vec2_array(stream@) && v@.len() == count
            } else {
                r == Err::<Vec<Vector2>, DecodeError>(DecodeError::ShapeMismatch)
            }
        }),
{
    if stream.len() as u64 != (count as u64) * 2 {
        return Err(DecodeError::ShapeMismatch);
    }
    let n = count as usize;
    let mut v: Vec<Vector2> = Vec::new();
    let mut i: usize = 0;
    while i < n
        invariant
            i <= n,
            stream@.len() == n * 2,
            v@.len() == i,
            forall|j: int| 0 <= j < i ==> v@[j] == spec_vec2_array(stream@)[j],
        decreases n - i,
    {
        v.push(Vector2 { x: stream[2 * i], y: stream[2 * i + 1] });
        i = i + 1;
    }
    proof {
        assert(v@ =~= spec_vec2_array(stream@));
    }
    Ok(v)
}

/// Truncation toward zero of the exact rational `n / d`.
pub open spec fn trunc_ratio(n: int, d: int) -> int
    recommends
        d > 0,
{
    if n >= 0 {
        n / d
    } else {
        -((-n) / d)
    }
}

/// The integer magnitude, truncated toward zero, of the finite IEEE-754
/// single-precision value with biased exponent `e` and mantissa `m`.  The
/// represented magnitude is `(2^23 + m) / 2^(150 - e)` for normal values;
/// the same formula covers subnormals (`e == 0`), whose true magnitude is
/// below 1 and truncates to 0 just the same.
pub open spec fn f32_trunc_magnitude(e: nat, m: nat) -> nat
    recommends
        e < 255,
        m < 0x80_0000,
{
    if e >= 150 {
        (0x80_0000 + m) * pow2((e - 150) as nat)
    } else {
        (0x80_0000 + m) / pow2((150 - e) as nat)
    }
}

/// What an IEEE-754 single-precision bit pattern yields when used as an
/// index: the value truncated toward zero, provided it is finite and lands
/// in `0 ..= u32::MAX`.  Not-a-number, infinities, values at or below -1 and
/// values at or above `2^32` yield nothing.
pub open spec fn index_from_float_bits(bits: u32) -> Option<u32> {
    let s = bits / 0x8000_0000;
    let e = ((bits / 0x80_0000) % 256) as nat;
    let m = (bits % 0x80_0000) as nat;
    if e == 255 {
        None
    } else if s == 1 {
        if f32_trunc_magnitude(e, m) == 0 {
            Some(0)
        } else {
            None
        }
    } else if f32_trunc_magnitude(e, m) > u32::MAX {
        None
    } else {
        Some(f32_trunc_magnitude(e, m) as u32)
    }
}

/// What one decoded component yields when used as an index: the value
/// truncated toward zero, provided it lands in `0 ..= u32::MAX`.  A
/// degenerate normalized component with denominator 0 yields nothing.
pub open spec fn index_of_value(v: DecodedValue) -> Option<u32> {
    match v {
        DecodedValue::Integer(n) => if 0 <= n <= u32::MAX {
            Some(n as u32)
        } else {
            None
        },
        DecodedValue::Normalized(n, d) => if d == 0 {
            None
        } else {
            let t = trunc_ratio(n as int, d as int);
            if 0 <= t <= u32::MAX {
                Some(t as u32)
            } else {
                None
            }
        },
        DecodedValue::Float32Bits(b) => index_from_float_bits(b),
    }
}

/// 2 to the power `k`, for exponents that fit a `u32`.
#[verifier::loop_isolation(false)]
fn pow2_u32(k: u32) -> (r: u32)
    requires
        k <= 31,
    ensures
        r == pow2(k as nat),
{
    proof {
        lemma2_to64();
    }
    let mut r: u32 = 1;
    let mut j: u32 = 0;
    while j < k
        invariant
            j <= k <= 31,
            r == pow2(j as nat),
        decreases k - j,
    {
        proof {
            lemma_pow2_unfold(j as nat + 1);
            lemma_pow2_strictly_increases(j as nat + 1, 32);
            lemma2_to64();
        }
        r = r * 2;
        j = j + 1;
    }
    r
}

/// Truncate the IEEE-754 single-precision value `bits` toward zero and
/// range-check it as a `u32` index.
fn float_bits_to_index(bits: u32) -> (r: Option<u32>)
    ensures
        r == index_from_float_bits(bits),
{
    let s: u32 = bits / 0x8000_0000;
    let e: u32 = (bits / 0x80_0000) % 256;
    let m: u32 = bits % 0x80_0000;
    let num: u32 = 0x80_0000 + m;
    if e == 255 {
        // not a number, or an infinity
        None
    } else if e <= 126 {
        // magnitude below 1 (subnormals included): truncates to zero
        proof {
            lemma2_to64();
            if e < 126 {
                lemma_pow2_strictly_increases(24, (150 - e) as nat);
            }
            lemma_basic_div(num as int, pow2((150 - e) as nat) as int);
        }
        Some(0)
    } else if s == 1 {
        // at or below -1: negative after truncation
        proof {
            lemma2_to64();
            if e >= 150 {
                lemma_pow2_pos((e - 150) as nat);
                assert((0x80_0000 + m) * pow2((e - 150) as nat) >= 0x80_0000)
                    by (nonlinear_arith)
                    requires
                        pow2((e - 150) as nat) >= 1,
                        m >= 0,
                ;
            } else {
                if e > 127 {
                    lemma_pow2_strictly_increases((150 - e) as nat, 23);
                }
                lemma_div_non_zero(num as int, pow2((150 - e) as nat) as int);
            }
        }
        None
    } else if e < 150 {
        // divide away the fractional bits
        let den: u32 = pow2_u32(150 - e);
        proof {
            lemma_pow2_pos((150 - e) as nat);
        }
        Some(num / den)
    } else if e <= 158 {
        // small enough to scale without leaving u32 range
        let mul: u64 = pow2_u32(e - 150) as u64;
        proof {
            lemma2_to64();
            lemma_pow2_strictly_increases((e - 150) as nat, 9);
            assert((num as int) * (mul as int) <= 0xff_ffff * 0x100) by (nonlinear_arith)
                requires
                    num <= 0xff_ffff,
                    mul <= 0x100,
                    num >= 0,
                    mul >= 0,
            ;
        }
        let prod: u64 = (num as u64) * mul;
        Some(prod as u32)
    } else {
        // at or above 2^32: not representable
        proof {
            lemma2_to64();
            lemma_pow2_adds(23, 9);
            if e > 159 {
                lemma_pow2_strictly_increases(9, (e - 150) as nat);
            }
            assert((0x80_0000 + m) * pow2((e - 150) as nat) >= 0x80_0000 * 0x200)
                by (nonlinear_arith)
                requires
                    pow2((e - 150) as nat) >= 0x200,
                    m >= 0,
            ;
        }
        None
    }
}

/// The index one decoded component stands for, if it has one.
pub fn value_to_index(v: &DecodedValue) -> (r: Option<u32>)
    ensures
        r == index_of_value(*v),
{
    match v {
        DecodedValue::Integer(n) => {
            if 0 <= *n && *n <= u32::MAX as i64 {
                Some(*n as u32)
            } else {
                None
            }
        },
        DecodedValue::Normalized(n, d) => {
            if *d == 0 {
                None
            } else if *n >= 0 {
                let q: u64 = (*n as u64) / *d;
                if q > u32::MAX as u64 {
                    None
                } else {
                    Some(q as u32)
                }
            } else {
                // |n| without overflowing at the smallest i64
                let mabs: u64 = ((-(*n + 1)) as u64) + 1;
                if mabs >= *d {
                    proof {
                        lemma_div_non_zero(mabs as int, *d as int);
                    }
                    None
                } else {
                    proof {
                        lemma_basic_div(mabs as int, *d as int);
                    }
                    Some(0)
                }
            }
        },
        DecodedValue::Float32Bits(b) => float_bits_to_index(*b),
    }
}

/// Whether every component of the stream stands for a representable index.
pub open spec fn spec_indices_ok(s: Seq<DecodedValue>) -> bool {
    forall|i: int| 0 <= i < s.len() ==> index_of_value(s[i]) is Some
}

/// The index array of a stream of representable index components.
pub open spec fn spec_index_array(s: Seq<DecodedValue>) -> Seq<u32> {
    Seq::new(
        s.len(),
        |i: int| match index_of_value(s[i]) {
            Some(x) => x,
            None => 0,
        },
    )
}

/// Coerce a flat scalar stream to a `u32` index array, truncating each
/// component toward zero.  Fails with `ShapeMismatch` if and only if the
/// stream does not hold exactly `count` components, and otherwise with
/// `IndexOverflow` if and only if some component is negative, too large for
/// `u32`, or not a finite number.
#[verifier::loop_isolation(false)]
pub fn to_index_array(stream: &Vec<DecodedValue>, count: u32) -> (r: Result<Vec<u32>, DecodeError>)
    ensures
        ({
            if stream@.len() != count {
                r == Err::<Vec<u32>, DecodeError>(DecodeError::ShapeMismatch)
            } else if !spec_indices_ok(stream@) {
                r == Err::<Vec<u32>, DecodeError>(DecodeError::IndexOverflow)
            } else {
                r matches Ok(v) && v@ == spec_index_array(stream@) && v@.len() == count
            }
        }),
{
    if stream.len() as u64 != count as u64 {
        return Err(DecodeError::ShapeMismatch);
    }
    let n = stream.len();
    let mut v: Vec<u32> = Vec::new();
    let mut i: usize = 0;
    while i < n
        invariant
            i <= n,
            n == stream@.len(),
            v@.len() == i,
            forall|j: int| 0 <= j < i ==> index_of_value(stream@[j]) is Some,
            forall|j: int| 0 <= j < i ==> v@[j] == spec_index_array(stream@)[j],
        decreases n - i,
    {
        match value_to_index(&stream[i]) {
            Some(x) => {
                v.push(x);
            },
            None => {
                return Err(DecodeError::IndexOverflow);
            },
        }
        i = i + 1;
    }
    proof {
        assert(v@ =~= spec_index_array(stream@));
    }
    Ok(v)
}

} // verus!
