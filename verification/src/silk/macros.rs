//! Fixed-point multiply helpers of the SILK layer.
use vstd::prelude::*;

verus! {

/// `a32` times the low 16 bits of `b32` (read as signed), scaled down by 2^16
/// and rounded towards minus infinity.
pub open spec fn smulwb_spec(a32: i32, b32: i32) -> int {
    (a32 * (b32 as i16)) / 65536
}

/// `a32` plus the product of the low 16 bits of `b32` and of `c32` (read as signed).
pub open spec fn smlabb_spec(a32: i32, b32: i32, c32: i32) -> int {
    a32 + (b32 as i16) * (c32 as i16)
}

/// Computes `smulwb_spec(a32, b32)`; the result always fits in 32 bits.
pub fn silk_smulwb(a32: i32, b32: i32) -> (r: i32)
    ensures
        r == smulwb_spec(a32, b32),
{
    let b16: i16 = #[verifier::truncate] (b32 as i16);
    assert(-0x8000_0000 * 0x8000 <= a32 * b16 <= 0x8000_0000 * 0x8000) by (nonlinear_arith)
        requires
            -0x8000_0000 <= a32 <= 0x7fff_ffff,
            -0x8000 <= b16 <= 0x7fff,
    ;
    let x: i64 = (a32 as i64) * (b16 as i64);
    let q: i64 = x >> 16;
    assert(q == x / 65536) by (bit_vector)
        requires
            q == x >> 16,
    ;
    q as i32
}

/// Computes `smlabb_spec(a32, b32, c32)`, which must fit in 32 bits.
pub fn silk_smlabb(a32: i32, b32: i32, c32: i32) -> (r: i32)
    requires
        i32::MIN <= smlabb_spec(a32, b32, c32) <= i32::MAX,
    ensures
        r == smlabb_spec(a32, b32, c32),
{
    let b16: i16 = #[verifier::truncate] (b32 as i16);
    let c16: i16 = #[verifier::truncate] (c32 as i16);
    assert(-0x8000 * 0x8000 <= b16 * c16 <= 0x8000 * 0x8000) by (nonlinear_arith)
        requires
            -0x8000 <= b16 <= 0x7fff,
            -0x8000 <= c16 <= 0x7fff,
    ;
    a32 + (b16 as i32) * (c16 as i32)
}

} // verus!
