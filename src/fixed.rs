//! Fixed-point sample arithmetic shared by the pipeline.

use vstd::prelude::*;
use vstd::arithmetic::power2::{pow2, lemma_pow2_unfold, lemma_pow2_strictly_increases, lemma2_to64};

verus! {

/// Full scale of a normalized sample: the integer `x` stands for `x / UNIT`.
pub const UNIT: i64 = 4294967296;

/// Bit depths of signed PCM that the pipeline reads and writes.
pub open spec fn valid_bit_depth(bits: u16) -> bool {
    2 <= bits <= 32
}

/// Largest magnitude of a signed sample of `bits` bits: `2^(bits-1) - 1`.
pub open spec fn full_scale_of(bits: u16) -> int {
    pow2((bits - 1) as nat) - 1
}

/// Whether `v` is a sample that `bits` bits can hold: `-(full+1) ..= full`.
pub open spec fn fits_bit_depth(v: int, bits: u16) -> bool {
    -(full_scale_of(bits) + 1) <= v <= full_scale_of(bits)
}

/// Division that rounds toward zero, as a cast of a real quotient to an integer does.
pub open spec fn trunc_div(a: int, d: int) -> int {
    if a >= 0 {
        a / d
    } else {
        -((-a) / d)
    }
}

/// `x` limited to `lo ..= hi`.
pub open spec fn clamp(x: int, lo: int, hi: int) -> int {
    if x < lo {
        lo
    } else if x > hi {
        hi
    } else {
        x
    }
}

/// Computes `2^(bits-1) - 1`, the full-scale magnitude of a bit depth.
pub fn full_scale(bits: u16) -> (r: u32)
    requires
        valid_bit_depth(bits),
    ensures
        r == full_scale_of(bits),
        1 <= r <= 2147483647,
{
    let mut p: u64 = 1;
    let mut i: u16 = 1;
    proof {
        lemma2_to64();
    }
    while i < bits
        invariant
            1 <= i <= bits,
            bits <= 32,
            p == pow2((i - 1) as nat),
            pow2(31) == 2147483648,
        decreases bits - i,
    {
        proof {
            lemma_pow2_unfold(i as nat);
            if i < 32 {
                lemma_pow2_strictly_increases((i - 1) as nat, 31);
            }
        }
        p = p * 2;
        i = i + 1;
    }
    proof {
        lemma_pow2_unfold(1);
        if bits < 32 {
            lemma_pow2_strictly_increases((bits - 1) as nat, 31);
        }
        lemma_pow2_strictly_increases(0, (bits - 1) as nat);
    }
    (p - 1) as u32
}

/// Quotient of `a` by a positive `d`, rounded toward zero.
pub fn div_toward_zero(a: i128, d: i128) -> (r: i128)
    requires
        d > 0,
        a > i128::MIN,
    ensures
        r == trunc_div(a as int, d as int),
{
    if a >= 0 {
        a / d
    } else {
        let q = (-a) / d;
        -q
    }
}

} // verus!
