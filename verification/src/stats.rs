use vstd::prelude::*;

verus! {

/// `x` plus `n`, held at the largest `u32` where the sum is larger.
pub open spec fn bumped_by(x: u32, n: nat) -> u32 {
    if x + n <= u32::MAX {
        (x + n) as u32
    } else {
        u32::MAX
    }
}

/// Counts one more, and stays at the largest `u32` once it is reached.
pub fn bump(x: u32) -> (r: u32)
    ensures
        r == bumped_by(x, 1),
{
    if x < u32::MAX {
        x + 1
    } else {
        x
    }
}

/// Counts `n` more, and stays at the largest `u32` once it is reached.
pub fn bump_by(x: u32, n: usize) -> (r: u32)
    ensures
        r == bumped_by(x, n as nat),
{
    let room: u32 = u32::MAX - x;
    if n <= room as usize {
        x + (n as u32)
    } else {
        u32::MAX
    }
}

/// The share of the original size that compaction saved, in millionths:
/// `(original - compacted) / original`, cut off towards zero. It is negative
/// where the compacted form is the larger one, and 0 for an empty original.
pub open spec fn saved_ppm(original: nat, compacted: nat) -> int {
    if original == 0 {
        0
    } else if compacted <= original {
        ((original - compacted) * 1_000_000) / (original as int)
    } else {
        -(((compacted - original) * 1_000_000) / (original as int))
    }
}

/// Computes [`saved_ppm`]. No sizes make it fail: a compacted form that is
/// not smaller than the original gives a ratio that is not positive.
pub fn compression_ratio_ppm(original: usize, compacted: usize) -> (r: i128)
    ensures
        r == saved_ppm(original as nat, compacted as nat),
        compacted >= original ==> r <= 0,
        compacted <= original ==> 0 <= r <= 1_000_000,
{
    if original == 0 {
        return 0;
    }
    let o: u128 = original as u128;
    let c: u128 = compacted as u128;
    if c <= o {
        let d: u128 = o - c;
        assert(d * 1_000_000 <= 0xffff_ffff_ffff_ffff * 1_000_000) by (nonlinear_arith)
            requires
                d <= 0xffff_ffff_ffff_ffff,
        ;
        let q: u128 = (d * 1_000_000) / o;
        assert(q <= 1_000_000) by (nonlinear_arith)
            requires
                q as int == (d as int * 1_000_000) / (o as int),
                0 <= d <= o,
                o > 0,
        ;
        q as i128
    } else {
        let d: u128 = c - o;
        assert(d * 1_000_000 <= 0xffff_ffff_ffff_ffff * 1_000_000) by (nonlinear_arith)
            requires
                d <= 0xffff_ffff_ffff_ffff,
        ;
        let q: u128 = (d * 1_000_000) / o;
        assert(q <= d * 1_000_000) by (nonlinear_arith)
            requires
                q as int == (d as int * 1_000_000) / (o as int),
                o > 0,
                d >= 0,
        ;
        -(q as i128)
    }
}

} // verus!
