//! Arithmetic on offsets and ranges of device memory.

use std::ops::Range;
use vstd::prelude::*;
use vstd::arithmetic::power2::{pow2, lemma_pow2_unfold, lemma2_to64, lemma_pow2_adds, lemma_pow2_pos, lemma_pow2_strictly_increases};
use vstd::bits::lemma_u64_low_bits_mask_is_mod;

verus! {

/// Exponent of a power of two.
proof fn lemma_pow2_exponent(a: u64) -> (n: nat)
    requires
        is_pow2(a),
    ensures
        n < 64,
        pow2(n) == a,
    decreases a,
{
    if a == 1 {
        lemma2_to64();
        0
    } else {
        let h = (a / 2) as u64;
        assert(h > 0 && h & ((h - 1) as u64) == 0 && a == 2 * h && h < 0x8000_0000_0000_0000u64)
            by (bit_vector)
            requires
                a > 1,
                a & ((a - 1) as u64) == 0,
                h == a / 2,
        ;
        let m = lemma_pow2_exponent(h);
        lemma_pow2_unfold(m + 1);
        if m == 63 {
            lemma2_to64();
        }
        m + 1
    }
}

/// For a power of two `a`, a value whose bits below `a` are clear is a multiple of `a`.
pub proof fn lemma_mask_zero_is_multiple(y: u64, a: u64)
    requires
        is_pow2(a),
        y & ((a - 1) as u64) == 0,
    ensures
        y % a == 0,
{
    let n = lemma_pow2_exponent(a);
    lemma_u64_low_bits_mask_is_mod(y, n);
}

/// Value of `aligned`: the next value after `value - 1` whose low bits
/// below `align` are all set, plus one.
pub open spec fn aligned_spec(value: u64, align: u64) -> int {
    if value == 0 {
        0
    } else {
        1 + (((value - 1) as u64 | (align - 1) as u64) as int)
    }
}

/// `align` is a power of two.
pub open spec fn is_pow2(align: u64) -> bool {
    align > 0 && (align & (align - 1) as u64) == 0
}

/// A power of two is a multiple of every power of two not above it.
pub proof fn lemma_pow2_divides(a: u64, b: u64)
    requires
        is_pow2(a),
        is_pow2(b),
        a <= b,
    ensures
        b % a == 0,
{
    let na = lemma_pow2_exponent(a);
    let nb = lemma_pow2_exponent(b);
    if nb < na {
        lemma_pow2_strictly_increases(nb, na);
    }
    let d = (nb - na) as nat;
    lemma_pow2_adds(na, d);
    lemma_pow2_pos(na);
    assert(b == pow2(d) * pow2(na)) by (nonlinear_arith)
        requires b == pow2(na + d), pow2(na + d) == pow2(na) * pow2(d);
    vstd::arithmetic::div_mod::lemma_mod_multiples_basic(pow2(d) as int, pow2(na) as int);
}

/// Rounding `value` up to a power of two `align` gives the multiple of `align` that is
/// the smallest not below `value`.
pub proof fn lemma_aligned_spec(value: u64, align: u64)
    requires
        is_pow2(align),
        value > 0,
        (((value - 1) as u64 | (align - 1) as u64) as int) < u64::MAX,
    ensures
        aligned_spec(value, align) % (align as int) == 0,
        value <= aligned_spec(value, align) < value + align,
{
    let v = value;
    let a = align;
    let x = ((v - 1) as u64 | (a - 1) as u64);
    let y = (1 + x) as u64;
    assert(y & ((a - 1) as u64) == 0 && v <= y && y - v < a) by (bit_vector)
        requires
            a > 0,
            a & ((a - 1) as u64) == 0,
            v > 0,
            x == ((v - 1) as u64 | (a - 1) as u64),
            x < 0xffff_ffff_ffff_ffffu64,
            y == x + 1,
    ;
    lemma_mask_zero_is_multiple(y, a);
}

/// Round `value` up to the alignment `align`.
pub fn aligned(value: u64, align: u64) -> (r: u64)
    requires
        value > 0 ==> align > 0 && (((value - 1) as u64 | (align - 1) as u64) as int) < u64::MAX,
    ensures
        r == aligned_spec(value, align),
        value <= r,
        is_pow2(align) ==> r % align == 0 && value <= r && r - value < align,
{
    if value == 0 {
        0
    } else {
        let x = (value - 1) | (align - 1);
        proof {
            let v = value;
            let a = align;
            assert(((v - 1) as u64 | (a - 1) as u64) >= (v - 1) as u64) by (bit_vector);
            if is_pow2(align) {
                let v = value;
                let a = align;
                let y = (1 + x) as u64;
                assert(y & ((a - 1) as u64) == 0 && v <= y && y - v < a) by (bit_vector)
                    requires
                        a > 0,
                        a & ((a - 1) as u64) == 0,
                        v > 0,
                        x == ((v - 1) as u64 | (a - 1) as u64),
                        x < 0xffff_ffff_ffff_ffffu64,
                        y == x + 1,
                ;
                lemma_mask_zero_is_multiple(y, a);
            }
        }
        1u64 + x
    }
}

} // verus!

verus! {

/// Whether a `u64` value can be represented as `usize`.
pub fn fits_usize(value: u64) -> (r: bool)
    ensures
        r == (value <= usize::MAX),
{
    value <= usize::MAX as u64
}

/// Whether a `usize` value can be represented as `u32`.
pub fn fits_u32(value: usize) -> (r: bool)
    ensures
        r == (value <= u32::MAX),
{
    value as u64 <= u32::MAX as u64
}

/// Start of `range` rounded down and end rounded up to a multiple of `align`.
pub open spec fn align_range_spec(range: Range<u64>, align: u64) -> Range<u64> {
    Range {
        start: (range.start - range.start % align) as u64,
        end: (((range.end - 1) as int / align as int + 1) * align) as u64,
    }
}

/// Widen `range` so that both its bounds are multiples of `align`.
pub fn align_range(range: Range<u64>, align: u64) -> (r: Range<u64>)
    requires
        align > 0,
        range.end > 0,
        ((range.end - 1) as int / align as int + 1) * align <= u64::MAX,
    ensures
        r == align_range_spec(range, align),
        r.start % align == 0,
        r.end % align == 0,
        r.start <= range.start,
        range.end <= r.end,
        range.start - r.start < align,
        r.end - range.end < align,
{
    proof {
        vstd::arithmetic::div_mod::lemma_mod_decreases(range.start as nat, align as nat);
    }
    let start: u64 = range.start - range.start % align;
    let q: u64 = (range.end - 1) / align + 1;
    proof {
        assert(q * align >= q) by (nonlinear_arith)
            requires align > 0, q >= 0;
    }
    let end: u64 = q * align;
    proof {
        vstd::arithmetic::div_mod::lemma_fundamental_div_mod(range.start as int, align as int);
        vstd::arithmetic::div_mod::lemma_fundamental_div_mod((range.end - 1) as int, align as int);
        vstd::arithmetic::div_mod::lemma_mod_multiples_basic(q as int, align as int);
        vstd::arithmetic::div_mod::lemma_mod_sub_multiples_vanish(range.start as int, align as int);
        let d = (range.end - 1) as int / align as int;
        assert(end == d * align + align) by (nonlinear_arith)
            requires end == q * align, q == d + 1;
        assert(start % align == 0) by {
            vstd::arithmetic::div_mod::lemma_fundamental_div_mod(range.start as int, align as int);
            assert(start == align * (range.start / align));
            vstd::arithmetic::div_mod::lemma_mod_multiples_basic(range.start as int / align as int, align as int);
            vstd::arithmetic::mul::lemma_mul_is_commutative(align as int, range.start as int / align as int);
        }
    }
    start..end
}

/// Round `size` up to a multiple of `align`.
pub fn align_size(size: u64, align: u64) -> (r: u64)
    requires
        align > 0,
        size > 0,
        ((size - 1) as int / align as int + 1) * align <= u64::MAX,
    ensures
        r == ((size - 1) as int / align as int + 1) * align,
        r % align == 0,
        size <= r,
        r - size < align,
{
    let q: u64 = (size - 1) / align + 1;
    proof {
        assert(q * align >= q) by (nonlinear_arith)
            requires align > 0, q >= 0;
        let d = (size - 1) as int / align as int;
        vstd::arithmetic::div_mod::lemma_fundamental_div_mod((size - 1) as int, align as int);
        vstd::arithmetic::div_mod::lemma_mod_multiples_basic(q as int, align as int);
        assert(q * align == d * align + align) by (nonlinear_arith)
            requires q == d + 1;
        assert(d * align == align * d) by (nonlinear_arith);
    }
    q * align
}

/// `relative` shifted into `range`, when it ends inside `range`.
pub open spec fn relative_to_sub_range_spec(range: Range<u64>, relative: Range<u64>) -> Option<Range<u64>> {
    if relative.end + range.start <= range.end {
        Some(Range { start: (relative.start + range.start) as u64, end: (relative.end + range.start) as u64 })
    } else {
        None
    }
}

/// Translate `relative`, given in offsets from `range.start`, into absolute offsets,
/// provided the result ends inside `range`.
pub fn relative_to_sub_range(range: Range<u64>, relative: Range<u64>) -> (r: Option<Range<u64>>)
    requires
        relative.start + range.start <= u64::MAX,
        relative.end + range.start <= u64::MAX,
    ensures
        r == relative_to_sub_range_spec(range, relative),
{
    let start = relative.start + range.start;
    let end = relative.end + range.start;
    if end <= range.end {
        Some(start..end)
    } else {
        None
    }
}

/// Whether `sub` lies inside `range`.
pub open spec fn is_sub_range_spec(range: Range<u64>, sub: Range<u64>) -> bool {
    sub.start >= range.start && sub.end <= range.end
}

/// Check that `sub` lies inside `range`.
pub fn is_sub_range(range: Range<u64>, sub: Range<u64>) -> (r: bool)
    ensures
        r == is_sub_range_spec(range, sub),
{
    sub.start >= range.start && sub.end <= range.end
}

} // verus!
