//! Memory utilization statistics, and the arithmetic of their report: the share of a heap
//! that is used, in hundredths of a percent, and the shade each share is shown in.

use crate::memory::properties::Properties;
use vstd::prelude::*;

verus! {

/// Memory utilization stats.
#[derive(Clone, Copy, Debug)]
pub struct MemoryUtilization {
    /// Total number of bytes allocated.
    pub used: u64,
    /// Effective number bytes allocated.
    pub effective: u64,
}

/// Memory utilization of one heap.
#[derive(Clone, Copy, Debug)]
pub struct MemoryHeapUtilization {
    /// Utilization.
    pub utilization: MemoryUtilization,
    /// Memory heap size.
    pub size: u64,
}

/// Memory utilization of one type.
#[derive(Clone, Copy, Debug)]
pub struct MemoryTypeUtilization {
    /// Utilization.
    pub utilization: MemoryUtilization,
    /// Memory type info.
    pub properties: Properties,
    /// Index of heap this memory type uses.
    pub heap_index: usize,
}

/// Total memory utilization.
#[derive(Clone, Debug)]
pub struct TotalMemoryUtilization {
    /// Utilization by types.
    pub types: Vec<MemoryTypeUtilization>,
    /// Utilization by heaps.
    pub heaps: Vec<MemoryHeapUtilization>,
}

/// Shade a share is reported in.
#[derive(Clone, Copy, Debug, PartialEq, Eq, Structural)]
pub enum Shade {
    /// Red.
    Red,
    /// Yellow.
    Yellow,
    /// Green.
    Green,
    /// Blue.
    Blue,
    /// White.
    White,
}

/// `part` of `whole`, in hundredths of a percent.
pub fn permyriad(part: u64, whole: u64) -> (r: u64)
    requires
        whole > 0,
        part * 10000 <= u64::MAX,
    ensures
        r == part * 10000 / (whole as int),
{
    part * 10000 / whole
}

/// Share of the effectively used bytes among the used ones, in hundredths of a percent;
/// `none` when nothing is used.
pub fn effective_permyriad(effective: u64, used: u64, none: u64) -> (r: u64)
    requires
        effective * 10000 <= u64::MAX,
    ensures
        r == if used > 0 {
            effective * 10000 / (used as int)
        } else {
            none as int
        },
{
    if used > 0 {
        effective * 10000 / used
    } else {
        none
    }
}

/// Length of the bar drawn for a heap filled to `permyriad`, out of 50.
pub fn fill(permyriad: u64) -> (r: usize)
    ensures
        r == if permyriad > 10000 {
            50
        } else {
            permyriad / 200
        },
        r <= 50,
{
    if permyriad > 10000 {
        50
    } else {
        (permyriad / 200) as usize
    }
}

/// Shade of a used share: the fuller, the warmer.
pub open spec fn shade_spec(permyriad: u64) -> Shade {
    if permyriad > 7500 {
        Shade::Red
    } else if permyriad > 5000 {
        Shade::Yellow
    } else if permyriad > 2500 {
        Shade::Green
    } else if permyriad > 100 {
        Shade::Blue
    } else {
        Shade::White
    }
}

/// Shade of an effective share: the lower, the warmer.
pub open spec fn inverted_shade_spec(permyriad: u64) -> Shade {
    if permyriad > 9900 {
        Shade::White
    } else if permyriad > 7500 {
        Shade::Blue
    } else if permyriad > 5000 {
        Shade::Green
    } else if permyriad > 2500 {
        Shade::Yellow
    } else {
        Shade::Red
    }
}

/// Shade of a used share.
pub fn shade(permyriad: u64) -> (r: Shade)
    ensures
        r == shade_spec(permyriad),
{
    if permyriad > 7500 {
        Shade::Red
    } else if permyriad > 5000 {
        Shade::Yellow
    } else if permyriad > 2500 {
        Shade::Green
    } else if permyriad > 100 {
        Shade::Blue
    } else {
        Shade::White
    }
}

/// Shade of an effective share.
pub fn inverted_shade(permyriad: u64) -> (r: Shade)
    ensures
        r == inverted_shade_spec(permyriad),
{
    if permyriad > 9900 {
        Shade::White
    } else if permyriad > 7500 {
        Shade::Blue
    } else if permyriad > 5000 {
        Shade::Green
    } else if permyriad > 2500 {
        Shade::Yellow
    } else {
        Shade::Red
    }
}

/// How warm a shade is, from white up to red.
pub open spec fn warmth(s: Shade) -> int {
    match s {
        Shade::White => 0,
        Shade::Blue => 1,
        Shade::Green => 2,
        Shade::Yellow => 3,
        Shade::Red => 4,
    }
}

/// The fuller a heap, the warmer its used share is shaded, from white when nearly empty to
/// red when full; the more of the used bytes are effectively used, the cooler the effective
/// share is shaded, from red when none are to white when all are.
pub proof fn lemma_shades_ordered(p: u64, q: u64)
    requires
        p <= q,
    ensures
        warmth(shade_spec(p)) <= warmth(shade_spec(q)),
        warmth(inverted_shade_spec(q)) <= warmth(inverted_shade_spec(p)),
        shade_spec(0) == Shade::White && shade_spec(10000) == Shade::Red,
        inverted_shade_spec(0) == Shade::Red && inverted_shade_spec(10000) == Shade::White,
{
}

/// A part of a whole is at most all of it: used bytes within a heap give at most 10000.
pub proof fn lemma_permyriad_bounded(part: u64, whole: u64)
    requires
        whole > 0,
        part <= whole,
    ensures
        part * 10000 / (whole as int) <= 10000,
{
    assert(part * 10000 <= whole * 10000) by (nonlinear_arith)
        requires part <= whole;
    vstd::arithmetic::div_mod::lemma_div_is_ordered(part * 10000, whole * 10000, whole as int);
    vstd::arithmetic::div_mod::lemma_div_multiples_vanish(10000, whole as int);
}

} // verus!
