//! Colours, and how they become the three bytes of a pixel.
//!
//! A colour is a vector of linear intensities on a lattice of
//! [`COLOR_STEPS`] steps per unit: one unit is full intensity. A pixel is
//! written as gamma-corrected channels from 0 to 255.

use vstd::prelude::*;
use crate::camera::MAX_COLOR;
use crate::interval::{Bounds, Interval};
use crate::vec3::Vec3;

verus! {

pub type Color = Vec3;

/// Lattice steps per unit of intensity, the square of [`MAX_COLOR`]: the
/// square root of a whole number of steps then has its eight leading
/// bits before the point, and the channel is exact.
pub const COLOR_STEPS: i128 = 0x1_0000;

/// The greatest intensity below one unit, to which channels are clamped
/// so that none reaches [`MAX_COLOR`].
pub const BRIGHTEST: i128 = 0xffff;

/// The greatest linear intensity whose gamma correction the machine can
/// compute.
pub const MAX_LINEAR: i128 = 0xffff_ffff_ffff_ffff_ffff_ffff_ffff;

/// Whether `r` is the square root of `n`, rounded down.
pub open spec fn is_root(n: int, r: int) -> bool {
    0 <= r && r * r <= n < (r + 1) * (r + 1)
}

/// The square root of `n`, rounded down.
pub open spec fn root(n: nat) -> nat {
    choose|r: nat| is_root(n as int, r as int)
}

/// The display intensity of a linear intensity under a gamma of two: its
/// square root where it is positive, zero elsewhere. Both are in lattice
/// steps.
pub open spec fn gamma_of(component: int) -> int {
    if component > 0 {
        root((component * COLOR_STEPS) as nat) as int
    } else {
        0
    }
}

/// The channel value of a linear intensity: the display intensity,
/// clamped below one unit, scaled by [`MAX_COLOR`] and truncated.
pub open spec fn channel_of(component: int) -> int {
    (MAX_COLOR * (Bounds { min: 0, max: BRIGHTEST as int }).clamp(gamma_of(component)))
        / (COLOR_STEPS as int)
}

/// A number has one rounded-down square root.
pub proof fn lemma_root_is_unique(n: int, r: int, s: int)
    requires
        is_root(n, r),
        is_root(n, s),
    ensures
        r == s,
{
    if r < s {
        assert((r + 1) * (r + 1) <= s * s) by (nonlinear_arith)
            requires
                0 <= r,
                r + 1 <= s,
        ;
    } else if s < r {
        assert((s + 1) * (s + 1) <= r * r) by (nonlinear_arith)
            requires
                0 <= s,
                s + 1 <= r,
        ;
    }
}

/// Whatever passes for the rounded-down square root is it.
pub proof fn lemma_root_found(n: nat, r: int)
    requires
        is_root(n as int, r),
    ensures
        root(n) == r,
{
    let witness = r as nat;
    assert(is_root(n as int, witness as int));
    lemma_root_is_unique(n as int, r, root(n) as int);
}

/// The rounded-down square root never decreases as its argument grows.
pub proof fn lemma_root_is_monotone(m: int, n: int, r: int, s: int)
    requires
        m <= n,
        is_root(m, r),
        is_root(n, s),
    ensures
        r <= s,
{
    if s < r {
        assert((s + 1) * (s + 1) <= r * r) by (nonlinear_arith)
            requires
                0 <= s,
                s + 1 <= r,
        ;
    }
}

/// The square root of `n`, rounded down.
pub fn isqrt(n: u128) -> (r: u128)
    ensures
        r == root(n as nat),
        is_root(n as int, r as int),
        r <= u64::MAX,
{
    let mut lo: u128 = 0;
    let mut hi: u128 = 0x1_0000_0000_0000_0000;
    assert(0 * 0 <= n);
    assert(n < 0x1_0000_0000_0000_0000 * 0x1_0000_0000_0000_0000);
    while hi - lo > 1
        invariant
            lo < hi <= 0x1_0000_0000_0000_0000,
            lo * lo <= n < hi * hi,
        decreases hi - lo,
    {
        let mid: u128 = lo + (hi - lo) / 2;
        assert(mid * mid <= 0xffff_ffff_ffff_ffff * 0xffff_ffff_ffff_ffff) by (nonlinear_arith)
            requires
                0 <= mid <= 0xffff_ffff_ffff_ffff,
        ;
        if mid * mid <= n {
            lo = mid;
        } else {
            hi = mid;
        }
    }
    proof {
        lemma_root_found(n as nat, lo as int);
    }
    lo
}

/// Applies an inverse gamma-2 correction to a linear intensity, which
/// lets viewers display the image more accurately.
pub fn linear_to_gamma(component: i128) -> (display: i128)
    requires
        component <= MAX_LINEAR,
    ensures
        display == gamma_of(component as int),
{
    if component > 0 {
        let steps: u128 = component as u128;
        isqrt(steps * 0x1_0000) as i128
    } else {
        0
    }
}

/// The channel value of a linear intensity.
pub fn channel(component: i128) -> (value: u8)
    ensures
        value == channel_of(component as int),
{
    // Past one unit every intensity is clamped to the same value, so
    // saturating there first changes nothing and keeps the square root
    // within reach.
    let linear = Interval::new(0, COLOR_STEPS).clamp(component);
    let display = linear_to_gamma(linear);
    proof {
        lemma_saturated_gamma(component as int);
    }
    // From a display intensity in [0, 1) to the byte range [0, 255].
    let interval = Interval::new(0, BRIGHTEST);
    let clamped = interval.clamp(display);
    let scale: i128 = MAX_COLOR as i128;
    assert(scale * clamped <= 256 * 0xffff) by (nonlinear_arith)
        requires
            scale == 256,
            0 <= clamped <= 0xffff,
    ;
    ((scale * clamped) / COLOR_STEPS) as u8
}

impl Color {
    /// The red, green and blue channel values of the colour.
    pub fn output(&self) -> (rgb: (u8, u8, u8))
        ensures
            rgb.0 == channel_of(self@.x),
            rgb.1 == channel_of(self@.y),
            rgb.2 == channel_of(self@.z),
    {
        (channel(self.x()), channel(self.y()), channel(self.z()))
    }
}

/// An intensity of one unit or more has a display intensity of one unit
/// or more, and is clamped like one unit.
proof fn lemma_saturated_gamma(component: int)
    ensures
        (Bounds { min: 0, max: BRIGHTEST as int }).clamp(gamma_of(component)) == (Bounds {
            min: 0,
            max: BRIGHTEST as int,
        }).clamp(gamma_of((Bounds { min: 0, max: COLOR_STEPS as int }).clamp(component))),
{
    if component > COLOR_STEPS {
        lemma_gamma_laws(COLOR_STEPS as int, component);
    }
}

/// The display intensity is never negative, is zero for no light and one
/// unit for one unit, and never decreases as the light grows.
pub proof fn lemma_gamma_laws(dim: int, bright: int)
    requires
        dim <= bright,
    ensures
        0 <= gamma_of(dim) <= gamma_of(bright),
        dim <= 0 ==> gamma_of(dim) == 0,
        gamma_of(COLOR_STEPS as int) == COLOR_STEPS,
        is_root(
            if bright > 0 {
                bright * COLOR_STEPS
            } else {
                0
            },
            gamma_of(bright),
        ),
{
    lemma_gamma_is_root(dim);
    lemma_gamma_is_root(bright);
    lemma_root_found((COLOR_STEPS * COLOR_STEPS) as nat, COLOR_STEPS as int);
    if dim > 0 {
        lemma_root_is_monotone(
            dim * COLOR_STEPS,
            bright * COLOR_STEPS,
            gamma_of(dim),
            gamma_of(bright),
        );
    }
}

/// Every number has a rounded-down square root, so the display intensity
/// is one.
proof fn lemma_gamma_is_root(component: int)
    ensures
        is_root(
            if component > 0 {
                component * COLOR_STEPS
            } else {
                0
            },
            gamma_of(component),
        ),
{
    if component > 0 {
        let n = (component * COLOR_STEPS) as nat;
        lemma_root_exists(n);
    }
}

/// Every natural number has a rounded-down square root.
pub proof fn lemma_root_exists(n: nat)
    ensures
        is_root(n as int, root(n) as int),
    decreases n,
{
    if n == 0 {
        assert(is_root(0, 0));
    } else {
        lemma_root_exists((n - 1) as nat);
        let r = root((n - 1) as nat);
        if ((r + 1) * (r + 1)) as int <= n {
            assert((r + 1) * (r + 1) == n);
            assert((r + 2) * (r + 2) > (r + 1) * (r + 1)) by (nonlinear_arith)
                requires
                    r >= 0,
            ;
            assert(is_root(n as int, (r + 1) as int));
        } else {
            assert(is_root(n as int, r as int));
        }
    }
}

/// A channel value is a byte. No light gives 0, one unit of light and
/// more gives 255, and more light never gives less.
pub proof fn lemma_channel_laws(dim: int, bright: int)
    requires
        dim <= bright,
    ensures
        0 <= channel_of(dim) <= channel_of(bright) <= 255,
        dim <= 0 ==> channel_of(dim) == 0,
        bright >= COLOR_STEPS ==> channel_of(bright) == 255,
{
    lemma_gamma_laws(dim, bright);
    if bright >= COLOR_STEPS {
        lemma_gamma_laws(COLOR_STEPS as int, bright);
    }
}

} // verus!
