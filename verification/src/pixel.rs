//! Per-pixel saturation/value math for the colorfulness heuristic.
//!
//! `value` is the largest of the three channels and `saturation` is
//! `255 * (max - min) / max` (integer division, 0 when `max` is 0).
//! A pixel counts as colorful when `saturation * value` exceeds a
//! threshold.

use vstd::prelude::*;

verus! {

/// The largest of three channel values.
pub open spec fn max3(r: u8, g: u8, b: u8) -> u8 {
    if r >= g && r >= b {
        r
    } else if g >= b {
        g
    } else {
        b
    }
}

/// The smallest of three channel values.
pub open spec fn min3(r: u8, g: u8, b: u8) -> u8 {
    if r <= g && r <= b {
        r
    } else if g <= b {
        g
    } else {
        b
    }
}

/// HSV-style saturation of a pixel: `255 * (max - min) / max`,
/// rounded toward zero, and 0 for a black pixel.
pub open spec fn sat(r: u8, g: u8, b: u8) -> int {
    if max3(r, g, b) == 0 {
        0
    } else {
        255 * (max3(r, g, b) - min3(r, g, b)) / (max3(r, g, b) as int)
    }
}

/// Whether a pixel's saturation times value exceeds the threshold.
pub open spec fn is_colorful(r: u8, g: u8, b: u8, threshold: u32) -> bool {
    sat(r, g, b) * (max3(r, g, b) as int) > threshold
}

/// Saturation lies in `[0, 255]`.
pub proof fn lemma_sat_bounds(r: u8, g: u8, b: u8)
    ensures
        0 <= sat(r, g, b) <= 255,
{
    let mx = max3(r, g, b) as int;
    let mn = min3(r, g, b) as int;
    if mx != 0 {
        assert(0 <= mn <= mx);
        assert(255 * (mx - mn) <= 255 * mx) by (nonlinear_arith)
            requires 0 <= mn <= mx;
        assert(0 <= 255 * (mx - mn) / mx <= 255 * mx / mx) by (nonlinear_arith)
            requires 0 < mx && 0 <= 255 * (mx - mn) <= 255 * mx;
        assert(255 * mx / mx == 255) by (nonlinear_arith)
            requires 0 < mx;
    }
}

/// The largest of the three channels.
pub fn max(r: u8, g: u8, b: u8) -> (m: u8)
    ensures
        m == max3(r, g, b),
{
    if r >= g && r >= b {
        r
    } else if g >= b {
        g
    } else {
        b
    }
}

/// The smallest of the three channels.
pub fn min(r: u8, g: u8, b: u8) -> (m: u8)
    ensures
        m == min3(r, g, b),
{
    if r <= g && r <= b {
        r
    } else if g <= b {
        g
    } else {
        b
    }
}

/// The HSV-style value of a pixel: its largest channel.
pub fn v(r: u8, g: u8, b: u8) -> (value: u8)
    ensures
        value == max3(r, g, b),
{
    max(r, g, b)
}

/// The HSV-style saturation of a pixel, on the `[0, 255]` scale.
pub fn s(r: u8, g: u8, b: u8) -> (saturation: u8)
    ensures
        saturation as int == sat(r, g, b),
{
    let mx = max(r, g, b);
    let mn = min(r, g, b);
    if mx == 0 {
        0
    } else {
        let num: u32 = 255 * ((mx - mn) as u32);
        let q: u32 = num / (mx as u32);
        proof {
            lemma_sat_bounds(r, g, b);
        }
        q as u8
    }
}

/// The saturation-times-value product the heuristic compares against
/// the threshold.
pub fn sat_times_value(r: u8, g: u8, b: u8) -> (sv: u32)
    ensures
        sv as int == sat(r, g, b) * (max3(r, g, b) as int),
{
    let sa = s(r, g, b);
    let va = v(r, g, b);
    proof {
        assert((sa as int) * (va as int) <= 255 * 255) by (nonlinear_arith)
            requires sa <= 255 && va <= 255;
    }
    (sa as u32) * (va as u32)
}

} // verus!
