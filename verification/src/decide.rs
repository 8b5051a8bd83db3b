//! The conversion decision engine: which output representation an image
//! gets, and at which dimensions it is resized.

use vstd::prelude::*;
use crate::classify::ColorProfile;

verus! {

/// The saturation-times-value threshold of the aggressive-optimization
/// heuristic: a tenth of the scale's maximum `256 * 256`, rounded to the
/// nearest integer.
pub const COLORFUL_THRESHOLD: u32 = 6554;

/// The output representation for an image, by exact precedence: forcing
/// monochrome wins; a native grayscale source stays grayscale; a native
/// color source is downgraded only under aggressive optimization and only
/// when it has no colorful pixel; otherwise it stays color.
pub open spec fn decision(
    force_monochrome: bool,
    native_color: bool,
    aggressive_optimization: bool,
    colorful: nat,
) -> ColorProfile {
    if force_monochrome {
        ColorProfile::Grayscale
    } else if !native_color {
        ColorProfile::Grayscale
    } else if aggressive_optimization && colorful == 0 {
        ColorProfile::Grayscale
    } else {
        ColorProfile::Color
    }
}

/// Picks the output representation from the three independent signals and
/// the colorful-pixel count of the resized image.
pub fn decide_output(
    force_monochrome: bool,
    native_color: bool,
    aggressive_optimization: bool,
    colorful: usize,
) -> (profile: ColorProfile)
    ensures
        profile == decision(
            force_monochrome,
            native_color,
            aggressive_optimization,
            colorful as nat,
        ),
        force_monochrome ==> profile == ColorProfile::Grayscale,
        !force_monochrome && !native_color ==> profile == ColorProfile::Grayscale,
        !force_monochrome && native_color && !aggressive_optimization ==> profile
            == ColorProfile::Color,
        !force_monochrome && native_color && aggressive_optimization ==> profile == (
        if colorful == 0 {
            ColorProfile::Grayscale
        } else {
            ColorProfile::Color
        }),
{
    if force_monochrome || !native_color {
        ColorProfile::Grayscale
    } else if aggressive_optimization && colorful == 0 {
        ColorProfile::Grayscale
    } else {
        ColorProfile::Color
    }
}

/// A requested dimension, or the source's own when none was requested.
pub open spec fn or_source(requested: Option<u32>, source: u32) -> u32 {
    match requested {
        Some(d) => d,
        None => source,
    }
}

/// The target dimensions of the resize: each axis independently is the
/// requested size, defaulting to the source's size on that axis; no
/// aspect-ratio correction ties the two.
pub fn target_dims(
    width: Option<u32>,
    height: Option<u32>,
    source_width: u32,
    source_height: u32,
) -> (dims: (u32, u32))
    ensures
        dims.0 == or_source(width, source_width),
        dims.1 == or_source(height, source_height),
{
    let w = match width {
        Some(w) => w,
        None => source_width,
    };
    let h = match height {
        Some(h) => h,
        None => source_height,
    };
    (w, h)
}

} // verus!
