//! Color classification: the native color profile of a decoded image and
//! the colorfulness ratio of its pixels.

use vstd::prelude::*;
use vstd::multiset::Multiset;
use crate::pixel::{is_colorful, sat_times_value};

verus! {

/// The native channel/bit-depth layout of a decoded image, as the codec
/// reports it. `Other` stands for any layout outside the fixed set the
/// classifier understands; classifying it is an explicit error.
#[derive(Clone, Copy, Debug, PartialEq, Eq, Structural)]
pub enum PixelLayout {
    L8,
    La8,
    L16,
    La16,
    Rgb8,
    Rgba8,
    Rgb16,
    Rgba16,
    Rgb32F,
    Rgba32F,
    Other,
}

/// Whether an image's native representation carries independent color
/// channels (`Color`) or only luminance, optionally with alpha
/// (`Grayscale`).
#[derive(Clone, Copy, Debug, PartialEq, Eq, Structural)]
pub enum ColorProfile {
    Grayscale,
    Color,
}

/// Why classification failed.
#[derive(Clone, Copy, Debug, PartialEq, Eq, Structural)]
pub enum ClassifyError {
    /// A pixel layout outside the recognized set.
    UnknownLayout,
    /// A pixel buffer holding no complete pixel.
    EmptyImage,
}

/// The layouts that carry only luminance (plus optional alpha).
pub open spec fn is_luma_layout(layout: PixelLayout) -> bool {
    layout == PixelLayout::L8 || layout == PixelLayout::La8 || layout == PixelLayout::L16
        || layout == PixelLayout::La16
}

/// The layouts that carry independent red/green/blue channels.
pub open spec fn is_rgb_layout(layout: PixelLayout) -> bool {
    layout == PixelLayout::Rgb8 || layout == PixelLayout::Rgba8 || layout == PixelLayout::Rgb16
        || layout == PixelLayout::Rgba16 || layout == PixelLayout::Rgb32F
        || layout == PixelLayout::Rgba32F
}

/// The native color profile of an image with the given pixel layout:
/// luma-only or luma+alpha layouts are `Grayscale`, layouts with
/// red/green/blue channels are `Color`, anything else is an error.
pub fn native_profile(layout: PixelLayout) -> (profile: Result<ColorProfile, ClassifyError>)
    ensures
        is_luma_layout(layout) ==> profile == Ok::<_, ClassifyError>(ColorProfile::Grayscale),
        is_rgb_layout(layout) ==> profile == Ok::<_, ClassifyError>(ColorProfile::Color),
        !is_luma_layout(layout) && !is_rgb_layout(layout) ==> profile == Err::<ColorProfile, _>(
            ClassifyError::UnknownLayout,
        ),
{
    match layout {
        PixelLayout::L8 | PixelLayout::La8 | PixelLayout::L16 | PixelLayout::La16 => Ok(
            ColorProfile::Grayscale,
        ),
        PixelLayout::Rgb8 | PixelLayout::Rgba8 | PixelLayout::Rgb16 | PixelLayout::Rgba16
            | PixelLayout::Rgb32F | PixelLayout::Rgba32F => Ok(ColorProfile::Color),
        PixelLayout::Other => Err(ClassifyError::UnknownLayout),
    }
}

/// Whether the image's native profile is `Color`; errors on an
/// unrecognized layout.
pub fn is_color_profile(layout: PixelLayout) -> (color: Result<bool, ClassifyError>)
    ensures
        is_luma_layout(layout) ==> color == Ok::<_, ClassifyError>(false),
        is_rgb_layout(layout) ==> color == Ok::<_, ClassifyError>(true),
        !is_luma_layout(layout) && !is_rgb_layout(layout) ==> color == Err::<bool, _>(
            ClassifyError::UnknownLayout,
        ),
{
    match native_profile(layout) {
        Ok(ColorProfile::Color) => Ok(true),
        Ok(ColorProfile::Grayscale) => Ok(false),
        Err(e) => Err(e),
    }
}

/// The sequence of `(r, g, b)` triples held by a flat byte buffer in
/// red-green-blue order; a trailing fragment shorter than one pixel is
/// ignored.
pub open spec fn triples(bytes: Seq<u8>) -> Seq<(u8, u8, u8)> {
    Seq::new((bytes.len() / 3) as nat, |i: int| (bytes[3 * i], bytes[3 * i + 1], bytes[3 * i + 2]))
}

/// Whether one `(r, g, b)` triple is colorful under the threshold.
pub open spec fn triple_colorful(p: (u8, u8, u8), threshold: u32) -> bool {
    is_colorful(p.0, p.1, p.2, threshold)
}

/// How many triples of a pixel sequence are colorful under the threshold.
pub open spec fn count_colorful(pixels: Seq<(u8, u8, u8)>, threshold: u32) -> nat
    decreases pixels.len(),
{
    if pixels.len() == 0 {
        0
    } else {
        count_colorful(pixels.drop_last(), threshold) + if triple_colorful(
            pixels.last(),
            threshold,
        ) {
            1nat
        } else {
            0nat
        }
    }
}

/// The colorful count never exceeds the pixel count.
pub proof fn lemma_count_colorful_le_len(pixels: Seq<(u8, u8, u8)>, threshold: u32)
    ensures
        count_colorful(pixels, threshold) <= pixels.len(),
    decreases pixels.len(),
{
    if pixels.len() > 0 {
        lemma_count_colorful_le_len(pixels.drop_last(), threshold);
    }
}

/// The colorful count is zero exactly when no triple is colorful.
pub proof fn lemma_count_colorful_zero(pixels: Seq<(u8, u8, u8)>, threshold: u32)
    ensures
        count_colorful(pixels, threshold) == 0 <==> (forall|i: int|
            0 <= i < pixels.len() ==> !triple_colorful(#[trigger] pixels[i], threshold)),
    decreases pixels.len(),
{
    if pixels.len() > 0 {
        lemma_count_colorful_zero(pixels.drop_last(), threshold);
        if count_colorful(pixels, threshold) == 0 {
            assert forall|i: int| 0 <= i < pixels.len() implies !triple_colorful(
                #[trigger] pixels[i],
                threshold,
            ) by {
                if i < pixels.len() - 1 {
                    assert(pixels.drop_last()[i] == pixels[i]);
                }
            }
        } else {
            if count_colorful(pixels.drop_last(), threshold) == 0 {
                assert(triple_colorful(pixels.last(), threshold));
            } else {
                let j = choose|j: int|
                    0 <= j < pixels.drop_last().len() && triple_colorful(
                        #[trigger] pixels.drop_last()[j],
                        threshold,
                    );
                assert(pixels[j] == pixels.drop_last()[j]);
            }
        }
    }
}

/// How many pixels of a bag of `(r, g, b)` triples are colorful under the
/// threshold; a bag has no order.
pub open spec fn count_colorful_bag(pixels: Multiset<(u8, u8, u8)>, threshold: u32) -> nat {
    pixels.filter(|p: (u8, u8, u8)| triple_colorful(p, threshold)).len()
}

/// The colorful count of a pixel sequence is the colorful count of the
/// bag of its pixels: the sequence's order plays no part.
pub proof fn lemma_count_colorful_bag(pixels: Seq<(u8, u8, u8)>, threshold: u32)
    ensures
        count_colorful(pixels, threshold) == count_colorful_bag(pixels.to_multiset(), threshold),
    decreases pixels.len(),
{
    broadcast use vstd::multiset::group_multiset_axioms;
    broadcast use vstd::seq_lib::group_to_multiset_ensures;

    let colorful = |p: (u8, u8, u8)| triple_colorful(p, threshold);
    if pixels.len() == 0 {
        assert(pixels.to_multiset().len() == 0);
        assert forall|v: (u8, u8, u8)|
            pixels.to_multiset().filter(colorful).count(v) == 0 by {
            assert(pixels.to_multiset().count(v) <= pixels.to_multiset().len());
        }
        assert(pixels.to_multiset().filter(colorful) =~= Multiset::empty());
    } else {
        let prefix = pixels.drop_last();
        let last = pixels.last();
        lemma_count_colorful_bag(prefix, threshold);
        assert(pixels =~= prefix.push(last));
        assert(pixels.to_multiset() =~= prefix.to_multiset().insert(last));
        let fprefix = prefix.to_multiset().filter(colorful);
        if colorful(last) {
            assert(pixels.to_multiset().filter(colorful) =~= fprefix.insert(last));
            vstd::multiset::lemma_insert_len(fprefix, last);
        } else {
            assert(pixels.to_multiset().filter(colorful) =~= fprefix);
        }
    }
}

/// The colorfulness count is invariant to pixel ordering: two pixel
/// sequences holding the same pixels, however arranged, have the same
/// colorful count.
pub proof fn lemma_count_colorful_permutation(
    first: Seq<(u8, u8, u8)>,
    second: Seq<(u8, u8, u8)>,
    threshold: u32,
)
    requires
        first.to_multiset() == second.to_multiset(),
    ensures
        count_colorful(first, threshold) == count_colorful(second, threshold),
{
    lemma_count_colorful_bag(first, threshold);
    lemma_count_colorful_bag(second, threshold);
}

/// The exact colorfulness of a pixel buffer: how many of its pixels are
/// colorful, out of how many pixels in all. The ratio of the two is the
/// colorfulness ratio; keeping the pair exact avoids rounding.
#[derive(Clone, Copy, Debug, PartialEq, Eq, Structural)]
pub struct ColorRatio {
    /// Pixels whose saturation-times-value product exceeds the threshold.
    pub colorful: usize,
    /// All pixels of the buffer.
    pub total: usize,
}

/// Counts the colorful pixels of a flat red-green-blue byte buffer under
/// the given threshold; errors on a buffer with no complete pixel.
pub fn color_pixel_ratio(rgb: &[u8], threshold: u32) -> (ratio: Result<ColorRatio, ClassifyError>)
    ensures
        ratio matches Ok(cr) ==> {
            &&& cr.total == triples(rgb@).len()
            &&& cr.colorful == count_colorful(triples(rgb@), threshold)
            &&& cr.total > 0
        },
        ratio is Err <==> rgb@.len() < 3,
        ratio matches Err(e) ==> e == ClassifyError::EmptyImage,
{
    let len = rgb.len();
    let n = len / 3;
    proof {
        assert(3 * (rgb@.len() as int / 3) <= rgb@.len() as int) by (nonlinear_arith);
    }
    if n == 0 {
        return Err(ClassifyError::EmptyImage);
    }
    let mut colorful: usize = 0;
    let mut i: usize = 0;
    while i < n
        invariant
            0 <= i <= n,
            n == rgb@.len() / 3,
            3 * n <= rgb@.len() <= usize::MAX,
            colorful == count_colorful(triples(rgb@).take(i as int), threshold),
            colorful <= i,
        decreases n - i,
    {
        proof {
            assert(3 * (i as int) + 2 < 3 * (n as int));
        }
        let r = rgb[3 * i];
        let g = rgb[3 * i + 1];
        let b = rgb[3 * i + 2];
        let sv = sat_times_value(r, g, b);
        proof {
            assert(triples(rgb@).take(i as int + 1).drop_last() =~= triples(rgb@).take(i as int));
            assert(triples(rgb@).take(i as int + 1).last() == (r, g, b));
        }
        if sv > threshold {
            colorful += 1;
        }
        i += 1;
    }
    proof {
        assert(triples(rgb@).take(n as int) =~= triples(rgb@));
    }
    Ok(ColorRatio { colorful, total: n })
}

} // verus!
