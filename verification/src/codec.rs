//! The conversion pipeline around the image codec: decode, resize,
//! classify, decide, re-encode.
//!
//! The codec itself is the `image` crate, reached only through the
//! trusted wrappers in this module; everything between the calls is
//! verified. Decoding, resizing, channel conversion and in-memory
//! encoding are each deterministic in their arguments, so their results
//! are named by uninterpreted functions, and the pipeline's contract is
//! stated by composing those names.

use vstd::prelude::*;
use image::codecs::avif::AvifEncoder;
use crate::classify::{
    color_pixel_ratio, count_colorful, is_color_profile, is_rgb_layout, triples, ColorProfile,
    PixelLayout,
};
use crate::decide::{decide_output, decision, or_source, target_dims, COLORFUL_THRESHOLD};

verus! {

/// A decoded image of the `image` crate, opaque to the verifier; the
/// uninterpreted functions below name what the codec reports about it
/// and what its deterministic operations produce.
#[verifier::external_type_specification]
#[verifier::external_body]
pub struct ExDynamicImage(image::DynamicImage);

/// Whether decoding a byte buffer succeeds; decoding is a function of the
/// bytes alone.
pub uninterp spec fn decode_ok(bytes: Seq<u8>) -> bool;

/// The image decoded from a byte buffer, when decoding succeeds.
pub uninterp spec fn decoded_image(bytes: Seq<u8>) -> image::DynamicImage;

/// The native pixel layout of the image decoded from a byte buffer.
pub uninterp spec fn decoded_layout(bytes: Seq<u8>) -> PixelLayout;

/// The pixel width the codec reports for an image.
pub uninterp spec fn image_width(img: image::DynamicImage) -> nat;

/// The pixel height the codec reports for an image.
pub uninterp spec fn image_height(img: image::DynamicImage) -> nat;

/// The native pixel layout the codec reports for an image.
pub uninterp spec fn image_layout(img: image::DynamicImage) -> PixelLayout;

/// The flat bytes of the codec's 3-channel red/green/blue view of an
/// image.
pub uninterp spec fn image_rgb(img: image::DynamicImage) -> Seq<u8>;

/// The image a Lanczos resize of an image to the given dimensions
/// produces.
pub uninterp spec fn resized_image(
    img: image::DynamicImage,
    width: u32,
    height: u32,
) -> image::DynamicImage;

/// The single-channel image an image converts to.
pub uninterp spec fn luma_image(img: image::DynamicImage) -> image::DynamicImage;

/// The three-channel image an image converts to.
pub uninterp spec fn rgb_image(img: image::DynamicImage) -> image::DynamicImage;

/// Whether serializing an image to the format named by the extension
/// succeeds; the encoders run single-threaded into an in-memory buffer,
/// which makes the outcome a function of the arguments.
pub uninterp spec fn encode_ok(img: image::DynamicImage, ext: Seq<char>) -> bool;

/// The bytes an image serializes to in the format named by the
/// extension.
pub uninterp spec fn encoded_bytes(img: image::DynamicImage, ext: Seq<char>) -> Seq<u8>;

/// Relies on `image::guess_format`, `ImageReader::with_format` and
/// `decode`: the guess reads only the built-in magic-byte table, and a
/// format set this way decodes through the built-in decoders — neither
/// consults the crate's registrable hook tables — so success, the
/// decoded image, and its layout are functions of the bytes.
#[verifier::external_body]
fn decode_image(bytes: &[u8]) -> (decoded: Result<image::DynamicImage, String>)
    ensures
        decoded is Ok <==> decode_ok(bytes@),
        decoded matches Ok(img) ==> img == decoded_image(bytes@) && image_layout(img)
            == decoded_layout(bytes@),
{
    let format = match image::guess_format(bytes) {
        Ok(format) => format,
        Err(e) => return Err(e.to_string()),
    };
    let reader = image::ImageReader::with_format(std::io::Cursor::new(bytes), format);
    reader.decode().map_err(|e| e.to_string())
}

/// Relies on `GenericImageView::dimensions`: the width and height of the
/// image.
#[verifier::external_body]
fn image_dims(img: &image::DynamicImage) -> (dims: (u32, u32))
    ensures
        dims.0 as nat == image_width(*img),
        dims.1 as nat == image_height(*img),
{
    image::GenericImageView::dimensions(img)
}

/// Relies on `DynamicImage::resize_exact`: the result is a function of
/// the image and the requested dimensions, has exactly those dimensions
/// with no aspect-ratio correction, and keeps the image's native layout.
#[verifier::external_body]
fn resize_lanczos(img: &image::DynamicImage, width: u32, height: u32) -> (resized:
    image::DynamicImage)
    requires
        width > 0,
        height > 0,
    ensures
        resized == resized_image(*img, width, height),
        image_width(resized) == width as nat,
        image_height(resized) == height as nat,
        image_layout(resized) == image_layout(*img),
{
    img.resize_exact(width, height, image::imageops::FilterType::Lanczos3)
}

/// Relies on `DynamicImage::color`: the codec's color type, mapped onto
/// the classifier's layout enumeration one variant at a time.
#[verifier::external_body]
fn native_layout(img: &image::DynamicImage) -> (layout: PixelLayout)
    ensures
        layout == image_layout(*img),
{
    match img.color() {
        image::ColorType::L8 => PixelLayout::L8,
        image::ColorType::La8 => PixelLayout::La8,
        image::ColorType::L16 => PixelLayout::L16,
        image::ColorType::La16 => PixelLayout::La16,
        image::ColorType::Rgb8 => PixelLayout::Rgb8,
        image::ColorType::Rgba8 => PixelLayout::Rgba8,
        image::ColorType::Rgb16 => PixelLayout::Rgb16,
        image::ColorType::Rgba16 => PixelLayout::Rgba16,
        image::ColorType::Rgb32F => PixelLayout::Rgb32F,
        image::ColorType::Rgba32F => PixelLayout::Rgba32F,
        _ => PixelLayout::Other,
    }
}

/// Relies on `DynamicImage::to_rgb8` and `ImageBuffer::into_raw`: the raw
/// bytes of the 3-channel view, at least three per pixel.
#[verifier::external_body]
fn rgb_bytes(img: &image::DynamicImage) -> (bytes: Vec<u8>)
    ensures
        bytes@ == image_rgb(*img),
        bytes@.len() >= 3 * image_width(*img) * image_height(*img),
{
    img.to_rgb8().into_raw()
}

/// Relies on `DynamicImage::into_luma8`: a single-channel image of the
/// same dimensions, a function of the image.
#[verifier::external_body]
fn to_luma(img: image::DynamicImage) -> (gray: image::DynamicImage)
    ensures
        gray == luma_image(img),
        image_layout(gray) == PixelLayout::L8,
        image_width(gray) == image_width(img),
        image_height(gray) == image_height(img),
{
    image::DynamicImage::ImageLuma8(img.into_luma8())
}

/// Relies on `DynamicImage::into_rgb8`: a 3-channel image of the same
/// dimensions whose red/green/blue view is unchanged, a function of the
/// image.
#[verifier::external_body]
fn to_rgb(img: image::DynamicImage) -> (color: image::DynamicImage)
    ensures
        color == rgb_image(img),
        image_layout(color) == PixelLayout::Rgb8,
        image_width(color) == image_width(img),
        image_height(color) == image_height(img),
        image_rgb(color) == image_rgb(img),
{
    image::DynamicImage::ImageRgb8(img.into_rgb8())
}

/// Relies on `ImageFormat::from_extension` and `DynamicImage::write_to`
/// / `write_with_encoder`: serializes the image to the format named by
/// the extension, into an in-memory buffer; an unknown extension is
/// always refused. The AVIF encoder is pinned to one thread, since it
/// otherwise derives its tile layout from the machine's thread count;
/// with that pinned, success and the produced bytes are functions of the
/// image and the extension.
#[verifier::external_body]
fn encode_image(img: &image::DynamicImage, ext: &str) -> (encoded: Result<Vec<u8>, String>)
    ensures
        encoded is Ok <==> encode_ok(*img, ext@),
        encoded matches Ok(bytes) ==> bytes@ == encoded_bytes(*img, ext@),
{
    match image::ImageFormat::from_extension(ext) {
        Some(image::ImageFormat::Avif) => {
            let mut buffer = Vec::new();
            let encoder = AvifEncoder::new(&mut buffer).with_num_threads(Some(1));
            img.write_with_encoder(encoder).map_err(|e| e.to_string())?;
            Ok(buffer)
        },
        Some(format) => {
            let mut buffer = std::io::Cursor::new(Vec::new());
            img.write_to(&mut buffer, format).map_err(|e| e.to_string())?;
            Ok(buffer.into_inner())
        },
        None => Err(format!("unknown output extension: {}", ext)),
    }
}

/// The resize target on the horizontal axis: the requested width,
/// defaulting to the decoded source's own.
pub open spec fn spec_target_width(bytes: Seq<u8>, width: Option<u32>) -> u32 {
    or_source(width, image_width(decoded_image(bytes)) as u32)
}

/// The resize target on the vertical axis: the requested height,
/// defaulting to the decoded source's own.
pub open spec fn spec_target_height(bytes: Seq<u8>, height: Option<u32>) -> u32 {
    or_source(height, image_height(decoded_image(bytes)) as u32)
}

/// The resized form of the decoded image, at the target dimensions.
pub open spec fn spec_resized(
    bytes: Seq<u8>,
    width: Option<u32>,
    height: Option<u32>,
) -> image::DynamicImage {
    resized_image(
        decoded_image(bytes),
        spec_target_width(bytes, width),
        spec_target_height(bytes, height),
    )
}

/// The representation the decision engine picks for these inputs: the
/// decision table applied to the source's native profile and the
/// colorful-pixel count of the resized image.
pub open spec fn spec_profile(
    bytes: Seq<u8>,
    width: Option<u32>,
    height: Option<u32>,
    force_monochrome: bool,
    aggressive_optimization: bool,
) -> ColorProfile {
    decision(
        force_monochrome,
        is_rgb_layout(decoded_layout(bytes)),
        aggressive_optimization,
        count_colorful(triples(image_rgb(spec_resized(bytes, width, height))), COLORFUL_THRESHOLD),
    )
}

/// The image the pipeline hands to the encoder: the resized image in the
/// representation the decision engine picks.
pub open spec fn spec_converted(
    bytes: Seq<u8>,
    width: Option<u32>,
    height: Option<u32>,
    force_monochrome: bool,
    aggressive_optimization: bool,
) -> image::DynamicImage {
    if spec_profile(bytes, width, height, force_monochrome, aggressive_optimization)
        == ColorProfile::Grayscale {
        luma_image(spec_resized(bytes, width, height))
    } else {
        rgb_image(spec_resized(bytes, width, height))
    }
}

/// Why one item's conversion failed; none of these aborts a batch.
#[derive(Debug)]
pub enum ConvertError {
    /// The bytes are not a decodable image.
    Decode(String),
    /// The target dimensions are malformed (an axis of zero).
    Resize,
    /// The decoded image's pixel layout is outside the recognized set.
    Classify,
    /// The output format is unknown or refused the image.
    Encode(String),
}

/// Converts one image: decodes the bytes, resizes to the target
/// dimensions, classifies the resized pixels, decides between a
/// grayscale and a color representation, and encodes the result in the
/// format named by `ext`.
///
/// The contract fixes the outcome for every input: success exactly when
/// each stage accepts its input, the returned bytes exactly the encoding
/// of the converted image — which carries the decided representation and
/// the target dimensions — and each error exactly on the inputs whose
/// stage refuses them.
pub fn convert(
    content: &[u8],
    width: Option<u32>,
    height: Option<u32>,
    force_monochrome: bool,
    aggressive_optimization: bool,
    ext: &str,
) -> (out: Result<Vec<u8>, ConvertError>)
    ensures
        out is Ok <==> ({
            &&& decode_ok(content@)
            &&& spec_target_width(content@, width) > 0
            &&& spec_target_height(content@, height) > 0
            &&& decoded_layout(content@) != PixelLayout::Other
            &&& encode_ok(
                spec_converted(content@, width, height, force_monochrome, aggressive_optimization),
                ext@,
            )
        }),
        out matches Ok(bytes) ==> bytes@ == encoded_bytes(
            spec_converted(content@, width, height, force_monochrome, aggressive_optimization),
            ext@,
        ),
        out is Ok ==> image_layout(
            spec_converted(content@, width, height, force_monochrome, aggressive_optimization),
        ) == (if spec_profile(content@, width, height, force_monochrome, aggressive_optimization)
            == ColorProfile::Grayscale {
            PixelLayout::L8
        } else {
            PixelLayout::Rgb8
        }),
        out is Ok ==> image_width(
            spec_converted(content@, width, height, force_monochrome, aggressive_optimization),
        ) == spec_target_width(content@, width) && image_height(
            spec_converted(content@, width, height, force_monochrome, aggressive_optimization),
        ) == spec_target_height(content@, height),
        (out matches Err(e) && e is Decode) <==> !decode_ok(content@),
        (out matches Err(e) && e is Resize) <==> decode_ok(content@) && (spec_target_width(
            content@,
            width,
        ) == 0 || spec_target_height(content@, height) == 0),
        (out matches Err(e) && e is Classify) <==> decode_ok(content@) && spec_target_width(
            content@,
            width,
        ) > 0 && spec_target_height(content@, height) > 0 && decoded_layout(content@)
            == PixelLayout::Other,
        (out matches Err(e) && e is Encode) <==> decode_ok(content@) && spec_target_width(
            content@,
            width,
        ) > 0 && spec_target_height(content@, height) > 0 && decoded_layout(content@)
            != PixelLayout::Other && !encode_ok(
            spec_converted(content@, width, height, force_monochrome, aggressive_optimization),
            ext@,
        ),
{
    let img = match decode_image(content) {
        Ok(img) => img,
        Err(msg) => {
            return Err(ConvertError::Decode(msg));
        },
    };
    let (source_width, source_height) = image_dims(&img);
    let (new_width, new_height) = target_dims(width, height, source_width, source_height);
    proof {
        assert(new_width == spec_target_width(content@, width));
        assert(new_height == spec_target_height(content@, height));
    }
    if new_width == 0 || new_height == 0 {
        return Err(ConvertError::Resize);
    }
    let img = resize_lanczos(&img, new_width, new_height);
    let native_color = match is_color_profile(native_layout(&img)) {
        Ok(color) => color,
        Err(_) => {
            return Err(ConvertError::Classify);
        },
    };
    proof {
        assert(native_color == is_rgb_layout(decoded_layout(content@)));
    }
    let colorful: usize = if !force_monochrome && native_color && aggressive_optimization {
        let pixels = rgb_bytes(&img);
        proof {
            assert(3 * image_width(img) * image_height(img) >= 3) by (nonlinear_arith)
                requires image_width(img) >= 1 && image_height(img) >= 1;
        }
        match color_pixel_ratio(pixels.as_slice(), COLORFUL_THRESHOLD) {
            Ok(ratio) => ratio.colorful,
            Err(_) => {
                return Err(ConvertError::Classify);
            },
        }
    } else {
        0
    };
    let profile = decide_output(force_monochrome, native_color, aggressive_optimization, colorful);
    proof {
        assert(profile == spec_profile(
            content@,
            width,
            height,
            force_monochrome,
            aggressive_optimization,
        ));
    }
    let img = match profile {
        ColorProfile::Grayscale => to_luma(img),
        ColorProfile::Color => to_rgb(img),
    };
    match encode_image(&img, ext) {
        Ok(bytes) => Ok(bytes),
        Err(msg) => Err(ConvertError::Encode(msg)),
    }
}

} // verus!
