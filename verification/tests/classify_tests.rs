use lumabatch::classify::{
    color_pixel_ratio, is_color_profile, native_profile, ClassifyError, ColorProfile, PixelLayout,
};
use lumabatch::decide::COLORFUL_THRESHOLD;

#[test]
fn luma_layouts_are_grayscale() {
    for layout in [PixelLayout::L8, PixelLayout::La8, PixelLayout::L16, PixelLayout::La16] {
        assert_eq!(native_profile(layout), Ok(ColorProfile::Grayscale));
        assert_eq!(is_color_profile(layout), Ok(false));
    }
}

#[test]
fn rgb_layouts_are_color() {
    for layout in [
        PixelLayout::Rgb8,
        PixelLayout::Rgba8,
        PixelLayout::Rgb16,
        PixelLayout::Rgba16,
        PixelLayout::Rgb32F,
        PixelLayout::Rgba32F,
    ] {
        assert_eq!(native_profile(layout), Ok(ColorProfile::Color));
        assert_eq!(is_color_profile(layout), Ok(true));
    }
}

#[test]
fn unknown_layout_is_an_error() {
    assert_eq!(native_profile(PixelLayout::Other), Err(ClassifyError::UnknownLayout));
    assert_eq!(is_color_profile(PixelLayout::Other), Err(ClassifyError::UnknownLayout));
}

#[test]
fn ratio_of_gray_pixels_is_zero() {
    let rgb = vec![10, 10, 10, 200, 200, 200, 0, 0, 0];
    let ratio = color_pixel_ratio(&rgb, COLORFUL_THRESHOLD).unwrap();
    assert_eq!(ratio.colorful, 0);
    assert_eq!(ratio.total, 3);
}

#[test]
fn ratio_counts_colorful_pixels() {
    // Saturated red and blue count; the gray pixel does not.
    let rgb = vec![255, 0, 0, 128, 128, 128, 0, 0, 255];
    let ratio = color_pixel_ratio(&rgb, COLORFUL_THRESHOLD).unwrap();
    assert_eq!(ratio.colorful, 2);
    assert_eq!(ratio.total, 3);
}

#[test]
fn ratio_is_strictly_above_threshold() {
    // A pure color pixel has saturation * value == 255 * 255 == 65025.
    let rgb = vec![0, 255, 0];
    let at = color_pixel_ratio(&rgb, 65025).unwrap();
    assert_eq!(at.colorful, 0);
    let below = color_pixel_ratio(&rgb, 65024).unwrap();
    assert_eq!(below.colorful, 1);
}

#[test]
fn ratio_example_pixel_is_colorful() {
    // (100, 150, 200): saturation 127, value 200, product 25400.
    let rgb = vec![100, 150, 200];
    assert_eq!(color_pixel_ratio(&rgb, COLORFUL_THRESHOLD).unwrap().colorful, 1);
    assert_eq!(color_pixel_ratio(&rgb, 25400).unwrap().colorful, 0);
    assert_eq!(color_pixel_ratio(&rgb, 25399).unwrap().colorful, 1);
}

#[test]
fn ratio_of_empty_buffer_is_an_error() {
    let rgb: Vec<u8> = vec![];
    assert_eq!(color_pixel_ratio(&rgb, COLORFUL_THRESHOLD), Err(ClassifyError::EmptyImage));
    let fragment = vec![255, 0];
    assert_eq!(color_pixel_ratio(&fragment, COLORFUL_THRESHOLD), Err(ClassifyError::EmptyImage));
}

#[test]
fn ratio_ignores_trailing_fragment() {
    let rgb = vec![255, 0, 0, 128, 128];
    let ratio = color_pixel_ratio(&rgb, COLORFUL_THRESHOLD).unwrap();
    assert_eq!(ratio.colorful, 1);
    assert_eq!(ratio.total, 1);
}

#[test]
fn ratio_is_order_independent() {
    let forward = vec![255, 0, 0, 10, 10, 10, 0, 0, 255, 77, 77, 77];
    let backward = vec![77, 77, 77, 0, 0, 255, 10, 10, 10, 255, 0, 0];
    let a = color_pixel_ratio(&forward, COLORFUL_THRESHOLD).unwrap();
    let b = color_pixel_ratio(&backward, COLORFUL_THRESHOLD).unwrap();
    assert_eq!(a, b);
}
