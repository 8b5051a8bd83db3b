use lumabatch::classify::ColorProfile;
use lumabatch::decide::{decide_output, target_dims};

#[test]
fn force_monochrome_always_wins() {
    assert_eq!(decide_output(true, true, true, 500), ColorProfile::Grayscale);
    assert_eq!(decide_output(true, true, false, 500), ColorProfile::Grayscale);
    assert_eq!(decide_output(true, false, true, 0), ColorProfile::Grayscale);
}

#[test]
fn native_grayscale_is_never_upgraded() {
    assert_eq!(decide_output(false, false, false, 500), ColorProfile::Grayscale);
    assert_eq!(decide_output(false, false, true, 500), ColorProfile::Grayscale);
}

#[test]
fn aggressive_downgrades_only_colorless_images() {
    assert_eq!(decide_output(false, true, true, 0), ColorProfile::Grayscale);
    assert_eq!(decide_output(false, true, true, 1), ColorProfile::Color);
}

#[test]
fn color_stays_color_by_default() {
    assert_eq!(decide_output(false, true, false, 0), ColorProfile::Color);
    assert_eq!(decide_output(false, true, false, 7), ColorProfile::Color);
}

#[test]
fn requested_dimensions_are_taken_exactly() {
    assert_eq!(target_dims(Some(100), Some(50), 640, 480), (100, 50));
}

#[test]
fn missing_dimensions_default_to_the_source() {
    assert_eq!(target_dims(None, None, 640, 480), (640, 480));
    assert_eq!(target_dims(Some(100), None, 640, 480), (100, 480));
    assert_eq!(target_dims(None, Some(50), 640, 480), (640, 50));
}
