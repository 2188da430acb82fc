use escpos_db::units::resolve_width;
use escpos_db::units::WidthError;
use escpos_db::Width;

#[test]
fn mm_and_dpi_derive_pixels_with_floor_semantics() {
    // 10.0 mm at 203 dpi: 10000 * 203 / 25400 = 79.92..., truncated to 79.
    let r = resolve_width(Some(10_000), None, Some(203));
    assert_eq!(r, Ok(Some(Width { mm: 10_000, px: 79 })));
}

#[test]
fn px_and_dpi_derive_millimeters_within_tolerance() {
    // 80 px at 203 dpi is about 10.0 mm; the derived value must land within
    // 0.1 mm (100 thousandths).
    let r = resolve_width(None, Some(80), Some(203)).unwrap().unwrap();
    assert_eq!(r.px, 80);
    let diff = (r.mm as i64 - 10_000).abs();
    assert!(diff <= 100, "derived mm {} is off by more than 0.1 mm", r.mm);
}

#[test]
fn fully_absent_width_is_unknown_not_an_error() {
    assert_eq!(resolve_width(None, None, None), Ok(None));
    assert_eq!(resolve_width(None, None, Some(203)), Ok(None));
}

#[test]
fn mm_without_dpi_fails() {
    assert_eq!(resolve_width(Some(10_000), None, None), Err(WidthError::MissingDpi));
}

#[test]
fn px_without_dpi_fails() {
    assert_eq!(resolve_width(None, Some(80), None), Err(WidthError::MissingDpi));
}

#[test]
fn px_with_zero_dpi_fails() {
    assert_eq!(resolve_width(None, Some(80), Some(0)), Err(WidthError::ZeroDpi));
}

#[test]
fn both_present_are_returned_unchanged_without_cross_checking() {
    // Deliberately inconsistent values stay as given.
    let r = resolve_width(Some(1_000), Some(9_999), Some(203));
    assert_eq!(r, Ok(Some(Width { mm: 1_000, px: 9_999 })));
    let r2 = resolve_width(Some(1_000), Some(9_999), None);
    assert_eq!(r2, Ok(Some(Width { mm: 1_000, px: 9_999 })));
}

#[test]
fn derived_pixels_saturate_at_the_type_maximum() {
    // u32::MAX thousandths of a millimeter at 65535 dpi far exceeds what a
    // u16 pixel count can hold.
    let r = resolve_width(Some(u32::MAX), None, Some(u16::MAX)).unwrap().unwrap();
    assert_eq!(r.px, u16::MAX);
}

#[test]
fn zero_dpi_with_mm_gives_zero_pixels() {
    let r = resolve_width(Some(10_000), None, Some(0));
    assert_eq!(r, Ok(Some(Width { mm: 10_000, px: 0 })));
}
