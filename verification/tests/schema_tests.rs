use escpos_db::schema::decode_code_page;
use escpos_db::schema::flatten;
use escpos_db::schema::RawMedia;
use escpos_db::schema::RawWidth;
use escpos_db::units::WidthError;
use escpos_db::MaybeUnknown;

#[test]
fn opt_drops_the_unknown_marker() {
    assert_eq!(MaybeUnknown::Known(5u16).opt(), Some(5));
    assert_eq!(MaybeUnknown::<u16>::Unknown.opt(), None);
}

#[test]
fn flatten_collapses_both_absence_and_unknown() {
    assert_eq!(flatten(Some(MaybeUnknown::Known(7u16))), Some(7));
    assert_eq!(flatten(Some(MaybeUnknown::<u16>::Unknown)), None);
    assert_eq!(flatten(None::<MaybeUnknown<u16>>), None);
}

fn eight_segments_of_sixteen() -> Vec<String> {
    let mut segments = Vec::new();
    for i in 0..8 {
        let mut s = String::new();
        for j in 0..16 {
            let c = char::from_u32(0x00A0 + (i * 16 + j) as u32).unwrap();
            s.push(c);
        }
        segments.push(s);
    }
    segments
}

#[test]
fn a_full_code_page_decodes_to_its_128_characters_in_order() {
    let segments = eight_segments_of_sixteen();
    let decoded = decode_code_page(&segments).expect("128 characters must decode");
    assert_eq!(decoded.len(), 128);
    assert_eq!(decoded[0], char::from_u32(0x00A0).unwrap());
    assert_eq!(decoded[127], char::from_u32(0x00A0 + 127).unwrap());
    let rejoined: String = decoded.iter().collect();
    let expected: String = segments.concat();
    assert_eq!(rejoined, expected);
}

#[test]
fn a_short_code_page_fails() {
    let mut segments = eight_segments_of_sixteen();
    segments.pop();
    assert!(decode_code_page(&segments).is_none());
}

#[test]
fn a_long_code_page_fails() {
    let mut segments = eight_segments_of_sixteen();
    segments.push("x".to_string());
    assert!(decode_code_page(&segments).is_none());
}

#[test]
fn the_segment_split_does_not_matter_only_the_total() {
    let whole: String = eight_segments_of_sixteen().concat();
    let decoded = decode_code_page(&vec![whole.clone()]).expect("one segment of 128 decodes");
    assert_eq!(decoded.len(), 128);
    let rejoined: String = decoded.iter().collect();
    assert_eq!(rejoined, whole);
}

#[test]
fn raw_media_resolves_through_the_unit_rules() {
    let media = RawMedia {
        dpi: Some(MaybeUnknown::Known(203)),
        width: RawWidth { mm: MaybeUnknown::Known(10_000), pixels: None },
    };
    let resolved = media.resolve().expect("resolvable");
    assert_eq!(resolved.dpi, Some(203));
    let w = resolved.width.expect("width known");
    assert_eq!(w.mm, 10_000);
    assert_eq!(w.px, 79);
}

#[test]
fn raw_media_with_unknown_dpi_and_mm_only_fails() {
    let media = RawMedia {
        dpi: Some(MaybeUnknown::Unknown),
        width: RawWidth { mm: MaybeUnknown::Known(10_000), pixels: None },
    };
    assert_eq!(media.resolve().unwrap_err(), WidthError::MissingDpi);
}

#[test]
fn raw_media_with_nothing_known_resolves_to_unknown_width() {
    let media = RawMedia {
        dpi: None,
        width: RawWidth { mm: MaybeUnknown::Unknown, pixels: Some(MaybeUnknown::Unknown) },
    };
    let resolved = media.resolve().expect("unknown width is not an error");
    assert_eq!(resolved.dpi, None);
    assert!(resolved.width.is_none());
}
