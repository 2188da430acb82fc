use escpos_db::db::build;
use escpos_db::db::BuildError;
use escpos_db::db::RawDb;
use escpos_db::db::RawEncoding;
use escpos_db::db::RawProfile;
use escpos_db::schema::RawMedia;
use escpos_db::schema::RawWidth;
use escpos_db::units::WidthError;
use escpos_db::FontInfo;
use escpos_db::MaybeUnknown;

fn code_page_segments() -> Vec<String> {
    let mut segments = Vec::new();
    for i in 0..8 {
        let mut s = String::new();
        for j in 0..16 {
            s.push(char::from_u32(0x2500 + (i * 16 + j) as u32).unwrap());
        }
        segments.push(s);
    }
    segments
}

fn sample_profile() -> RawProfile {
    RawProfile {
        name: "Simple Printer".to_string(),
        vendor: "Acme".to_string(),
        notes: "".to_string(),
        code_pages: vec![(0, "EncodingA".to_string())],
        colors: vec![(0, "black".to_string())],
        features: vec![("cut".to_string(), true), ("graphics".to_string(), false)],
        fonts: vec![(0, FontInfo { columns: 42 })],
        media: RawMedia {
            dpi: Some(MaybeUnknown::Known(203)),
            width: RawWidth { mm: MaybeUnknown::Known(80_000), pixels: None },
        },
    }
}

fn sample_db() -> RawDb {
    RawDb {
        encodings: vec![
            (
                "EncodingA".to_string(),
                RawEncoding {
                    name: "Encoding A".to_string(),
                    data: Some(code_page_segments()),
                    notes: None,
                },
            ),
            (
                "EncodingB".to_string(),
                RawEncoding { name: "Encoding B".to_string(), data: None, notes: None },
            ),
        ],
        profiles: vec![("simple".to_string(), sample_profile())],
    }
}

#[test]
fn a_built_profile_is_found_by_name_and_serves_its_code_page() {
    let db = build(&sample_db()).expect("the sample database builds");
    let profile = db.profiles.get(&"simple".to_string()).expect("profile is found by key");
    assert_eq!(profile.name, "Simple Printer");
    assert_eq!(profile.vendor, "Acme");
    let encoding = profile.code_pages.get(0).expect("page id 0 is declared");
    assert_eq!(encoding.name, "EncodingA");
    assert!(profile.code_pages.get(1).is_none());
    assert!(db.profiles.get(&"other".to_string()).is_none());
}

#[test]
fn a_built_profile_carries_its_resolved_capabilities() {
    let db = build(&sample_db()).expect("builds");
    let profile = db.profiles.get(&"simple".to_string()).unwrap();
    assert!(profile.features.is_cut());
    assert!(!profile.features.is_graphics());
    assert_eq!(profile.colors.get(0), Some(&escpos_db::Color::Black));
    assert_eq!(profile.fonts.get(0), Some(&FontInfo { columns: 42 }));
    assert_eq!(profile.media.dpi, Some(203));
    let w = profile.media.width.unwrap();
    assert_eq!(w.mm, 80_000);
    // 80.0 mm at 203 dpi: 80000 * 203 / 25400 = 639.37..., truncated.
    assert_eq!(w.px, 639);
    let enc = profile.code_pages.get(0).unwrap();
    let table = enc.data().expect("EncodingA has a table");
    assert_eq!(table.len(), 128);
    assert_eq!(table[0], char::from_u32(0x2500).unwrap());
}

#[test]
fn an_unknown_encoding_key_names_the_profile() {
    let mut raw = sample_db();
    raw.profiles[0].1.code_pages = vec![(0, "NoSuchEncoding".to_string())];
    match build(&raw) {
        Err(BuildError::UnknownEncoding { entity }) => assert_eq!(entity, "simple"),
        other => panic!("expected an unknown-encoding failure, got {:?}", other.is_ok()),
    }
}

#[test]
fn an_unknown_color_names_the_profile() {
    let mut raw = sample_db();
    raw.profiles[0].1.colors = vec![(0, "chartreuse".to_string())];
    match build(&raw) {
        Err(BuildError::UnknownColor { entity }) => assert_eq!(entity, "simple"),
        other => panic!("expected an unknown-color failure, got {:?}", other.is_ok()),
    }
}

#[test]
fn a_malformed_code_page_names_the_encoding() {
    let mut raw = sample_db();
    let mut segments = code_page_segments();
    segments.pop();
    raw.encodings[0].1.data = Some(segments);
    match build(&raw) {
        Err(BuildError::BadCodePage { entity }) => assert_eq!(entity, "EncodingA"),
        other => panic!("expected a bad-code-page failure, got {:?}", other.is_ok()),
    }
}

#[test]
fn an_underdetermined_width_names_the_profile() {
    let mut raw = sample_db();
    raw.profiles[0].1.media.dpi = None;
    match build(&raw) {
        Err(BuildError::BadMedia { entity, err }) => {
            assert_eq!(entity, "simple");
            assert_eq!(err, WidthError::MissingDpi);
        },
        other => panic!("expected a bad-media failure, got {:?}", other.is_ok()),
    }
}

#[test]
fn a_repeated_profile_key_is_refused() {
    let mut raw = sample_db();
    raw.profiles.push(("simple".to_string(), sample_profile()));
    match build(&raw) {
        Err(BuildError::DuplicateProfile { entity }) => assert_eq!(entity, "simple"),
        other => panic!("expected a duplicate-profile failure, got {:?}", other.is_ok()),
    }
}

#[test]
fn too_many_canonical_features_are_refused() {
    let mut raw = sample_db();
    let mut features = Vec::new();
    for i in 0..33 {
        features.push((format!("feature{}", i), false));
    }
    raw.profiles[0].1.features = features;
    assert!(matches!(build(&raw), Err(BuildError::TooManyFeatures)));
}

#[test]
fn a_feature_missing_from_the_canonical_profile_has_no_effect() {
    let mut raw = sample_db();
    let mut extra = sample_profile();
    extra.features = vec![("cut".to_string(), true), ("unheardOf".to_string(), true)];
    raw.profiles.push(("second".to_string(), extra));
    let db = build(&raw).expect("builds");
    let second = db.profiles.get(&"second".to_string()).unwrap();
    assert!(second.features.is_cut());
    assert_eq!(second.features, escpos_db::Features::new().with_cut(true));
}
