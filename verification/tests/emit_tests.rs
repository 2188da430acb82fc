use escpos_db::db::build;
use escpos_db::db::RawDb;
use escpos_db::db::RawEncoding;
use escpos_db::db::RawProfile;
use escpos_db::emit::emit_database;
use escpos_db::emit::emit_encoding_enum;
use escpos_db::emit::emit_features;
use escpos_db::emit::emit_str_lit;
use escpos_db::emit::u32_to_dec;
use escpos_db::schema::RawMedia;
use escpos_db::schema::RawWidth;
use escpos_db::Encoding;
use escpos_db::FontInfo;
use escpos_db::MaybeUnknown;

#[test]
fn decimal_rendering_is_canonical() {
    assert_eq!(u32_to_dec(0), "0");
    assert_eq!(u32_to_dec(7), "7");
    assert_eq!(u32_to_dec(10), "10");
    assert_eq!(u32_to_dec(203), "203");
    assert_eq!(u32_to_dec(25_400), "25400");
    assert_eq!(u32_to_dec(u32::MAX), "4294967295");
}

#[test]
fn string_literals_are_quoted_and_escaped() {
    assert_eq!(emit_str_lit(&"abc".to_string()), "\"abc\"");
    assert_eq!(emit_str_lit(&"".to_string()), "\"\"");
    assert_eq!(emit_str_lit(&"a\"b".to_string()), "\"a\\\"b\"");
    assert_eq!(emit_str_lit(&"a\\b".to_string()), "\"a\\\\b\"");
}

#[test]
fn the_encoding_enumeration_names_variants_in_shouty_snake_case() {
    let encs = vec![
        Encoding::new("EncodingA".to_string(), None, None),
        Encoding::new("cp437".to_string(), None, None),
    ];
    let text = emit_encoding_enum(&encs);
    assert_eq!(text, "pub enum Encoding {\n    ENCODING_A,\n    CP437,\n}\n");
}

#[test]
fn the_feature_api_pairs_an_accessor_with_a_builder_per_name() {
    let text = emit_features(&vec!["paperCut".to_string()]);
    let expected = "pub const PAPER_CUT: u32 = 1 << 0;\nimpl Features {\n    pub fn is_paper_cut(&self) -> bool { self.contains(PAPER_CUT) }\n    pub fn with_paper_cut(self, on: bool) -> Self { self._with(PAPER_CUT, on) }\n}\n";
    assert_eq!(text, expected);
}

fn sample_db() -> RawDb {
    let mut segments = Vec::new();
    for i in 0..8 {
        let mut s = String::new();
        for j in 0..16 {
            s.push(char::from_u32(0x0040 + (i * 16 + j) as u32).unwrap());
        }
        segments.push(s);
    }
    RawDb {
        encodings: vec![
            (
                "EncodingA".to_string(),
                RawEncoding {
                    name: "Encoding A".to_string(),
                    data: Some(segments),
                    notes: None,
                },
            ),
            (
                "EncodingB".to_string(),
                RawEncoding { name: "Encoding B".to_string(), data: None, notes: None },
            ),
        ],
        profiles: vec![(
            "simple".to_string(),
            RawProfile {
                name: "Simple Printer".to_string(),
                vendor: "Acme".to_string(),
                notes: "".to_string(),
                code_pages: vec![(0, "EncodingA".to_string())],
                colors: vec![(0, "black".to_string())],
                features: vec![("cut".to_string(), true), ("graphics".to_string(), false)],
                fonts: vec![(3, FontInfo { columns: 42 })],
                media: RawMedia {
                    dpi: Some(MaybeUnknown::Known(203)),
                    width: RawWidth { mm: MaybeUnknown::Known(80_000), pixels: None },
                },
            },
        )],
    }
}

#[test]
fn emission_is_deterministic_on_identical_input() {
    let db1 = build(&sample_db()).expect("builds");
    let db2 = build(&sample_db()).expect("builds");
    assert_eq!(emit_database(&db1), emit_database(&db2));
}

#[test]
fn the_emitted_text_holds_every_section() {
    let db = build(&sample_db()).expect("builds");
    let text = emit_database(&db);
    assert!(text.starts_with("pub enum Encoding {\n    ENCODING_A,\n    ENCODING_B,\n}\n"));
    assert!(text.contains("Encoding::ENCODING_A => Some(&["));
    assert!(!text.contains("Encoding::ENCODING_B => Some"));
    assert!(text.contains("pub const CUT: u32 = 1 << 0;\n"));
    assert!(text.contains("pub const GRAPHICS: u32 = 1 << 1;\n"));
    assert!(text.contains("pub static SIMPLE: Profile = Profile {\n"));
    assert!(text.contains("    name: \"Simple Printer\",\n"));
    assert!(text.contains("Features::new().with_cut(true),"));
    assert!(text.contains("(0, Encoding::ENCODING_A), "));
    assert!(text.contains("(0, Color::Black), "));
    assert!(text.contains("(3, FontInfo { columns: 42 }), "));
    assert!(text.contains("Media { dpi: Some(203), width: Some(Width { mm: 80000, px: 639 }) }"));
    assert!(text.contains("pub static ALL_PROFILES: phf::Map<&'static str, &'static Profile> = "));
    // The rendered phf table holds the profile key and the reference to its
    // constant record.
    assert!(text.contains("\"simple\""));
    assert!(text.contains("&SIMPLE"));
}

#[test]
fn the_emitted_code_page_renders_its_code_points() {
    let db = build(&sample_db()).expect("builds");
    let text = emit_database(&db);
    // The table opens with code point 0x40 (64) and holds 128 entries.
    assert!(text.contains("=> Some(&[64, 65, 66,"));
}
