use escpos_db::Encoding;
use escpos_db::Features;
use escpos_db::IntMap;
use escpos_db::Media;
use escpos_db::Profile;
use escpos_db::ProfileTable;
use escpos_db::Width;

#[test]
fn a_new_profile_has_default_capabilities() {
    let p = Profile::new("P".to_string(), "V".to_string());
    assert_eq!(p.name, "P");
    assert_eq!(p.vendor, "V");
    assert_eq!(p.features, Features::new());
    assert_eq!(p.code_pages.len(), 0);
    assert_eq!(p.colors.len(), 0);
    assert_eq!(p.fonts.len(), 0);
    assert!(p.media.dpi.is_none());
    assert!(p.media.width.is_none());
}

#[test]
fn the_builder_setters_replace_exactly_their_field() {
    let media = Media::new(Some(180), Some(Width::new(58_000, 411)));
    let p = Profile::new("P".to_string(), "V".to_string())
        .with_features(Features::new().with_cut(true))
        .with_media(media);
    assert!(p.features.is_cut());
    assert_eq!(p.media.dpi, Some(180));
    assert_eq!(p.media.width, Some(Width { mm: 58_000, px: 411 }));
    assert_eq!(p.name, "P");
    let pages = IntMap::from_entries(vec![(7u8, Encoding::new("k".to_string(), None, None))])
        .unwrap();
    let p2 = p.with_code_pages(pages);
    assert_eq!(p2.code_pages.len(), 1);
    assert_eq!(p2.code_pages.get(7).unwrap().name, "k");
}

#[test]
fn an_encoding_hands_out_its_table_only_when_it_has_one() {
    let bare = Encoding::new("bare".to_string(), None, None);
    assert!(bare.data().is_none());
    let table: Vec<char> = (0..128).map(|i| char::from_u32(0x0100 + i).unwrap()).collect();
    let full = Encoding::new("full".to_string(), Some(table.clone()), None);
    assert_eq!(full.data(), Some(&table));
    let copy = full.clone();
    assert_eq!(copy.name, "full");
    assert_eq!(copy.data(), Some(&table));
}

#[test]
fn the_profile_table_finds_the_first_entry_with_a_key() {
    let mut table = ProfileTable::new();
    table.push("a".to_string(), Profile::new("first".to_string(), "v".to_string()));
    table.push("b".to_string(), Profile::new("other".to_string(), "v".to_string()));
    table.push("a".to_string(), Profile::new("shadowed".to_string(), "v".to_string()));
    assert_eq!(table.len(), 3);
    assert_eq!(table.get(&"a".to_string()).unwrap().name, "first");
    assert_eq!(table.get(&"b".to_string()).unwrap().name, "other");
    assert!(table.get(&"c".to_string()).is_none());
    let (k, p) = table.at(1);
    assert_eq!(k, "b");
    assert_eq!(p.name, "other");
}
