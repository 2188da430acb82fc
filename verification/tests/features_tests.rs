use escpos_db::FeatureRegistry;
use escpos_db::Features;

#[test]
fn enable_then_disable_restores_a_fresh_flag_set() {
    let round_trip = Features::new().with_cut(true).with_cut(false);
    assert_eq!(round_trip, Features::new());
}

#[test]
fn distinct_features_are_order_independent() {
    let a = Features::new().with_cut(true).with_graphics(true);
    let b = Features::new().with_graphics(true).with_cut(true);
    assert_eq!(a, b);
    let c = Features::new().with_cut(true).with_graphics(false).with_star_commands(true);
    let d = Features::new().with_star_commands(true).with_cut(true).with_graphics(false);
    assert_eq!(c, d);
}

#[test]
fn accessors_read_back_what_builders_set() {
    let f = Features::new().with_cut(true).with_qr_code(true);
    assert!(f.is_cut());
    assert!(f.is_qr_code());
    assert!(!f.is_graphics());
    assert!(!f.is_star_commands());
    let f2 = f.with_cut(false);
    assert!(!f2.is_cut());
    assert!(f2.is_qr_code());
}

#[test]
fn new_flag_set_has_nothing_enabled() {
    let f = Features::new();
    assert!(!f.is_cut());
    assert!(!f.is_graphics());
    assert!(!f.is_qr_code());
    assert!(!f.is_star_commands());
}

#[test]
fn registry_assigns_bits_by_declaration_order() {
    let names = vec!["cut".to_string(), "graphics".to_string(), "qrCode".to_string()];
    let reg = FeatureRegistry::new(names).expect("three names fit");
    assert_eq!(reg.len(), 3);
    assert_eq!(reg.bit_of(&"cut".to_string()), Some(0));
    assert_eq!(reg.bit_of(&"graphics".to_string()), Some(1));
    assert_eq!(reg.bit_of(&"qrCode".to_string()), Some(2));
    assert_eq!(reg.bit_of(&"missing".to_string()), None);
}

#[test]
fn registry_rejects_more_names_than_bits() {
    let mut names: Vec<String> = Vec::new();
    for i in 0..33 {
        names.push(format!("feature{}", i));
    }
    assert!(FeatureRegistry::new(names).is_none());
}

#[test]
fn packing_sets_exactly_the_declared_true_bits() {
    let names = vec!["cut".to_string(), "graphics".to_string(), "qrCode".to_string()];
    let reg = FeatureRegistry::new(names).unwrap();
    let decl = vec![
        ("qrCode".to_string(), true),
        ("cut".to_string(), true),
        ("graphics".to_string(), false),
    ];
    let packed = reg.pack(&decl);
    // Bit 0 is cut and bit 2 is qrCode.
    let expected = Features::new()._with(1, true)._with(4, true);
    assert_eq!(packed, expected);
}

#[test]
fn packing_ignores_a_name_outside_the_canonical_list() {
    let names = vec!["cut".to_string()];
    let reg = FeatureRegistry::new(names).unwrap();
    let decl = vec![("cut".to_string(), false), ("unheardOf".to_string(), true)];
    assert_eq!(reg.pack(&decl), Features::new());
}
