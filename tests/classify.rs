use bevy_asm::asset::AssetType;

#[test]
fn png_is_image() {
    assert_eq!(AssetType::from_extension("png".to_string()), AssetType::Image);
}

#[test]
fn txt_is_untyped() {
    assert_eq!(AssetType::from_extension("txt".to_string()), AssetType::Untyped);
}

#[test]
fn empty_extension_is_untyped() {
    assert_eq!(AssetType::from_extension(String::new()), AssetType::Untyped);
}

#[test]
fn classification_is_case_sensitive() {
    assert_eq!(AssetType::from_extension("PNG".to_string()), AssetType::Untyped);
    assert_eq!(AssetType::from_extension(".png".to_string()), AssetType::Untyped);
    assert_eq!(AssetType::from_extension("pngx".to_string()), AssetType::Untyped);
}

#[test]
fn classification_is_repeatable() {
    let first = AssetType::from_extension("png".to_string());
    let second = AssetType::from_extension("png".to_string());
    assert_eq!(first, second);
}

#[test]
fn codes_follow_declaration_order() {
    assert_eq!(AssetType::Untyped.code(), 1);
    assert_eq!(AssetType::Image.code(), 2);
    assert_eq!(AssetType::from_code(1), Some(AssetType::Untyped));
    assert_eq!(AssetType::from_code(2), Some(AssetType::Image));
    assert_eq!(AssetType::from_code(0), None);
    assert_eq!(AssetType::from_code(3), None);
}

#[test]
fn codes_round_trip() {
    for t in AssetType::all() {
        assert_eq!(AssetType::from_code(t.code()), Some(t));
    }
}

#[test]
fn names_are_variant_names() {
    assert_eq!(AssetType::Untyped.name(), "Untyped");
    assert_eq!(AssetType::Image.name(), "Image");
    assert_eq!(AssetType::all(), vec![AssetType::Untyped, AssetType::Image]);
}
