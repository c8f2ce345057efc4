use guicons::selector::{parse_resource_selector, parse_selector, parse_selector_path_text, IconSelector};


#[test]
fn parses_a_bare_family() {
    assert_eq!(
        parse_selector_path_text("settings").unwrap(),
        IconSelector::FamilyVariant { family: "settings".to_string(), size: None, variant: None }
    );
}

#[test]
fn parses_a_family_and_variant() {
    assert_eq!(
        parse_selector_path_text("settings.filled").unwrap(),
        IconSelector::FamilyVariant {
            family: "settings".to_string(),
            size: None,
            variant: Some("filled".to_string())
        }
    );
}

#[test]
fn parses_a_family_size_and_variant() {
    assert_eq!(
        parse_selector_path_text("settings.24.filled").unwrap(),
        IconSelector::FamilyVariant {
            family: "settings".to_string(),
            size: Some(24),
            variant: Some("filled".to_string())
        }
    );
}

#[test]
fn underscore_in_a_path_segment_normalizes_to_a_dash() {
    assert_eq!(
        parse_selector_path_text("nav_bar.filled").unwrap(),
        IconSelector::FamilyVariant {
            family: "nav-bar".to_string(),
            size: None,
            variant: Some("filled".to_string())
        }
    );
}

#[test]
fn a_size_after_a_variant_is_rejected() {
    assert!(parse_selector_path_text("settings.filled.24").is_err());
}

#[test]
fn empty_input_is_rejected() {
    assert!(parse_selector_path_text("").is_err());
}

#[test]
fn parses_a_slash_separated_family_and_variant() {
    assert_eq!(
        parse_resource_selector("settings/filled").unwrap(),
        IconSelector::FamilyVariant {
            family: "settings".to_string(),
            size: None,
            variant: Some("filled".to_string())
        }
    );
}

#[test]
fn parses_a_slash_separated_family_size_and_variant() {
    assert_eq!(
        parse_resource_selector("settings/24/filled").unwrap(),
        IconSelector::FamilyVariant {
            family: "settings".to_string(),
            size: Some(24),
            variant: Some("filled".to_string())
        }
    );
}

#[test]
fn a_colon_makes_it_an_iconify_id_regardless_of_slashes() {
    assert_eq!(parse_resource_selector("mdi:home").unwrap(), IconSelector::Iconify("mdi:home".to_string()));
}

#[test]
fn parse_selector_dispatches_a_quoted_string_to_the_resource_parser() {
    assert_eq!(
        parse_selector("\"mdi:home\"").unwrap(),
        IconSelector::Iconify("mdi:home".to_string())
    );
}

#[test]
fn parse_selector_dispatches_a_bare_path_to_the_path_parser() {
    assert_eq!(
        parse_selector("settings.filled").unwrap(),
        IconSelector::FamilyVariant {
            family: "settings".to_string(),
            size: None,
            variant: Some("filled".to_string())
        }
    );
}

#[test]
fn parse_selector_strips_a_trailing_module_clause() {
    assert_eq!(
        parse_selector("settings.filled, module = icons2").unwrap(),
        IconSelector::FamilyVariant {
            family: "settings".to_string(),
            size: None,
            variant: Some("filled".to_string())
        }
    );
}
