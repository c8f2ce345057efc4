use guicons::macro_expansion::{
    apply_paint, emit_for_target, expand_family_variant_data, expand_family_variant_key, expand_icon, expand_icon_key,
    expand_iconify_literal, resolve_source, unknown_icon_message, ResolvedSource, Target,
};
use guicons::selector::IconSelector;
use guicons::materialize::ImageKind;
use guicons::model::{IconEntry, IconEntrySource, IconManifest, PaintColor, ThemePaint};

fn entry(key: &str, family: &str, variant: Option<&str>, size: Option<u16>, source: IconEntrySource) -> IconEntry {
    IconEntry {
        key: key.to_string(),
        family: family.to_string(),
        variant: variant.map(str::to_string),
        size,
        source,
        dynamic: false,
        windows_ico: None,
        paint: None,
        span: 0..1,
        file: "/ws/icons.gui.toml".to_string(),
    }
}

fn manifest() -> IconManifest {
    IconManifest {
        manifest_path: "/ws/icons.gui.toml".to_string(),
        workspace_root: "/ws".to_string(),
        source_paths: Vec::new(),
        entries: vec![
            entry("gear-24-filled", "gear", Some("filled"), Some(24), IconEntrySource::File("/ws/a.svg".to_string())),
            entry("gear-24-regular", "gear", Some("regular"), Some(24), IconEntrySource::File("/ws/b.png".to_string())),
            entry("home", "home", None, None, IconEntrySource::Glyph("Icons:U+0041".to_string())),
        ],
        providers: Vec::new(),
        default_paint: None,
    }
}

#[test]
fn an_unknown_selector_lists_the_known_variants_of_its_family_and_size() {
    let m = manifest();
    assert_eq!(
        unknown_icon_message(&m, "gear", Some(24), Some("bold")),
        "unknown guicons icon `gear/24/bold`; known variants for `gear`/24: filled, regular"
    );
    assert_eq!(unknown_icon_message(&m, "gear", None, Some("bold")), "unknown guicons icon `gear/bold`");
    assert_eq!(unknown_icon_message(&m, "nope", None, None), "unknown guicons icon `nope`");
}

#[test]
fn icon_key_names_the_key_constant_in_the_generated_module() {
    let m = manifest();
    assert_eq!(
        expand_family_variant_key(&m, "gear", Some(24), Some("regular"), "icons"),
        Ok("icons::keys::GEAR_24_REGULAR".to_string())
    );
    assert!(expand_family_variant_key(&m, "gear", None, None, "icons").unwrap_err().starts_with("unknown guicons icon"));
}

#[test]
fn sources_resolve_to_images_and_glyphs() {
    let m = manifest();
    match resolve_source(&m.entries[1], "/ws/.cache/guicons").unwrap() {
        ResolvedSource::Image { path, kind } => {
            assert_eq!(path, "/ws/b.png");
            assert_eq!(kind, ImageKind::Png);
        }
        other => panic!("{other:?}"),
    }
    match resolve_source(&m.entries[2], "/ws/.cache/guicons").unwrap() {
        ResolvedSource::Glyph { font_family, codepoint } => {
            assert_eq!(font_family, "Icons");
            assert_eq!(codepoint, 'A');
        }
        other => panic!("{other:?}"),
    }
    let iconify = entry("x", "x", None, None, IconEntrySource::Iconify("mdi:home".to_string()));
    match resolve_source(&iconify, "/c").unwrap() {
        ResolvedSource::Image { path, kind } => {
            assert_eq!(path, "/c/mdi/home.svg");
            assert_eq!(kind, ImageKind::Svg);
        }
        other => panic!("{other:?}"),
    }
}

#[test]
fn plain_data_is_emitted_for_no_gui_target() {
    let image = ResolvedSource::Image { path: "/p/a.svg".to_string(), kind: ImageKind::Svg };
    assert_eq!(emit_for_target(&image, Target::Data), "guicons::IconData::Svg(include_bytes!(\"/p/a.svg\"))");
    let glyph = ResolvedSource::Glyph { font_family: "Icons".to_string(), codepoint: 'A' };
    assert_eq!(
        emit_for_target(&glyph, Target::Data),
        "guicons::IconData::Glyph { codepoint: 'A', font_family: \"Icons\" }"
    );
}

#[test]
fn gui_targets_wrap_the_data_in_their_conversion_helpers() {
    let png = ResolvedSource::Image { path: "/p/a.png".to_string(), kind: ImageKind::Png };
    assert_eq!(
        emit_for_target(&png, Target::Iced),
        "guicons::iced::image_handle_from_data(guicons::IconData::Png(include_bytes!(\"/p/a.png\"))).expect(\"guicons: cached icon asset failed to decode\")"
    );
    assert_eq!(emit_for_target(&png, Target::WindowsReactor), "guicons::windows_reactor::icon_builder(\"/p/a.png\")");
    let glyph = ResolvedSource::Glyph { font_family: "F".to_string(), codepoint: 'B' };
    assert_eq!(
        emit_for_target(&glyph, Target::Slint),
        "guicons::slint::glyph_from_data(guicons::IconData::Glyph { codepoint: 'B', font_family: \"F\" }).expect(\"guicons: icon entry is not a glyph\")"
    );
    assert_eq!(emit_for_target(&glyph, Target::WindowsReactor), "guicons::windows_reactor::glyph_icon('B')");
}

#[test]
fn paint_turns_an_svg_into_a_painted_one() {
    let red = PaintColor { r: 255, g: 0, b: 0 };
    let paint = ThemePaint { light: red, dark: PaintColor { r: 0, g: 0, b: 255 } };
    let image = ResolvedSource::Image { path: "/p/a.svg".to_string(), kind: ImageKind::Svg };
    let svg = b"<svg fill=\"currentColor\"/>".to_vec();
    let painted = apply_paint(image, Some(paint), Some("my_color".to_string()), "a", Some(svg)).unwrap();
    assert_eq!(
        emit_for_target(&painted, Target::Data),
        "guicons::IconData::PaintedSvg { template: include_bytes!(\"/p/a.svg\"), colors: guicons::ThemeColors { light: guicons::Color::rgb(255u8, 0u8, 0u8), dark: guicons::Color::rgb(0u8, 0u8, 255u8) }, color: ::core::option::Option::Some(guicons::Color::from(my_color)) }"
    );
}

#[test]
fn paint_is_refused_where_nothing_can_be_painted() {
    let image = || ResolvedSource::Image { path: "/p/a.svg".to_string(), kind: ImageKind::Svg };
    let paint = ThemePaint::uniform(PaintColor { r: 1, g: 2, b: 3 });
    let err = apply_paint(image(), Some(paint), None, "a", Some(b"<svg fill=\"#000\"/>".to_vec())).unwrap_err();
    assert_eq!(err, "icon `a` is declared with `paint`, but /p/a.svg has no `currentColor` to paint; declare `paint = \"none\"` for it");
    let err = apply_paint(image(), None, Some("c".to_string()), "a", None).unwrap_err();
    assert_eq!(err, "icon `a` isn't declared with `paint`, there is nothing to recolor");
    assert!(matches!(apply_paint(image(), None, None, "a", None), Ok(ResolvedSource::Image { .. })));
}

#[test]
fn icon_data_expands_the_selected_entry_for_the_target() {
    let m = manifest();
    assert_eq!(
        expand_family_variant_data(&m, "gear", Some(24), Some("regular"), None, Target::Data, "/ws/.cache/guicons", None),
        Ok("guicons::IconData::Png(include_bytes!(\"/ws/b.png\"))".to_string())
    );
    assert_eq!(
        expand_family_variant_data(&m, "home", None, None, None, Target::Data, "/c", None),
        Ok("guicons::IconData::Glyph { codepoint: 'A', font_family: \"Icons\" }".to_string())
    );
    assert_eq!(
        expand_family_variant_data(&m, "gear", Some(24), Some("bold"), None, Target::Data, "/c", None),
        Err("unknown guicons icon `gear/24/bold`; known variants for `gear`/24: filled, regular".to_string())
    );
    assert_eq!(
        expand_family_variant_data(&m, "home", None, None, Some("c".to_string()), Target::Data, "/c", None),
        Err("icon `home` isn't declared with `paint`, there is nothing to recolor".to_string())
    );
}

#[test]
fn an_iconify_literal_expands_to_its_cached_icon() {
    let m = manifest();
    assert_eq!(
        expand_iconify_literal(&m, "mdi:home", None, Target::Data, "/c", None),
        Ok("guicons::IconData::Svg(include_bytes!(\"/c/mdi/home.svg\"))".to_string())
    );
    assert_eq!(
        expand_iconify_literal(&m, "mdi:home", Some("c".to_string()), Target::Data, "/c", None),
        Err("icon `mdi:home` isn't declared with `paint`, there is nothing to recolor".to_string())
    );
}

#[test]
fn icon_key_refuses_a_color_and_an_iconify_literal() {
    let m = manifest();
    let gear = IconSelector::FamilyVariant { family: "gear".to_string(), size: Some(24), variant: Some("filled".to_string()) };
    assert_eq!(expand_icon_key(&m, &gear, false, "icons"), Ok("icons::keys::GEAR_24_FILLED".to_string()));
    assert_eq!(
        expand_icon_key(&m, &gear, true, "icons"),
        Err("`icon_key!` names an icon, it has no color".to_string())
    );
    let literal = IconSelector::Iconify("mdi:home".to_string());
    assert_eq!(
        expand_icon_key(&m, &literal, false, "icons"),
        Err("`icon_key!` doesn't support iconify literals - there's no manifest key for a raw iconify id `mdi:home`, use `icon!` instead".to_string())
    );
}

#[test]
fn icon_dispatches_on_the_kind_of_selector() {
    let m = manifest();
    let gear = IconSelector::FamilyVariant { family: "gear".to_string(), size: Some(24), variant: Some("filled".to_string()) };
    assert_eq!(
        expand_icon(&m, &gear, None, Target::Data, "/c", None),
        Ok("guicons::IconData::Svg(include_bytes!(\"/ws/a.svg\"))".to_string())
    );
    let literal = IconSelector::Iconify("mdi:home".to_string());
    assert_eq!(
        expand_icon(&m, &literal, None, Target::Data, "/c", None),
        Ok("guicons::IconData::Svg(include_bytes!(\"/c/mdi/home.svg\"))".to_string())
    );
}
