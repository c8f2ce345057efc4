use guicons::glyph::{parse_glyph_spec, try_parse_glyph_spec};
use guicons::model::{paint_svg, svg_uses_current_color, Paint, PaintColor, ThemePaint};
use guicons::net::{iconify_cache_path, iconify_url, sha256_hex, url_cache_path};

#[test]
fn colors_parse_in_short_and_long_form() {
    assert_eq!(PaintColor::parse("#fff"), Ok(PaintColor { r: 255, g: 255, b: 255 }));
    assert_eq!(PaintColor::parse("#1a2B3c"), Ok(PaintColor { r: 0x1a, g: 0x2b, b: 0x3c }));
    assert!(PaintColor::parse("red").is_err());
    assert!(PaintColor::parse("#12345").is_err());
}

#[test]
fn a_color_prints_back_to_what_parses_to_it() {
    let color = PaintColor { r: 0x0a, g: 0xbc, b: 0xff };
    assert_eq!(color.to_hex(), "#0abcff");
    assert_eq!(PaintColor::parse(&color.to_hex()), Ok(color));
}

#[test]
fn paint_values_are_none_or_one_color_for_both_themes() {
    assert_eq!(Paint::parse("none"), Ok(Paint::NoPaint));
    let c = PaintColor { r: 0, g: 0x11, b: 0x22 };
    assert_eq!(Paint::parse("#012"), Ok(Paint::Colors(ThemePaint { light: c, dark: c })));
    assert_eq!(Paint::parse("#012").unwrap().colors(), Some(ThemePaint::uniform(c)));
    assert_eq!(Paint::NoPaint.colors(), None);
    let err = Paint::parse("blue").unwrap_err();
    assert!(err.contains("got `blue`"), "{err}");
}

#[test]
fn painting_replaces_current_color_case_insensitively() {
    let svg = b"<svg fill=\"currentColor\"><path stroke=\"CURRENTCOLOR\"/></svg>";
    assert!(svg_uses_current_color(svg));
    let painted = paint_svg(svg, PaintColor { r: 0xff, g: 0, b: 0x10 });
    assert_eq!(painted, b"<svg fill=\"#ff0010\"><path stroke=\"#ff0010\"/></svg>".to_vec());
    assert!(!svg_uses_current_color(b"<svg fill=\"#000\"/>"));
}

#[test]
fn glyph_specs_name_a_font_family_and_a_code_point() {
    assert_eq!(try_parse_glyph_spec("Material Icons:U+E88A"), Ok(("Material Icons".to_string(), '\u{E88A}')));
    assert!(try_parse_glyph_spec("no-colon").is_err());
    assert!(try_parse_glyph_spec(":U+E88A").is_err());
    let err = parse_glyph_spec("Icons:U+D800", "home").unwrap_err();
    assert!(err.starts_with("icon `home`: invalid glyph spec"), "{err}");
}

#[test]
fn iconify_addresses_and_cache_paths_split_the_id_at_its_colon() {
    assert_eq!(iconify_url("mdi:home"), "https://api.iconify.design/mdi/home.svg");
    assert_eq!(iconify_cache_path("/ws/.cache/guicons", "mdi:home"), "/ws/.cache/guicons/mdi/home.svg");
}

#[test]
fn url_downloads_are_cached_under_their_sha256() {
    assert_eq!(sha256_hex("abc"), "ba7816bf8f01cfea414140de5dae2223b00361a396177a9cb410ff61f20015ad");
    assert_eq!(
        url_cache_path("/c", "abc"),
        "/c/url/ba7816bf8f01cfea414140de5dae2223b00361a396177a9cb410ff61f20015ad.svg"
    );
}

#[test]
fn a_cargo_toml_with_workspace_or_package_marks_a_root() {
    assert!(guicons::paths::declares_crate_root_exec("[package]\nname = \"x\"\n"));
    assert!(guicons::paths::declares_crate_root_exec("[workspace]\nmembers = []\n"));
    assert!(!guicons::paths::declares_crate_root_exec("[dependencies]\nserde = \"1\"\n"));
}
