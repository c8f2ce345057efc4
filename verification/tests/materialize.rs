use guicons::materialize::{image_build, ImageKind, MaterializedIconBackend};
use guicons::model::{IconEntry, IconEntrySource, PaintColor, ThemePaint};

fn entry(key: &str, paint: Option<ThemePaint>) -> IconEntry {
    IconEntry {
        key: key.to_string(),
        family: key.to_string(),
        variant: None,
        size: None,
        source: IconEntrySource::File(format!("/ws/{key}.svg")),
        dynamic: false,
        windows_ico: None,
        paint,
        span: 0..1,
        file: "/ws/icons.gui.toml".to_string(),
    }
}

const TEMPLATE: &str = r#"<svg><path fill="currentColor"/></svg>"#;

#[test]
fn unpainted_icon_is_copied_as_is() {
    let bytes = TEMPLATE.as_bytes().to_vec();
    let (backend, writes) = image_build(&entry("gear", None), "/ws/gear.svg", "/out/icons", &bytes).unwrap();
    assert_eq!(writes, vec![("/out/icons/gear.svg".to_string(), bytes)]);
    match backend {
        MaterializedIconBackend::Image { path, kind, paint } => {
            assert_eq!(path, "/out/icons/gear.svg");
            assert_eq!(kind, ImageKind::Svg);
            assert!(paint.is_none());
        }
        other => panic!("{other:?}"),
    }
}

#[test]
fn painted_icon_keeps_its_template_and_ships_a_copy_per_theme() {
    let colors = ThemePaint { light: PaintColor { r: 0x12, g: 0x34, b: 0x56 }, dark: PaintColor { r: 0xab, g: 0xcd, b: 0xef } };
    let bytes = TEMPLATE.as_bytes().to_vec();
    let (backend, writes) = image_build(&entry("gear", Some(colors)), "/ws/gear.svg", "/out/icons", &bytes).unwrap();
    assert_eq!(writes.len(), 3);
    assert_eq!(writes[0], ("/out/icons/gear.template.svg".to_string(), bytes.clone()));
    assert_eq!(writes[1], ("/out/icons/gear.svg".to_string(), br##"<svg><path fill="#123456"/></svg>"##.to_vec()));
    assert_eq!(writes[2], ("/out/icons/gear.dark.svg".to_string(), br##"<svg><path fill="#abcdef"/></svg>"##.to_vec()));
    match backend {
        MaterializedIconBackend::Image { path, paint: Some(p), .. } => {
            assert_eq!(path, "/out/icons/gear.svg");
            assert_eq!(p.template, "/out/icons/gear.template.svg");
            assert_eq!(p.dark_path, "/out/icons/gear.dark.svg");
        }
        other => panic!("{other:?}"),
    }
}

#[test]
#[should_panic(expected = "has no `currentColor` to paint")]
fn paint_on_an_svg_without_current_color_fails_the_build() {
    let colors = ThemePaint { light: PaintColor { r: 0x12, g: 0x34, b: 0x56 }, dark: PaintColor { r: 0x12, g: 0x34, b: 0x56 } };
    let bytes = br##"<svg><path fill="#e95420"/></svg>"##.to_vec();
    if let Err(message) = image_build(&entry("logo", Some(colors)), "/ws/logo.svg", "/out/icons", &bytes) {
        assert_eq!(
            message,
            "icon `logo` is declared with `paint`, but /ws/logo.svg has no `currentColor` to paint; declare `paint = \"none\"` for it"
        );
        panic!("{message}");
    }
}
