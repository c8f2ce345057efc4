use guicons::describe::{describe_source, entry_at, entry_hover_lines, family_hover_lines, iconify_literal_hover, provider_hover};
use guicons::model::{IconEntry, IconEntrySource, IconManifest, ProviderSchema};

fn entry(key: &str, family: &str, variant: Option<&str>, size: Option<u16>, source: IconEntrySource) -> IconEntry {
    IconEntry {
        key: key.to_string(),
        family: family.to_string(),
        variant: variant.map(str::to_string),
        size,
        source,
        dynamic: false,
        windows_ico: None,
        paint: None,
        span: 0..10,
        file: "/ws/icons.gui.toml".to_string(),
    }
}

fn manifest(entries: Vec<IconEntry>) -> IconManifest {
    IconManifest {
        manifest_path: "/ws/icons.gui.toml".to_string(),
        workspace_root: "/ws".to_string(),
        source_paths: vec!["/ws/icons.gui.toml".to_string()],
        entries,
        providers: Vec::new(),
        default_paint: None,
    }
}

#[test]
fn iconify_literal_hover_links_to_the_icon_on_iconifys_own_site() {
    let value = iconify_literal_hover("mdi:home");
    assert!(value.contains("mdi:home"), "{value}");
    assert!(value.contains("https://icon-sets.iconify.design/mdi/home/"), "{value}");
}

#[test]
fn iconify_literal_hover_flags_a_malformed_id_without_a_broken_link() {
    let value = iconify_literal_hover("no-colon-here");
    assert!(!value.contains("icon-sets.iconify.design"), "{value}");
    assert!(value.contains("will never resolve"), "{value}");
}

#[test]
fn iconify_literal_hover_is_exact() {
    assert_eq!(
        iconify_literal_hover("mdi:home"),
        "**mdi:home** - [view on Iconify](https://icon-sets.iconify.design/mdi/home/)"
    );
}

#[test]
fn a_file_source_is_described_relative_to_the_workspace() {
    let m = manifest(Vec::new());
    assert_eq!(describe_source(&IconEntrySource::File("/ws/icons/a.svg".to_string()), &m), "file `icons/a.svg`");
    assert_eq!(describe_source(&IconEntrySource::Iconify("mdi:home".to_string()), &m), "iconify `mdi:home`");
    assert_eq!(describe_source(&IconEntrySource::Url("https://x/y.svg".to_string()), &m), "url `https://x/y.svg`");
    assert_eq!(describe_source(&IconEntrySource::Glyph("U+E001".to_string()), &m), "glyph `U+E001`");
}

#[test]
fn entry_hover_lists_key_family_variant_size_and_source() {
    let e = entry("gear-24-filled", "gear", Some("filled"), Some(24), IconEntrySource::Iconify("fluent:gear-24-filled".to_string()));
    let m = manifest(Vec::new());
    assert_eq!(
        entry_hover_lines(&e, &m),
        vec![
            "**gear-24-filled**",
            "- family: `gear`",
            "- variant: `filled`",
            "- size: `24`",
            "- source: iconify `fluent:gear-24-filled`",
        ]
    );
    let bare = entry("docker", "docker", None, None, IconEntrySource::File("/ws/docker.svg".to_string()));
    assert_eq!(entry_hover_lines(&bare, &m), vec!["**docker**", "- family: `docker`", "- source: file `docker.svg`"]);
}

#[test]
fn family_hover_lists_the_variants_declared_under_a_header() {
    let m = manifest(vec![
        entry("gear-16-filled", "gear", Some("filled"), Some(16), IconEntrySource::File("/ws/a.svg".to_string())),
        entry("gear-24", "gear", None, Some(24), IconEntrySource::File("/ws/b.svg".to_string())),
        entry("other", "other", None, None, IconEntrySource::File("/ws/c.svg".to_string())),
    ]);
    assert_eq!(
        family_hover_lines(&m, "/ws/icons.gui.toml", "gear", None),
        Some(vec![
            "**gear**".to_string(),
            "- `filled` @ 16: file `a.svg`".to_string(),
            "- `(no variant)` @ 24: file `b.svg`".to_string(),
        ])
    );
    assert_eq!(
        family_hover_lines(&m, "/ws/icons.gui.toml", "gear", Some(24)),
        Some(vec!["**gear**".to_string(), "- `(no variant)` @ 24: file `b.svg`".to_string()])
    );
    assert_eq!(family_hover_lines(&m, "/ws/other.gui.toml", "gear", None), None);
}

#[test]
fn provider_hover_tells_builtin_overridden_and_custom_apart() {
    let schema = ProviderSchema { variants: vec!["regular".to_string(), "filled".to_string()], sizes: vec![16, 24], paint: None };
    assert_eq!(
        provider_hover("", "fluent", &schema),
        "**fluent** - built-in provider\n\n- variants: regular, filled\n- sizes: 16, 24"
    );
    assert_eq!(
        provider_hover("[providers.fluent.override]\n", "fluent", &schema),
        "**fluent** - built-in provider, overridden in this file\n\n- variants: regular, filled\n- sizes: 16, 24"
    );
    let empty = ProviderSchema { variants: Vec::new(), sizes: Vec::new(), paint: None };
    assert_eq!(provider_hover("", "acme", &empty), "**acme** - custom provider\n\n- variants: (none)\n- sizes: (none)");
}

#[test]
fn entry_at_finds_the_entry_whose_span_holds_the_offset_in_that_file() {
    let mut a = IconEntry {
        key: "a".to_string(),
        family: "a".to_string(),
        variant: None,
        size: None,
        source: IconEntrySource::File("/ws/a.svg".to_string()),
        dynamic: false,
        windows_ico: None,
        paint: None,
        span: 0..10,
        file: "/ws/nav.gui.toml".to_string(),
    };
    let mut b = a.clone();
    b.key = "b".to_string();
    b.file = "/ws/icons.gui.toml".to_string();
    a.span = 0..10;
    b.span = 5..20;
    let m = IconManifest {
        manifest_path: "/ws/icons.gui.toml".to_string(),
        workspace_root: "/ws".to_string(),
        source_paths: Vec::new(),
        entries: vec![a, b],
        providers: Vec::new(),
        default_paint: None,
    };
    assert_eq!(entry_at(&m, "/ws/icons.gui.toml", 7).map(|e| e.key.as_str()), Some("b"));
    assert_eq!(entry_at(&m, "/ws/nav.gui.toml", 7).map(|e| e.key.as_str()), Some("a"));
    assert!(entry_at(&m, "/ws/icons.gui.toml", 20).is_none());
}
