use guicons::builders::generate_builders;
use guicons::icon_build::{Emit, IconBuild};
use guicons::materialize::{ImageKind, MaterializedIcon, MaterializedIconBackend};
use guicons::model::IconManifest;

fn icon(key: &str, family: &str, variant: Option<&str>, size: Option<u16>) -> MaterializedIcon {
    MaterializedIcon {
        key: key.to_string(),
        family: family.to_string(),
        variant: variant.map(str::to_string),
        size,
        dynamic: false,
        backend: MaterializedIconBackend::Image { path: "/out/icons/x.svg".to_string(), kind: ImageKind::Svg, paint: None },
    }
}

/// `[toolbar.16]` has only `filled`, `[toolbar.24]` has `filled` and
/// `regular`: each size step returns its own builder type with only the
/// variants of that size.
#[test]
fn size_axis_produces_per_size_variant_builders() {
    let icons = vec![
        icon("toolbar-16-filled", "toolbar", Some("filled"), Some(16)),
        icon("toolbar-24-filled", "toolbar", Some("filled"), Some(24)),
        icon("toolbar-24-regular", "toolbar", Some("regular"), Some(24)),
    ];
    let code = generate_builders(&icons);
    assert!(code.contains("pub const fn size_16(self) -> Toolbar16VariantBuilder"), "{code}");
    assert!(code.contains("pub const fn size_24(self) -> Toolbar24VariantBuilder"), "{code}");
    let sixteen = code.split("impl Toolbar16VariantBuilder {").nth(1).unwrap().split("}\n\n").next().unwrap();
    assert!(sixteen.contains("pub const fn filled(self) -> IconKey {\n        keys::TOOLBAR_16_FILLED"), "{sixteen}");
    assert!(!sixteen.contains("regular"), "{sixteen}");
    let twenty_four = code.split("impl Toolbar24VariantBuilder {").nth(1).unwrap().split("}\n\n").next().unwrap();
    assert!(twenty_four.contains("keys::TOOLBAR_24_FILLED"), "{twenty_four}");
    assert!(twenty_four.contains("pub const fn regular(self) -> IconKey {\n        keys::TOOLBAR_24_REGULAR"), "{twenty_four}");
}

const BARE: &str = "pub const fn docker() -> IconKey {\n    keys::DOCKER\n}\n";

const TWO_TIER: &str = "pub struct SettingsBuilder;\n\npub const fn settings() -> SettingsBuilder {\n    SettingsBuilder\n}\n\nimpl SettingsBuilder {\n    pub const fn filled(self) -> IconKey {\n        keys::SETTINGS_FILLED\n    }\n    pub const fn regular(self) -> IconKey {\n        keys::SETTINGS_REGULAR\n    }\n}\n";

const SHARED: &str = "pub struct Settings20VariantBuilder;\n\nimpl Settings20VariantBuilder {\n    pub const fn filled(self) -> IconKey {\n        keys::SETTINGS_20_FILLED\n    }\n    pub const fn regular(self) -> IconKey {\n        keys::SETTINGS_20_REGULAR\n    }\n}\n\npub struct Settings24VariantBuilder;\n\nimpl Settings24VariantBuilder {\n    pub const fn filled(self) -> IconKey {\n        keys::SETTINGS_24_FILLED\n    }\n    pub const fn regular(self) -> IconKey {\n        keys::SETTINGS_24_REGULAR\n    }\n}\n\npub struct SettingsBuilder;\n\npub const fn settings() -> SettingsBuilder {\n    SettingsBuilder\n}\n\nimpl SettingsBuilder {\n    pub const fn size_20(self) -> Settings20VariantBuilder {\n        Settings20VariantBuilder\n    }\n    pub const fn size_24(self) -> Settings24VariantBuilder {\n        Settings24VariantBuilder\n    }\n}\n";

const DISTINCT: &str = "pub struct Settings16VariantBuilder;\n\nimpl Settings16VariantBuilder {\n    pub const fn filled(self) -> IconKey {\n        keys::SETTINGS_16_FILLED\n    }\n}\n\npub struct Settings24VariantBuilder;\n\nimpl Settings24VariantBuilder {\n    pub const fn filled(self) -> IconKey {\n        keys::SETTINGS_24_FILLED\n    }\n    pub const fn regular(self) -> IconKey {\n        keys::SETTINGS_24_REGULAR\n    }\n}\n\npub struct SettingsBuilder;\n\npub const fn settings() -> SettingsBuilder {\n    SettingsBuilder\n}\n\nimpl SettingsBuilder {\n    pub const fn size_16(self) -> Settings16VariantBuilder {\n        Settings16VariantBuilder\n    }\n    pub const fn size_24(self) -> Settings24VariantBuilder {\n        Settings24VariantBuilder\n    }\n}\n";

const SINGLE: &str = "pub struct LogoBuilder;\n\npub const fn logo() -> LogoBuilder {\n    LogoBuilder\n}\n\nimpl LogoBuilder {\n    pub const fn size_16(self) -> IconKey {\n        keys::LOGO_16\n    }\n    pub const fn size_32(self) -> IconKey {\n        keys::LOGO_32\n    }\n}\n";

const DEFAULT: &str = "pub struct Settings24VariantBuilder;\n\nimpl Settings24VariantBuilder {\n    pub const fn filled(self) -> IconKey {\n        keys::SETTINGS_24_FILLED\n    }\n}\n\npub struct SettingsBuilder;\n\npub const fn settings() -> SettingsBuilder {\n    SettingsBuilder\n}\n\nimpl SettingsBuilder {\n    pub const fn default(self) -> IconKey {\n        keys::SETTINGS\n    }\n    pub const fn size_24(self) -> Settings24VariantBuilder {\n        Settings24VariantBuilder\n    }\n}\n";
#[test]
fn generate_family_without_variant_or_size_is_a_bare_fn() {
    let icons = vec![icon("docker", "docker", None, None)];
    assert_eq!(generate_builders(&icons), BARE);
}

#[test]
fn generate_family_with_variants_only_is_a_two_tier_builder() {
    let icons = vec![
        icon("settings-filled", "settings", Some("filled"), None),
        icon("settings-regular", "settings", Some("regular"), None),
    ];
    assert_eq!(generate_builders(&icons), TWO_TIER);
}

#[test]
fn generate_family_with_a_shared_variant_set_across_sizes() {
    let icons = vec![
        icon("settings-20-filled", "settings", Some("filled"), Some(20)),
        icon("settings-20-regular", "settings", Some("regular"), Some(20)),
        icon("settings-24-filled", "settings", Some("filled"), Some(24)),
        icon("settings-24-regular", "settings", Some("regular"), Some(24)),
    ];
    assert_eq!(generate_builders(&icons), SHARED);
}

#[test]
fn generate_family_with_a_different_variant_set_per_size_gets_distinct_types() {
    let icons = vec![
        icon("settings-16-filled", "settings", Some("filled"), Some(16)),
        icon("settings-24-filled", "settings", Some("filled"), Some(24)),
        icon("settings-24-regular", "settings", Some("regular"), Some(24)),
    ];
    assert_eq!(generate_builders(&icons), DISTINCT);
}

#[test]
fn generate_family_with_a_single_icon_per_size_skips_the_variant_builder() {
    let icons = vec![icon("logo-16", "logo", None, Some(16)), icon("logo-32", "logo", None, Some(32))];
    assert_eq!(generate_builders(&icons), SINGLE);
}

#[test]
fn generate_sizeless_icon_sharing_a_family_with_sized_ones_gets_a_default_method() {
    let icons = vec![icon("settings", "settings", None, None), icon("settings-24-filled", "settings", Some("filled"), Some(24))];
    assert_eq!(generate_builders(&icons), DEFAULT);
}

#[test]
fn mod_family_without_variant_or_size_is_a_bare_fn() {
    let icons = vec![icon("docker", "docker", None, None)];
    assert_eq!(generate_builders(&icons), BARE);
}

#[test]
fn mod_family_with_variants_only_is_a_two_tier_builder() {
    let icons = vec![
        icon("settings-filled", "settings", Some("filled"), None),
        icon("settings-regular", "settings", Some("regular"), None),
    ];
    assert_eq!(generate_builders(&icons), TWO_TIER);
}

#[test]
fn mod_family_with_a_shared_variant_set_across_sizes() {
    let icons = vec![
        icon("settings-20-filled", "settings", Some("filled"), Some(20)),
        icon("settings-20-regular", "settings", Some("regular"), Some(20)),
        icon("settings-24-filled", "settings", Some("filled"), Some(24)),
        icon("settings-24-regular", "settings", Some("regular"), Some(24)),
    ];
    assert_eq!(generate_builders(&icons), SHARED);
}

#[test]
fn mod_family_with_a_different_variant_set_per_size_gets_distinct_types() {
    let icons = vec![
        icon("settings-16-filled", "settings", Some("filled"), Some(16)),
        icon("settings-24-filled", "settings", Some("filled"), Some(24)),
        icon("settings-24-regular", "settings", Some("regular"), Some(24)),
    ];
    assert_eq!(generate_builders(&icons), DISTINCT);
}

#[test]
fn mod_family_with_a_single_icon_per_size_skips_the_variant_builder() {
    let icons = vec![icon("logo-16", "logo", None, Some(16)), icon("logo-32", "logo", None, Some(32))];
    assert_eq!(generate_builders(&icons), SINGLE);
}

#[test]
fn mod_sizeless_icon_sharing_a_family_with_sized_ones_gets_a_default_method() {
    let icons = vec![icon("settings", "settings", None, None), icon("settings-24-filled", "settings", Some("filled"), Some(24))];
    assert_eq!(generate_builders(&icons), DEFAULT);
}

#[test]
fn a_build_generates_the_files_it_was_asked_for() {
    let manifest = IconManifest {
        manifest_path: "/ws/icons.gui.toml".to_string(),
        workspace_root: "/ws".to_string(),
        source_paths: Vec::new(),
        entries: Vec::new(),
        providers: Vec::new(),
        default_paint: None,
    };
    let icons = vec![icon("docker", "docker", None, None)];
    let none = IconBuild::new("/ws/icons.gui.toml", "/out");
    assert!(none.build(&manifest, &icons).is_empty());
    let both = IconBuild::auto("/ws", "/out").materialized_root("/assets").emit(Emit::Rust).emit(Emit::Slint);
    assert_eq!(both.manifest_path(), "/ws/icons.gui.toml");
    assert_eq!(both.icons_root(), "/assets");
    let files = both.build(&manifest, &icons);
    let names: Vec<&str> = files.iter().map(|(path, _)| path.as_str()).collect();
    assert_eq!(names, vec!["/out/icons.rs", "/out/icons.slint"]);
    assert!(files[0].1.contains("pub const DOCKER: IconKey = IconKey::new(\"docker\");"), "{}", files[0].1);
}

#[test]
fn rerun_lines_name_every_manifest_file_then_the_download_switch() {
    let manifest = guicons::model::IconManifest {
        manifest_path: "/ws/icons.gui.toml".to_string(),
        workspace_root: "/ws".to_string(),
        source_paths: vec!["/ws/icons.gui.toml".to_string(), "/ws/nav.gui.toml".to_string()],
        entries: Vec::new(),
        providers: Vec::new(),
        default_paint: None,
    };
    assert_eq!(
        guicons::icon_build::rerun_lines(&manifest),
        vec![
            "cargo:rerun-if-changed=/ws/icons.gui.toml",
            "cargo:rerun-if-changed=/ws/nav.gui.toml",
            "cargo:rerun-if-env-changed=GUICONS_ALLOW_NETWORK",
        ]
    );
}
