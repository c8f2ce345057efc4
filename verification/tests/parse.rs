use guicons::fields::get_field;
use guicons::model::{IconEntry, IconEntrySource, IconManifest, ProviderSchema};
use guicons::parse::{collect_entries, decompose_iconify_id, parse_defaults, ManifestDefaults};
use guicons::providers::{builtin_providers, parse_providers, resolve_providers};
use guicons::toml::parse_toml;

fn workspace_root() -> String {
    "/workspace".to_string()
}

fn no_defaults() -> ManifestDefaults {
    ManifestDefaults { roots: Vec::new(), provider: None, size: None, paint: None }
}

fn with_root() -> ManifestDefaults {
    ManifestDefaults { roots: vec![workspace_root()], provider: None, size: None, paint: None }
}

fn entries_for(toml: &str, defaults: ManifestDefaults) -> (Vec<IconEntry>, Vec<String>) {
    let table = parse_toml(toml).expect("valid toml");
    let mut issues = Vec::new();
    let mut entries = Vec::new();
    collect_entries(&Vec::new(), &table, &workspace_root(), &defaults, &builtin_providers(), &mut issues, &mut entries);
    (entries, issues.into_iter().map(|i| i.message).collect())
}

fn defaults_for(toml: &str) -> (ManifestDefaults, Vec<String>) {
    let table = parse_toml(toml).expect("valid toml");
    let mut issues = Vec::new();
    let defaults = parse_defaults(get_field(&table, "defaults"), &workspace_root(), &workspace_root(), &mut issues);
    (defaults, issues.into_iter().map(|i| i.message).collect())
}

fn providers_for(toml: &str) -> (Vec<(String, ProviderSchema)>, Vec<String>) {
    let table = parse_toml(toml).expect("valid toml");
    let mut issues = Vec::new();
    let declarations = parse_providers(get_field(&table, "providers"), &mut issues);
    let providers = resolve_providers(declarations, &mut issues);
    (providers, issues.into_iter().map(|i| i.message).collect())
}

fn provider<'a>(providers: &'a [(String, ProviderSchema)], name: &str) -> Option<&'a ProviderSchema> {
    providers.iter().find(|(n, _)| n == name).map(|(_, s)| s)
}

fn schema(variants: &[&str], sizes: &[u16]) -> ProviderSchema {
    ProviderSchema { variants: variants.iter().map(|v| v.to_string()).collect(), sizes: sizes.to_vec(), paint: None }
}

fn manifest_with_providers(providers: Vec<(String, ProviderSchema)>) -> IconManifest {
    IconManifest {
        manifest_path: "icons.gui.toml".to_string(),
        workspace_root: "/workspace".to_string(),
        source_paths: Vec::new(),
        entries: Vec::new(),
        providers,
        default_paint: None,
    }
}

#[test]
fn simple_file_entry() {
    let (entries, errors) = entries_for(
        r#"
            [settings]
            file = "settings.svg"
            "#,
        with_root(),
    );
    assert!(errors.is_empty(), "{errors:?}");
    assert_eq!(entries.len(), 1);
    assert_eq!(entries[0].key, "settings");
    assert_eq!(entries[0].family, "settings");
    assert_eq!(entries[0].variant, None);
    assert!(matches!(&entries[0].source, IconEntrySource::File(p) if p.ends_with("settings.svg")));
}

#[test]
fn variants_produce_two_entries_sharing_a_family() {
    let (entries, errors) = entries_for(
        r#"
            [settings]
            variants.filled = { file = "settings-filled.svg" }
            variants.regular = { file = "settings-regular.svg" }
            "#,
        with_root(),
    );
    assert!(errors.is_empty(), "{errors:?}");
    let keys: Vec<&str> = entries.iter().map(|e| e.key.as_str()).collect();
    assert_eq!(keys, vec!["settings-filled", "settings-regular"]);
    assert!(entries.iter().all(|e| e.family == "settings"));
}

#[test]
fn nested_groups_build_a_dashed_key() {
    let (entries, errors) = entries_for(
        r#"
            [icons.navigation.back]
            file = "back.svg"
            "#,
        with_root(),
    );
    assert!(errors.is_empty(), "{errors:?}");
    assert_eq!(entries.len(), 1);
    assert_eq!(entries[0].key, "icons-navigation-back");
}

#[test]
fn unsupported_field_is_rejected() {
    let (entries, errors) = entries_for(
        r#"
            [settings]
            file = "settings.svg"
            bogus = "oops"
            "#,
        with_root(),
    );
    assert!(entries.is_empty());
    assert!(errors.iter().any(|e| e.contains("bogus")), "{errors:?}");
}

#[test]
fn two_sources_is_an_error() {
    let (entries, errors) = entries_for(
        r#"
            [settings]
            file = "settings.svg"
            url = "https://example.com/a.svg"
            "#,
        with_root(),
    );
    assert!(entries.is_empty());
    assert!(!errors.is_empty());
}

#[test]
fn no_source_is_an_error() {
    let (entries, errors) = entries_for(
        r#"
            [settings]
            dynamic = true
            "#,
        with_root(),
    );
    assert!(entries.is_empty());
    assert!(!errors.is_empty());
}

#[test]
fn wrong_field_type_is_rejected() {
    let (entries, errors) = entries_for(
        r#"
            [settings]
            file = "settings.svg"
            dynamic = "yes"
            "#,
        with_root(),
    );
    assert!(entries.is_empty());
    assert!(!errors.is_empty());
}

#[test]
fn variants_must_be_a_table() {
    let (entries, errors) = entries_for(
        r#"
            [settings]
            variants = "nope"
            "#,
        with_root(),
    );
    assert!(entries.is_empty());
    assert!(!errors.is_empty());
}

#[test]
fn variant_entry_must_be_an_inline_table() {
    let (entries, errors) = entries_for(
        r#"
            [settings]
            variants.filled = "settings-filled.svg"
            "#,
        with_root(),
    );
    assert!(entries.is_empty());
    assert!(!errors.is_empty());
}

#[test]
fn default_provider_fills_in_iconify_id() {
    let defaults = ManifestDefaults { provider: Some("fluent".to_string()), size: Some(24), ..no_defaults() };
    let (entries, errors) = entries_for(
        r#"
            [settings]
            variants.filled = {}
            "#,
        defaults,
    );
    assert!(errors.is_empty(), "{errors:?}");
    assert_eq!(entries.len(), 1);
    assert!(matches!(&entries[0].source, IconEntrySource::Iconify(id) if id == "fluent:settings-24-filled"));
}

#[test]
fn explicit_iconify_overrides_default_provider() {
    let defaults = ManifestDefaults { provider: Some("fluent".to_string()), ..no_defaults() };
    let (entries, errors) = entries_for(
        r#"
            [settings]
            iconify = "phosphor:gear"
            "#,
        defaults,
    );
    assert!(errors.is_empty(), "{errors:?}");
    assert_eq!(entries.len(), 1);
    assert!(matches!(&entries[0].source, IconEntrySource::Iconify(id) if id == "phosphor:gear"));
}

#[test]
fn defaults_merge_root_and_roots() {
    let (defaults, errors) = defaults_for(
        r#"
            [defaults]
            root = "a"
            roots = ["b", "c"]
            "#,
    );
    assert!(errors.is_empty(), "{errors:?}");
    assert_eq!(defaults.roots, vec!["/workspace/a", "/workspace/b", "/workspace/c"]);
}

#[test]
fn defaults_fall_back_to_manifest_and_workspace_dirs_when_empty() {
    let (defaults, errors) = defaults_for("");
    assert!(errors.is_empty(), "{errors:?}");
    assert!(!defaults.roots.is_empty());
    assert!(defaults.roots.iter().all(|r| r == "/workspace"), "{:?}", defaults.roots);
}

#[test]
fn defaults_reject_unsupported_field() {
    let (_, errors) = defaults_for(
        r#"
            [defaults]
            bogus = 1
            "#,
    );
    assert!(errors.iter().any(|e| e.contains("bogus")), "{errors:?}");
}

#[test]
fn numeric_path_segment_becomes_size_not_family() {
    let (entries, errors) = entries_for(
        r#"
            [settings.20]
            variants.filled = { file = "settings-20-filled.svg" }

            [settings.24]
            variants.filled = { file = "settings-24-filled.svg" }
            "#,
        with_root(),
    );
    assert!(errors.is_empty(), "{errors:?}");
    let summary: Vec<(&str, &str, Option<u16>)> =
        entries.iter().map(|e| (e.key.as_str(), e.family.as_str(), e.size)).collect();
    assert_eq!(
        summary,
        vec![("settings-20-filled", "settings", Some(20)), ("settings-24-filled", "settings", Some(24))]
    );
}

#[test]
fn numeric_path_segment_becomes_size_for_flat_entry() {
    let (entries, errors) = entries_for(
        r#"
            [settings.20]
            file = "settings-20.svg"
            "#,
        with_root(),
    );
    assert!(errors.is_empty(), "{errors:?}");
    assert_eq!(entries.len(), 1);
    assert_eq!(entries[0].key, "settings-20");
    assert_eq!(entries[0].family, "settings");
    assert_eq!(entries[0].size, Some(20));
}

#[test]
fn explicit_size_feeds_default_iconify_id() {
    let defaults = ManifestDefaults { provider: Some("fluent".to_string()), ..no_defaults() };
    let (entries, errors) = entries_for(
        r#"
            [settings.20]
            variants.filled = {}
            "#,
        defaults,
    );
    assert!(errors.is_empty(), "{errors:?}");
    assert_eq!(entries.len(), 1);
    assert!(matches!(&entries[0].source, IconEntrySource::Iconify(id) if id == "fluent:settings-20-filled"));
}

#[test]
fn defaults_reject_wrong_field_type() {
    let (_, errors) = defaults_for(
        r#"
            [defaults]
            size = "big"
            "#,
    );
    assert!(!errors.is_empty());
}

#[test]
fn parses_a_custom_provider_schema() {
    let (providers, errors) = providers_for(
        r#"
            [providers.acme]
            variants = ["outline", "solid"]
            sizes = [16, 24]
            "#,
    );
    assert!(errors.is_empty(), "{errors:?}");
    let acme = provider(&providers, "acme").expect("acme provider");
    assert_eq!(acme.variants, vec!["outline", "solid"]);
    assert_eq!(acme.sizes, vec![16, 24]);
}

#[test]
fn provider_without_variants_or_sizes_defaults_to_empty() {
    let (providers, errors) = providers_for(
        r#"
            [providers.acme]
            "#,
    );
    assert!(errors.is_empty(), "{errors:?}");
    let acme = provider(&providers, "acme").expect("acme provider");
    assert!(acme.variants.is_empty());
    assert!(acme.sizes.is_empty());
}

#[test]
fn providers_entry_must_be_a_table() {
    let (_, errors) = providers_for(
        r#"
            providers = "nope"
            "#,
    );
    assert!(!errors.is_empty());
}

#[test]
fn provider_schema_rejects_wrong_field_type() {
    let (_, errors) = providers_for(
        r#"
            [providers.acme]
            sizes = "big"
            "#,
    );
    assert!(!errors.is_empty());
}

#[test]
fn builtin_providers_are_available_even_when_unmentioned() {
    let (providers, errors) = providers_for("");
    assert!(errors.is_empty(), "{errors:?}");
    let fluent = provider(&providers, "fluent").expect("builtin fluent provider");
    assert_eq!(fluent.variants, vec!["regular", "filled"]);
    assert_eq!(fluent.sizes, vec![16, 20, 24, 28, 32, 48]);
    for name in ["ph", "material-symbols", "heroicons", "bi", "tabler"] {
        assert!(provider(&providers, name).is_some(), "missing builtin `{name}`");
    }
}

#[test]
fn redefining_a_builtin_provider_without_override_is_an_error() {
    let (providers, errors) = providers_for(
        r#"
            [providers.fluent]
            variants = ["custom"]
            "#,
    );
    assert_eq!(
        provider(&providers, "fluent").expect("builtin fluent provider").variants,
        vec!["regular", "filled"],
        "rejected redefinition must not replace the builtin"
    );
    assert!(!errors.is_empty());
}

#[test]
fn override_replaces_only_the_fields_it_specifies() {
    let (providers, errors) = providers_for(
        r#"
            [providers.fluent.override]
            variants = ["regular", "filled", "light"]
            "#,
    );
    assert!(errors.is_empty(), "{errors:?}");
    let fluent = provider(&providers, "fluent").expect("fluent provider");
    assert_eq!(fluent.variants, vec!["regular", "filled", "light"]);
    assert_eq!(fluent.sizes, vec![16, 20, 24, 28, 32, 48]);
}

#[test]
fn override_on_a_non_builtin_name_is_an_error() {
    let (_, errors) = providers_for(
        r#"
            [providers.acme.override]
            variants = ["solid"]
            "#,
    );
    assert!(!errors.is_empty());
}

#[test]
fn mixing_own_fields_with_override_is_an_error() {
    let (_, errors) = providers_for(
        r#"
            [providers.fluent]
            variants = ["custom"]
            override = { variants = ["light"] }
            "#,
    );
    assert!(!errors.is_empty());
}

#[test]
fn decompose_fluent_style_size_and_variant() {
    let manifest = manifest_with_providers(vec![(
        "fluent".to_string(),
        schema(&["regular", "filled"], &[16, 20, 24, 28, 32, 48]),
    )]);
    assert_eq!(
        decompose_iconify_id("fluent:add-square-multiple-24-regular", &manifest),
        Some(("add-square-multiple".to_string(), Some(24), Some("regular".to_string())))
    );
}

#[test]
fn decompose_phosphor_style_bare_default_has_no_suffix() {
    let manifest =
        manifest_with_providers(vec![("ph".to_string(), schema(&["thin", "light", "bold", "fill", "duotone"], &[]))]);
    assert_eq!(decompose_iconify_id("ph:acorn", &manifest), Some(("acorn".to_string(), None, None)));
}

#[test]
fn decompose_phosphor_style_with_variant_suffix() {
    let manifest =
        manifest_with_providers(vec![("ph".to_string(), schema(&["thin", "light", "bold", "fill", "duotone"], &[]))]);
    assert_eq!(
        decompose_iconify_id("ph:acorn-bold", &manifest),
        Some(("acorn".to_string(), None, Some("bold".to_string())))
    );
}

#[test]
fn decompose_material_symbols_style_compound_variant_matches_greedily() {
    let manifest = manifest_with_providers(vec![(
        "material-symbols".to_string(),
        schema(&["outline", "rounded", "sharp", "outline-rounded", "outline-sharp"], &[]),
    )]);
    assert_eq!(
        decompose_iconify_id("material-symbols:3d-rotation-outline-rounded", &manifest),
        Some(("3d-rotation".to_string(), None, Some("outline-rounded".to_string())))
    );
}

#[test]
fn decompose_bootstrap_style_leading_digit_name_is_not_mistaken_for_size() {
    let manifest = manifest_with_providers(vec![("bi".to_string(), schema(&["fill"], &[]))]);
    assert_eq!(decompose_iconify_id("bi:0-circle", &manifest), Some(("0-circle".to_string(), None, None)));
}

#[test]
fn decompose_unknown_provider_returns_none() {
    let manifest = manifest_with_providers(Vec::new());
    assert_eq!(decompose_iconify_id("unknown:whatever", &manifest), None);
}

#[test]
fn decompose_id_without_colon_returns_none() {
    let manifest = manifest_with_providers(Vec::new());
    assert_eq!(decompose_iconify_id("no-colon-here", &manifest), None);
}

#[test]
fn decompose_round_trips_a_built_id() {
    let manifest = manifest_with_providers(vec![(
        "provider".to_string(),
        schema(&["ab", "cd"], &[12, 7]),
    )]);
    assert_eq!(
        decompose_iconify_id("provider:xy-zw-12-ab", &manifest),
        Some(("xy-zw".to_string(), Some(12), Some("ab".to_string())))
    );
}
