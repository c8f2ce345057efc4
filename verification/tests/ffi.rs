use guicons::ffi::{entry_at_offset, list_manifest_entries, resolve_family_variant, ListManifestEntriesOutcome, ResolveOutcome};
use guicons::discovery::{Discovery, DiscoveryAction, DiscoveryEvent};
use guicons::load::{load_from_graph, ManifestError};
use guicons::model::{IconEntry, IconEntrySource, IconManifest};
use guicons::rust_macro::{macro_call_at, MacroKind};
use guicons::selector::{parse_selector, IconSelector};

fn entry(key: &str, family: &str, variant: Option<&str>, size: Option<u16>, source: IconEntrySource, span: std::ops::Range<usize>) -> IconEntry {
    IconEntry {
        key: key.to_string(),
        family: family.to_string(),
        variant: variant.map(str::to_string),
        size,
        source,
        dynamic: false,
        windows_ico: None,
        paint: None,
        span,
        file: "/ws/icons.gui.toml".to_string(),
    }
}

fn manifest() -> IconManifest {
    IconManifest {
        manifest_path: "/ws/icons.gui.toml".to_string(),
        workspace_root: "/ws".to_string(),
        source_paths: vec!["/ws/icons.gui.toml".to_string()],
        entries: vec![
            entry("docker", "docker", None, None, IconEntrySource::File("/ws/docker.svg".to_string()), 0..30),
            entry("gear-filled", "gear", Some("filled"), None, IconEntrySource::Iconify("mdi:cog".to_string()), 31..70),
        ],
        providers: Vec::new(),
        default_paint: None,
    }
}

#[test]
fn macro_call_at_finds_a_dotted_path_call() {
    let text = "fn f() { let x = icon!(docker.filled); }".to_string();
    let offset = text.find("docker.filled").unwrap();
    let site = macro_call_at(&text, offset).expect("a call site");
    assert!(matches!(site.kind, MacroKind::Icon));
    assert_eq!(site.arg_text, "docker.filled");
}

#[test]
fn resolve_family_variant_finds_a_file_sourced_entry() {
    let outcome = resolve_family_variant(&manifest(), &Vec::new(), "docker".to_string(), None, None);
    let ResolveOutcome::Found(found) = outcome else { panic!("expected Found") };
    assert_eq!(found.key, "docker");
    assert_eq!(found.source_description, "file `docker.svg`");
    assert_eq!(found.source_file.as_deref(), Some("/ws/docker.svg"));
    assert_eq!(found.iconify_id, None);
    assert_eq!(found.declared_in_file, "icons.gui.toml");
    assert_eq!(found.declared_in_file_path, "/ws/icons.gui.toml");
    assert_eq!((found.declared_in_span_start, found.declared_in_span_end), (0, 30));
}

#[test]
fn resolve_family_variant_reports_not_found_and_invalid_manifests() {
    let outcome = resolve_family_variant(&manifest(), &Vec::new(), "gear".to_string(), None, Some("regular".to_string()));
    assert!(matches!(outcome, ResolveOutcome::NotFound));
    let errors = vec![ManifestError { file: "/ws/icons.gui.toml".to_string(), span: None, message: "broken".to_string() }];
    let outcome = resolve_family_variant(&manifest(), &errors, "docker".to_string(), None, None);
    let ResolveOutcome::ManifestInvalid { errors } = outcome else { panic!("expected ManifestInvalid") };
    assert_eq!(errors.len(), 1);
    assert!(errors[0].contains("broken"));
}

#[test]
fn entry_at_offset_finds_the_table_holding_the_caret() {
    let found = entry_at_offset(&manifest(), &Vec::new(), "/ws/icons.gui.toml", 40).expect("an entry");
    assert_eq!(found.key, "gear-filled");
    assert_eq!(found.iconify_id.as_deref(), Some("mdi:cog"));
    assert_eq!(found.variant.as_deref(), Some("filled"));
    assert!(entry_at_offset(&manifest(), &Vec::new(), "/ws/icons.gui.toml", 70).is_none());
    assert!(entry_at_offset(&manifest(), &Vec::new(), "/ws/other.gui.toml", 5).is_none());
}

#[test]
fn list_manifest_entries_describes_every_entry() {
    let ListManifestEntriesOutcome::Found { entries } = list_manifest_entries(&manifest(), &Vec::new()) else {
        panic!("expected Found")
    };
    let keys: Vec<&str> = entries.iter().map(|e| e.key.as_str()).collect();
    assert_eq!(keys, vec!["docker", "gear-filled"]);
    assert_eq!(entries[1].source_description, "iconify `mdi:cog`");
}

#[test]
fn parse_selector_handles_a_dotted_path() {
    let selector = parse_selector("docker.filled").ok().expect("a selector");
    match selector {
        IconSelector::FamilyVariant { family, size, variant } => {
            assert_eq!(family, "docker");
            assert_eq!(size, None);
            assert_eq!(variant.as_deref(), Some("filled"));
        }
        IconSelector::Iconify(..) => panic!("expected FamilyVariant"),
    }
}

#[test]
fn parse_selector_handles_an_iconify_literal() {
    let selector = parse_selector("\"mdi:home\"").ok().expect("a selector");
    match selector {
        IconSelector::Iconify(id) => assert_eq!(id, "mdi:home"),
        IconSelector::FamilyVariant { .. } => panic!("expected Iconify"),
    }
}

/// Loads a manifest of one file with text `content`, no file existing but it.
fn load_text(path: &str, content: &str) -> (IconManifest, Vec<ManifestError>) {
    let (mut d, mut action) = Discovery::new(path);
    loop {
        action = match action {
            DiscoveryAction::Canonicalize { path } => d.step(DiscoveryEvent::Canonical(path)),
            DiscoveryAction::Read { .. } => d.step(DiscoveryEvent::Content {
                content: content.to_string(),
                workspace_root: "/ws".to_string(),
            }),
            DiscoveryAction::Exists { .. } => d.step(DiscoveryEvent::Exists(false)),
            DiscoveryAction::Done { root } => {
                let mut errors = std::mem::take(&mut d.errors);
                let manifest = load_from_graph(&d.graph, root, &path.to_string(), &mut errors);
                return (manifest, errors);
            }
        };
    }
}

#[test]
fn resolve_family_variant_reports_manifest_invalid_for_a_broken_manifest() {
    let (manifest, errors) = load_text("/ws/icons.gui.toml", "[docker\nfile = \"docker.svg\"\n");

    let outcome = resolve_family_variant(&manifest, &errors, "docker".to_string(), None, None);

    let ResolveOutcome::ManifestInvalid { errors } = outcome else { panic!("expected ManifestInvalid, got a different outcome") };
    assert!(!errors.is_empty());
}
