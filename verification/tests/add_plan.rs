use guicons::add_plan::{added_keys, collisions, compute_key, manifest_edits, plan_add, table_path, AddPlan};
use guicons::model::{IconEntry, IconEntrySource, IconManifest, ProviderSchema};

fn manifest_with(providers: Vec<(String, ProviderSchema)>, keys: &[&str]) -> IconManifest {
    IconManifest {
        manifest_path: "/ws/icons.gui.toml".to_string(),
        workspace_root: "/ws".to_string(),
        source_paths: Vec::new(),
        entries: keys
            .iter()
            .map(|k| IconEntry {
                key: k.to_string(),
                family: k.to_string(),
                variant: None,
                size: None,
                source: IconEntrySource::File(format!("/ws/{k}.svg")),
                dynamic: false,
                windows_ico: None,
                paint: None,
                span: 0..1,
                file: "/ws/icons.gui.toml".to_string(),
            })
            .collect(),
        providers,
        default_paint: None,
    }
}

fn fluent() -> (String, ProviderSchema) {
    (
        "fluent".to_string(),
        ProviderSchema {
            variants: vec!["regular".to_string(), "filled".to_string()],
            sizes: vec![16, 20, 24],
            paint: None,
        },
    )
}

#[test]
fn add_file_source_plans_a_file_entry_named_after_the_file() {
    let plan = plan_add("icons/docker.svg", None, &Vec::new(), None, None).unwrap();
    assert_eq!(plan.family, "docker");
    assert_eq!(plan.field_name, "file");
    assert_eq!(plan.items, vec![(None, "icons/docker.svg".to_string())]);
    assert_eq!(added_keys(&plan), vec!["docker"]);
}

#[test]
fn add_iconify_without_flags_falls_back_to_flat_entry_without_a_schema() {
    let plan = plan_add("mdi:home", None, &Vec::new(), None, Some(&manifest_with(Vec::new(), &[]))).unwrap();
    assert_eq!(plan.family, "home");
    assert_eq!(plan.size, None);
    assert_eq!(plan.field_name, "iconify");
    assert_eq!(plan.items, vec![(None, "mdi:home".to_string())]);
}

#[test]
fn add_iconify_without_flags_decomposes_using_provider_schema() {
    let manifest = manifest_with(vec![fluent()], &[]);
    let plan = plan_add("fluent:add-square-24-regular", None, &Vec::new(), None, Some(&manifest)).unwrap();
    assert_eq!(plan.family, "add-square");
    assert_eq!(plan.size, Some(24));
    assert_eq!(plan.items, vec![(Some("regular".to_string()), "fluent:add-square-24-regular".to_string())]);
    assert_eq!(added_keys(&plan), vec!["add-square-24-regular"]);
}

#[test]
fn add_with_variants_and_size_writes_a_sized_group() {
    let variants = vec!["regular".to_string(), "filled".to_string()];
    let plan = plan_add("fluent:gear", Some("settings"), &variants, Some(24), None).unwrap();
    assert_eq!(plan.family, "settings");
    assert_eq!(plan.size, Some(24));
    assert_eq!(
        plan.items,
        vec![
            (Some("regular".to_string()), "fluent:gear-24-regular".to_string()),
            (Some("filled".to_string()), "fluent:gear-24-filled".to_string()),
        ]
    );
    assert_eq!(added_keys(&plan), vec!["settings-24-regular", "settings-24-filled"]);
    assert_eq!(table_path(&plan.family, plan.size), vec!["settings", "24"]);
}

#[test]
fn add_variants_without_name_is_an_error() {
    let variants = vec!["regular".to_string()];
    let err = plan_add("fluent:gear", None, &variants, None, None).unwrap_err();
    assert!(err.contains("--name"), "{err}");
}

#[test]
fn add_rejects_other_malformed_requests() {
    assert_eq!(plan_add("mdi:", None, &Vec::new(), None, None).unwrap_err(), "`mdi:` has no icon name after the `:`");
    let variants = vec!["regular".to_string()];
    assert!(plan_add("a.svg", None, &variants, None, None).unwrap_err().contains("--variants"));
    assert!(plan_add("..", None, &Vec::new(), None, None).unwrap_err().contains("pass `--name`"));
}

#[test]
fn add_rejects_duplicate_key_without_force() {
    let manifest = manifest_with(Vec::new(), &["docker"]);
    let plan = plan_add("docker.svg", None, &Vec::new(), None, Some(&manifest)).unwrap();
    assert_eq!(collisions(&plan, &manifest), vec!["docker"]);
    let other = plan_add("other.svg", None, &Vec::new(), None, Some(&manifest)).unwrap();
    assert!(collisions(&other, &manifest).is_empty());
}

#[test]
fn keys_and_table_paths_follow_family_size_variant() {
    assert_eq!(compute_key("gear", Some(24), Some("filled")), "gear-24-filled");
    assert_eq!(compute_key("gear", None, Some("filled")), "gear-filled");
    assert_eq!(compute_key("gear", None, None), "gear");
    assert_eq!(table_path("gear", None), vec!["gear"]);
}

#[test]
fn file_stems_keep_dotfiles_and_drop_one_extension() {
    assert_eq!(plan_add("a/b.tar.gz", None, &Vec::new(), None, None).unwrap().family, "b.tar");
    assert_eq!(plan_add("a/.hidden", None, &Vec::new(), None, None).unwrap().family, ".hidden");
    assert_eq!(plan_add("a/b/", None, &Vec::new(), None, None).unwrap().family, "b");
}

#[test]
fn manifest_edits_put_variants_under_the_variants_table() {
    let plan = AddPlan {
        family: "home".to_string(),
        size: Some(24),
        field_name: "iconify".to_string(),
        items: vec![
            (None, "mdi:home".to_string()),
            (Some("filled".to_string()), "fluent:home-24-filled".to_string()),
        ],
    };
    let edits = manifest_edits(&plan);
    assert_eq!(edits.len(), 2);
    assert_eq!(edits[0].table, vec!["home", "24"]);
    assert_eq!(edits[0].key, "iconify");
    assert_eq!(edits[0].inline_field, None);
    assert_eq!(edits[0].value, "mdi:home");
    assert_eq!(edits[1].table, vec!["home", "24", "variants"]);
    assert_eq!(edits[1].key, "filled");
    assert_eq!(edits[1].inline_field.as_deref(), Some("iconify"));
    assert_eq!(edits[1].value, "fluent:home-24-filled");
}
