use guicons::completion::{completion_answer, completion_dir, completion_inputs, ChoiceKind, CompletionAnswer, PathFieldKind};
use guicons::manifest_text::provider_name_at;
use guicons::model::{IconManifest, ProviderSchema};

fn manifest(providers: Vec<(String, ProviderSchema)>) -> IconManifest {
    IconManifest {
        manifest_path: "/ws/icons.gui.toml".to_string(),
        workspace_root: "/ws".to_string(),
        source_paths: Vec::new(),
        entries: Vec::new(),
        providers,
        default_paint: None,
    }
}

fn builtin() -> Vec<String> {
    vec!["fluent".to_string(), "lucide".to_string(), "mdi".to_string()]
}

fn schema(variants: &[&str]) -> ProviderSchema {
    ProviderSchema { variants: variants.iter().map(|v| v.to_string()).collect(), sizes: Vec::new(), paint: None }
}

fn labels(a: &CompletionAnswer) -> Vec<String> {
    a.items.iter().map(|c| c.label.clone()).collect()
}

fn offset_of(text: &str, line: usize, character: usize) -> usize {
    text.split_inclusive('\n').take(line).map(str::len).sum::<usize>() + character
}

fn answer(text: &str, line: usize, character: usize) -> Option<CompletionAnswer> {
    completion_answer(text, offset_of(text, line, character), &builtin(), &manifest(Vec::new()), &Vec::new(), &None)
}

#[test]
fn completion_inside_providers_header_lists_builtin_names() {
    let a = answer("[providers.]\n", 0, 11).unwrap();
    assert!(labels(&a).contains(&"fluent".to_string()));
    assert!(!a.as_list);
    assert_eq!(a.items[0].detail.as_deref(), Some("built-in provider"));
}

#[test]
fn completion_at_top_level_lists_manifest_sections() {
    let a = answer("\n[docker]\nfile = \"docker.svg\"\n", 0, 0).unwrap();
    assert_eq!(labels(&a), vec!["defaults", "link", "providers"]);
}

#[test]
fn completion_inside_an_entry_lists_source_fields() {
    let a = answer("[docker]\n\nfile = \"docker.svg\"\n", 1, 0).unwrap();
    let l = labels(&a);
    assert!(l.contains(&"file".to_string()), "{l:?}");
    assert!(l.contains(&"iconify".to_string()), "{l:?}");
    assert!(l.contains(&"variants".to_string()), "{l:?}");
}

#[test]
fn completion_inside_link_section_suggests_includes() {
    let a = answer("[link]\n\n", 1, 0).unwrap();
    assert_eq!(labels(&a), vec!["includes"]);
}

#[test]
fn completion_in_defaults_and_provider_sections() {
    assert_eq!(labels(&answer("[defaults]\nr", 1, 1).unwrap()), vec!["root", "provider", "size"]);
    assert_eq!(labels(&answer("[providers.acme]\n", 1, 0).unwrap()), vec!["variants", "sizes"]);
}

#[test]
fn completion_after_a_partial_field_prefix_still_suggests_and_has_a_safe_range() {
    let text = "[docker]\nf\n";
    let a = answer(text, 1, 1).unwrap();
    let file = a.items.iter().find(|c| c.label == "file").unwrap();
    assert_eq!((file.start, file.end), (9, 10));
}

#[test]
fn completion_inside_a_file_value_lists_matching_assets() {
    let text = "[settings]\nfile = \"set\"\n";
    let offset = offset_of(text, 1, 11);
    let dir = vec![
        ("settings-filled.svg".to_string(), false),
        ("readme.txt".to_string(), false),
        ("settings-regular.svg".to_string(), false),
        ("sets".to_string(), true),
        ("other.svg".to_string(), false),
    ];
    assert_eq!(completion_inputs(text, offset), (Some(PathFieldKind::File), None));
    let a = completion_answer(text, offset, &builtin(), &manifest(Vec::new()), &dir, &None).unwrap();
    assert_eq!(labels(&a), vec!["settings-filled.svg", "settings-regular.svg", "sets"]);
    assert_eq!(a.items[2].kind, ChoiceKind::Folder);
    assert_eq!(a.items[0].kind, ChoiceKind::File);
    assert_eq!((a.items[0].start, a.items[0].end), (offset_of(text, 1, 8), offset));
}

#[test]
fn completion_inside_link_includes_lists_matching_manifests() {
    let text = "[link]\nincludes = [\"na\"]\n";
    let offset = offset_of(text, 1, 15);
    assert_eq!(completion_inputs(text, offset), (Some(PathFieldKind::Includes), None));
    let dir = vec![("nav.gui.toml".to_string(), false), ("nav.svg".to_string(), false)];
    let a = completion_answer(text, offset, &builtin(), &manifest(Vec::new()), &dir, &None).unwrap();
    assert_eq!(labels(&a), vec!["nav.gui.toml"]);
}

#[test]
fn completion_inside_an_iconify_value_before_the_colon_lists_provider_names() {
    let text = "[docker]\niconify = \"flu\"\n";
    let offset = offset_of(text, 1, 14);
    assert_eq!(completion_inputs(text, offset), (None, None));
    let m = manifest(vec![("flux".to_string(), schema(&[])), ("fluent".to_string(), schema(&[]))]);
    let a = completion_answer(text, offset, &builtin(), &m, &Vec::new(), &None).unwrap();
    assert!(a.as_list && !a.is_incomplete);
    assert_eq!(labels(&a), vec!["fluent:", "flux:"]);
    assert_eq!((a.items[0].start, a.items[0].end), (offset_of(text, 1, 11), offset));
}

#[test]
fn completion_inside_an_iconify_value_after_the_colon_lists_cached_icon_names() {
    let text = "[docker]\niconify = \"mdi:ho\"\n";
    let offset = offset_of(text, 1, 17);
    assert_eq!(completion_inputs(text, offset), (None, Some("mdi".to_string())));
    let cached = Some(vec!["home".to_string(), "home-outline".to_string(), "account".to_string()]);
    let a = completion_answer(text, offset, &builtin(), &manifest(Vec::new()), &Vec::new(), &cached).unwrap();
    assert!(!a.is_incomplete, "well under the cap, should not claim more exist");
    assert_eq!(labels(&a), vec!["home", "home-outline"]);
    assert_eq!((a.items[0].start, a.items[0].end), (offset_of(text, 1, 15), offset_of(text, 1, 17)));
}

#[test]
fn completion_inside_an_iconify_value_caps_a_huge_collection_and_marks_it_incomplete() {
    let text = "[docker]\niconify = \"mdi:icon-\"\n";
    let offset = offset_of(text, 1, 20);
    let cached = Some((0..500).map(|i| format!("icon-{i:04}")).collect::<Vec<_>>());
    let a = completion_answer(text, offset, &builtin(), &manifest(Vec::new()), &Vec::new(), &cached).unwrap();
    assert!(a.is_incomplete, "500 matches exceed the cap");
    assert_eq!(a.items.len(), 200);
    assert_eq!(a.items[0].label, "icon-0000");
}

#[test]
fn completion_after_variants_lists_builtin_providers_variants_sorted() {
    let text = "[docker]\nvariants.";
    let m = manifest(vec![
        ("mdi".to_string(), schema(&["outline", "filled"])),
        ("acme".to_string(), schema(&["zzz"])),
        ("fluent".to_string(), schema(&["regular", "filled"])),
    ]);
    let a = completion_answer(text, text.len(), &builtin(), &m, &Vec::new(), &None).unwrap();
    assert_eq!(labels(&a), vec!["filled", "outline", "regular"]);
}

#[test]
fn completion_after_a_value_offers_nothing() {
    assert!(answer("[docker]\nfile = \"a.svg\" x", 1, 16).is_none());
    assert!(completion_answer("ab", 7, &builtin(), &manifest(Vec::new()), &Vec::new(), &None).is_none());
}

#[test]
fn provider_name_at_reads_provider_headers() {
    assert_eq!(provider_name_at("[providers.fluent]\n", 3), Some("fluent".to_string()));
    assert_eq!(provider_name_at("x = 1\n[providers.acme.override]\n", 8), Some("acme".to_string()));
    assert_eq!(provider_name_at("[docker]\n", 2), None);
    assert_eq!(provider_name_at("[providers.]\n", 2), None);
}

#[test]
fn a_non_ascii_letter_still_counts_as_a_key_being_typed() {
    let text = "[docker]\n\u{e9}";
    let a = completion_answer(text, text.len(), &builtin(), &manifest(Vec::new()), &Vec::new(), &None).unwrap();
    let first = &a.items[0];
    assert_eq!(first.label, "file");
    assert_eq!((first.start, first.end), (9, 11));
    assert!(answer("[docker]\nfile x", 1, 6).is_none());
}

#[test]
fn file_completion_looks_in_the_defaults_root() {
    let ws = "/ws".to_string();
    let dir = "/ws/app".to_string();
    let text = "[defaults]\nroot = \"assets\"\n\n[gear]\nfile = \"g\"\n";
    assert_eq!(completion_dir(PathFieldKind::File, text, &ws, &dir), "/ws/assets");
    assert_eq!(completion_dir(PathFieldKind::Includes, text, &ws, &dir), "/ws/app");
    assert_eq!(completion_dir(PathFieldKind::File, "[gear]\nfile = \"g\"\n", &ws, &dir), "/ws/app");
    assert_eq!(completion_dir(PathFieldKind::File, "[gear\n", &ws, &dir), "/ws/app");
}
