use guicons::call_sites::{reference_ranges, rename_edits};
use guicons::manifest_text::{family_header_at, include_target_at};
use guicons::rename::{declaring_files, header_family_ranges, new_family_name, rename_family_in_arg_text, single_segment_family_header_at};
use guicons::model::{IconEntry, IconEntrySource, IconManifest};

#[test]
fn renames_a_bare_family() {
    assert_eq!(rename_family_in_arg_text("docker", "docker", "container").as_deref(), Some("container"));
}

#[test]
fn renames_a_family_keeping_its_variant() {
    assert_eq!(
        rename_family_in_arg_text("docker.filled", "docker", "container").as_deref(),
        Some("container.filled")
    );
}

#[test]
fn renames_a_family_keeping_size_and_variant() {
    assert_eq!(
        rename_family_in_arg_text("docker.24.filled", "docker", "container").as_deref(),
        Some("container.24.filled")
    );
}

#[test]
fn renames_a_family_keeping_a_trailing_module_clause() {
    assert_eq!(
        rename_family_in_arg_text("docker.filled, module = icons2", "docker", "container").as_deref(),
        Some("container.filled, module = icons2")
    );
}

#[test]
fn renames_a_quoted_literal_family_keeping_its_variant() {
    assert_eq!(
        rename_family_in_arg_text("\"docker/filled\"", "docker", "container").as_deref(),
        Some("\"container/filled\"")
    );
}

#[test]
fn does_not_rename_a_family_that_only_shares_a_prefix() {
    assert_eq!(rename_family_in_arg_text("docker-compose.filled", "docker", "container"), None);
}

#[test]
fn single_segment_family_header_finds_the_plain_case() {
    let text = "[docker]\nfile = \"docker.svg\"\n";
    let (family, range) = single_segment_family_header_at(text, 2).expect("a family header");
    assert_eq!(family, "docker");
    assert_eq!(&text[range], "docker");
}

#[test]
fn single_segment_family_header_strips_a_trailing_size_segment() {
    let text = "[docker.24]\nfile = \"docker.svg\"\n";
    let (family, range) = single_segment_family_header_at(text, 2).expect("a family header");
    assert_eq!(family, "docker");
    assert_eq!(&text[range], "docker");
}

#[test]
fn single_segment_family_header_refuses_a_dotted_multi_segment_header() {
    let text = "[nav.bar]\nfile = \"nav-bar.svg\"\n";
    assert_eq!(single_segment_family_header_at(text, 2), None);
}

#[test]
fn single_segment_family_header_ignores_non_entry_tables() {
    assert_eq!(single_segment_family_header_at("[link]\nincludes = []\n", 2), None);
    assert_eq!(single_segment_family_header_at("[defaults]\nroot = \"x\"\n", 2), None);
    assert_eq!(single_segment_family_header_at("[providers.fluent]\n", 2), None);
}

#[test]
fn header_family_ranges_finds_every_header_sharing_the_family_across_sizes() {
    let text = "[docker]\nfile = \"a.svg\"\n\n[docker.24]\nfile = \"b.svg\"\n";
    let ranges = header_family_ranges(text, "docker");
    assert_eq!(ranges.len(), 2, "{ranges:?}");
    for range in &ranges {
        assert_eq!(&text[range.clone()], "docker");
    }
}

#[test]
fn single_segment_family_header_range_skips_leading_blanks() {
    let text = "x = 1\n  [gear.16]  \n";
    let offset = text.find("gear").unwrap();
    let (family, range) = single_segment_family_header_at(text, offset).expect("a family header");
    assert_eq!(family, "gear");
    assert_eq!(range, 9..13);
}

#[test]
fn renaming_keeps_blank_margins_around_the_selector() {
    assert_eq!(
        rename_family_in_arg_text("  docker.filled ,module=m", "docker", "box").as_deref(),
        Some("  box.filled ,module=m")
    );
}

#[test]
fn renaming_back_restores_the_original_argument() {
    let once = rename_family_in_arg_text(" \"docker/24/filled\" , module = m", "docker", "box").unwrap();
    assert_eq!(once, " \"box/24/filled\" , module = m");
    let back = rename_family_in_arg_text(&once, "box", "docker").unwrap();
    assert_eq!(back, " \"docker/24/filled\" , module = m");
}

#[test]
fn quoted_literal_needs_a_slash_after_the_family() {
    assert_eq!(rename_family_in_arg_text("\"dockers/filled\"", "docker", "box"), None);
}

#[test]
fn family_header_at_reads_dotted_names_and_sizes() {
    let text = "[nav.bar.24]\nfile = \"x.svg\"\n";
    assert_eq!(family_header_at(text, 3), Some(("nav-bar".to_string(), Some(24))));
    assert_eq!(family_header_at("[include]\n", 2), None);
    assert_eq!(family_header_at("[providers.x]\n", 2), None);
}

#[test]
fn include_target_at_reads_a_path_inside_the_include_table() {
    let text = "[include]\nshared = \"../shared.gui.toml\"\n\n[docker]\nfile = \"d.svg\"\n";
    let on_include = text.find("shared =").unwrap() + 2;
    assert_eq!(include_target_at(text, on_include).as_deref(), Some("../shared.gui.toml"));
    let on_entry = text.find("file =").unwrap() + 1;
    assert_eq!(include_target_at(text, on_entry), None);
    assert_eq!(include_target_at("[docker]\nfile = \"d.svg\"\n", 12), None);
}

#[test]
fn references_are_the_calls_naming_the_same_entry() {
    let text = "fn f() { icon!(docker.filled); icon_key!(\"docker/filled\"); icon!(docker.regular); icon!(other); }";
    let ranges = reference_ranges(text, "docker", None, Some("filled".to_string()));
    let found: Vec<&str> = ranges.iter().map(|r| &text[r.clone()]).collect();
    assert_eq!(found, vec!["docker.filled", "\"docker/filled\""]);
}

#[test]
fn renaming_a_family_rewrites_every_call_naming_it() {
    let text = "icon!(docker.filled); icon_data!(docker, module = m); icon!(dockers.x); icon!(\"mdi:docker\");";
    let edits = rename_edits(text, "docker", "box");
    let got: Vec<(&str, &str)> = edits.iter().map(|(r, t)| (&text[r.clone()], t.as_str())).collect();
    assert_eq!(got, vec![("docker.filled", "box.filled"), ("docker, module = m", "box, module = m")]);
}

fn entry_in(key: &str, family: &str, file: &str) -> IconEntry {
    IconEntry {
        key: key.to_string(),
        family: family.to_string(),
        variant: None,
        size: None,
        source: IconEntrySource::File(format!("/ws/{key}.svg")),
        dynamic: false,
        windows_ico: None,
        paint: None,
        span: 0..1,
        file: file.to_string(),
    }
}

#[test]
fn new_family_names_are_trimmed_and_checked() {
    assert_eq!(new_family_name("  gear \n"), Ok("gear".to_string()));
    let refused = Err("family name can't be empty or contain `.`, `/`, or whitespace".to_string());
    assert_eq!(new_family_name("   "), refused);
    assert_eq!(new_family_name("a.b"), refused);
    assert_eq!(new_family_name("a/b"), refused);
    assert_eq!(new_family_name("a b"), refused);
}

#[test]
fn declaring_files_lists_each_file_of_a_family_once() {
    let manifest = IconManifest {
        manifest_path: "/ws/icons.gui.toml".to_string(),
        workspace_root: "/ws".to_string(),
        source_paths: Vec::new(),
        entries: vec![
            entry_in("gear-filled", "gear", "/ws/nav.gui.toml"),
            entry_in("home", "home", "/ws/icons.gui.toml"),
            entry_in("gear-regular", "gear", "/ws/icons.gui.toml"),
            entry_in("gear-light", "gear", "/ws/nav.gui.toml"),
        ],
        providers: Vec::new(),
        default_paint: None,
    };
    assert_eq!(declaring_files(&manifest, "gear"), vec!["/ws/nav.gui.toml", "/ws/icons.gui.toml"]);
    assert!(declaring_files(&manifest, "star").is_empty());
}
