use guicons::discovery::{Discovery, DiscoveryAction, DiscoveryEvent};
use guicons::graph::{add_file, file_count, link_files, new_file_graph, ManifestFile};
use guicons::load::{compile_parsed, includes_from, load_from_graph, normalize_line_endings, parse_files, ManifestError};
use guicons::toml::parse_toml;
use guicons::model::IconManifest;

fn discover(files: &[(&str, &str)], root: &str) -> (Discovery, usize) {
    let (mut d, mut action) = Discovery::new(root);
    loop {
        action = match action {
            DiscoveryAction::Canonicalize { path } => d.step(DiscoveryEvent::Canonical(path)),
            DiscoveryAction::Read { path } => match files.iter().find(|(p, _)| *p == path) {
                Some((_, content)) => d.step(DiscoveryEvent::Content {
                    content: content.to_string(),
                    workspace_root: "/ws".to_string(),
                }),
                None => d.step(DiscoveryEvent::ReadFailed("No such file".to_string())),
            },
            DiscoveryAction::Exists { path } => d.step(DiscoveryEvent::Exists(files.iter().any(|(p, _)| *p == path))),
            DiscoveryAction::Done { root } => return (d, root),
        };
    }
}

fn load(files: &[(&str, &str)], root: &str) -> (IconManifest, Vec<ManifestError>) {
    let (mut d, root_node) = discover(files, root);
    let mut errors = std::mem::take(&mut d.errors);
    let manifest = load_from_graph(&d.graph, root_node, &root.to_string(), &mut errors);
    (manifest, errors)
}

const NAV: &str = "/ws/icons/nav.gui.toml";
const ROOT: &str = "/ws/icons.gui.toml";

#[test]
fn include_merges_child_manifest_entries() {
    let files = [
        (NAV, "\n        [back]\n        file = \"back.svg\"\n        "),
        (ROOT, "\n        [link]\n        includes = [\"icons/nav.gui.toml\"]\n\n        [logo]\n        file = \"logo.svg\"\n        "),
    ];
    let (d, root) = discover(&files, ROOT);
    assert_eq!(root, 0);
    assert_eq!(file_count(&d.graph), 2);
    let (manifest, errors) = load(&files, ROOT);
    assert!(errors.is_empty(), "{errors:?}");
    let keys: Vec<&str> = manifest.entries.iter().map(|e| e.key.as_str()).collect();
    assert_eq!(keys, vec!["back", "logo"]);
}

#[test]
fn include_merges_child_manifest_providers() {
    let files = [
        (NAV, "\n        [providers.acme-nav]\n        variants = [\"thin\", \"light\", \"bold\", \"fill\", \"duotone\"]\n\n        [back]\n        file = \"back.svg\"\n        "),
        (ROOT, "\n        [providers.acme-root]\n        variants = [\"regular\", \"filled\"]\n        sizes = [24]\n\n        [link]\n        includes = [\"icons/nav.gui.toml\"]\n        "),
    ];
    let (manifest, errors) = load(&files, ROOT);
    assert!(errors.is_empty(), "{errors:?}");
    assert!(manifest.provider("acme-root").is_some());
    assert!(manifest.provider("acme-nav").is_some());
    assert_eq!(manifest.provider("acme-nav").unwrap().variants, vec!["thin", "light", "bold", "fill", "duotone"]);
}

#[test]
fn a_files_own_provider_wins_over_an_included_ones_same_name() {
    let files = [
        (NAV, "\n        [providers.acme]\n        variants = [\"from-include\"]\n        "),
        (ROOT, "\n        [providers.acme]\n        variants = [\"from-root\"]\n\n        [link]\n        includes = [\"icons/nav.gui.toml\"]\n        "),
    ];
    let (manifest, errors) = load(&files, ROOT);
    assert!(errors.is_empty(), "{errors:?}");
    assert_eq!(manifest.provider("acme").unwrap().variants, vec!["from-root"]);
}

#[test]
fn cyclic_include_is_reported_and_does_not_hang() {
    let files = [
        ("/ws/b.gui.toml", "\n        [link]\n        includes = [\"a.gui.toml\"]\n        "),
        ("/ws/a.gui.toml", "\n        [link]\n        includes = [\"b.gui.toml\"]\n        "),
    ];
    let (_, errors) = load(&files, "/ws/a.gui.toml");
    assert_eq!(errors.len(), 1, "{errors:?}");
    assert_eq!(errors[0].file, "/ws/a.gui.toml");
    assert_eq!(errors[0].span, None);
    assert_eq!(errors[0].message, "recursive icon manifest include");
}

#[test]
fn link_section_must_be_a_table() {
    let (_, errors) = load(&[(ROOT, "\n        link = \"nope\"\n        ")], ROOT);
    assert_eq!(errors.len(), 1, "{errors:?}");
}

#[test]
fn link_includes_must_be_an_array() {
    let (_, errors) = load(&[(ROOT, "\n        [link]\n        includes = \"nope\"\n        ")], ROOT);
    assert_eq!(errors.len(), 1, "{errors:?}");
}

#[test]
fn link_includes_entries_must_be_strings() {
    let (_, errors) = load(&[(ROOT, "\n        [link]\n        includes = [5]\n        ")], ROOT);
    assert_eq!(errors.len(), 1, "{errors:?}");
}

#[test]
fn missing_manifest_file_produces_an_error_not_a_panic() {
    let (manifest, errors) = load(&[], "/ws/does-not-exist.gui.toml");
    assert!(manifest.entries.is_empty());
    assert_eq!(errors.len(), 1);
    assert_eq!(errors[0].file, "/ws/does-not-exist.gui.toml");
    assert!(errors[0].message.starts_with("failed to read file:"));
}

#[test]
fn entries_are_sorted_by_key_across_includes() {
    let files = [
        (NAV, "\n        [middle]\n        file = \"middle.svg\"\n        "),
        (ROOT, "\n        [link]\n        includes = [\"icons/nav.gui.toml\"]\n\n        [zebra]\n        file = \"z.svg\"\n\n        [alpha]\n        file = \"a.svg\"\n        "),
    ];
    let (manifest, errors) = load(&files, ROOT);
    assert!(errors.is_empty(), "{errors:?}");
    let keys: Vec<&str> = manifest.entries.iter().map(|e| e.key.as_str()).collect();
    assert_eq!(keys, vec!["alpha", "middle", "zebra"]);
}

#[test]
fn entries_carry_the_file_they_were_declared_in_even_across_includes() {
    let files = [
        (NAV, "\n        [back]\n        file = \"back.svg\"\n        "),
        (ROOT, "\n        [link]\n        includes = [\"icons/nav.gui.toml\"]\n\n        [docker]\n        file = \"docker.svg\"\n        "),
    ];
    let (manifest, errors) = load(&files, ROOT);
    assert!(errors.is_empty(), "{errors:?}");
    assert_eq!(manifest.entry_for_key("docker").unwrap().file, ROOT);
    assert_eq!(manifest.entry_for_key("back").unwrap().file, NAV);
}

#[test]
fn a_missing_or_foreign_include_is_reported() {
    let files = [(ROOT, "[link]\nincludes = [\"gone.gui.toml\", \"notes.txt\"]\n")];
    let (d, _) = discover(&files, ROOT);
    assert_eq!(d.errors.len(), 2, "{:?}", d.errors);
    assert!(d.errors[0].message.contains("doesn't exist: `gone.gui.toml`"), "{}", d.errors[0].message);
    assert!(d.errors[1].message.contains("isn't a `.gui.toml` manifest"), "{}", d.errors[1].message);
}

#[test]
fn a_duplicate_key_across_an_include_is_reported() {
    let files = [
        (ROOT, "[link]\nincludes = [\"more.gui.toml\"]\n\n[docker]\niconify = \"mdi:docker\"\n"),
        ("/ws/more.gui.toml", "[docker]\niconify = \"mdi:ship\"\n"),
    ];
    let (_, errors) = load(&files, ROOT);
    assert_eq!(errors.len(), 1, "{errors:?}");
    assert!(errors[0].message.starts_with("duplicate icon key `docker`"), "{}", errors[0].message);
}

#[test]
fn compile_parsed_reads_a_graph_built_by_hand() {
    let mut g = new_file_graph();
    let root = add_file(
        &mut g,
        ManifestFile {
            path: "/ws/icons.gui.toml".to_string(),
            content: "[providers.acme]\nvariants = [\"own\"]\n\n[logo]\nfile = \"logo.svg\"\n".to_string(),
            workspace_root: "/ws".to_string(),
        },
    )
    .unwrap();
    let child = add_file(
        &mut g,
        ManifestFile {
            path: "/ws/nav.gui.toml".to_string(),
            content: "[providers.acme]\nvariants = [\"included\"]\n\n[back]\nfile = \"back.svg\"\n".to_string(),
            workspace_root: "/ws".to_string(),
        },
    )
    .unwrap();
    let empty = add_file(
        &mut g,
        ManifestFile { path: "/ws/broken.gui.toml".to_string(), content: String::new(), workspace_root: "/ws".to_string() },
    )
    .unwrap();
    assert!(link_files(&mut g, root, child, 0));
    assert!(link_files(&mut g, root, empty, 1));
    let docs = parse_files(&g);
    assert_eq!(docs.len(), 3);
    assert!(docs[0].is_some());
    assert!(docs[2].is_none());
    let mut errors = Vec::new();
    let sources = vec!["/ws/icons.gui.toml".to_string()];
    let manifest = compile_parsed(&g, &docs, root, &sources, &mut errors);
    assert!(errors.is_empty(), "{errors:?}");
    let keys: Vec<&str> = manifest.entries.iter().map(|e| e.key.as_str()).collect();
    assert_eq!(keys, vec!["back", "logo"]);
    let files: Vec<&str> = manifest.entries.iter().map(|e| e.file.as_str()).collect();
    assert_eq!(files, vec!["/ws/nav.gui.toml", "/ws/icons.gui.toml"]);
    assert_eq!(manifest.provider("acme").unwrap().variants, vec!["own"]);
    assert_eq!(manifest.workspace_root, "/ws");
    let leaf = compile_parsed(&g, &docs, empty, &sources, &mut errors);
    assert!(leaf.entries.is_empty());
    assert!(leaf.providers.is_empty());
}

#[test]
fn a_later_include_overrides_an_earlier_ones_provider() {
    let files = [
        ("/ws/a.gui.toml", "[providers.acme]\nvariants = [\"from-a\"]\n"),
        ("/ws/b.gui.toml", "[providers.acme]\nvariants = [\"from-b\"]\n"),
        (ROOT, "[link]\nincludes = [\"a.gui.toml\", \"b.gui.toml\"]\n"),
    ];
    let (manifest, errors) = load(&files, ROOT);
    assert!(errors.is_empty(), "{errors:?}");
    assert_eq!(manifest.provider("acme").unwrap().variants, vec!["from-b"]);
}

#[test]
fn includes_from_reads_link_includes_and_reports_syntax_errors() {
    let path = "/ws/icons.gui.toml".to_string();
    let mut errors = Vec::new();
    let parsed = parse_toml("[link]\nincludes = [\"a.gui.toml\", \"b.gui.toml\"]\n");
    let includes = includes_from(&path, &parsed, &mut errors).unwrap();
    let names: Vec<&str> = includes.iter().map(|i| i.0.as_str()).collect();
    assert_eq!(names, vec!["a.gui.toml", "b.gui.toml"]);
    assert!(errors.is_empty(), "{errors:?}");

    let bad = parse_toml("[link\n");
    assert!(includes_from(&path, &bad, &mut errors).is_none());
    assert_eq!(errors.len(), 1);
    assert_eq!(errors[0].file, path);
    assert!(errors[0].message.starts_with("TOML syntax error: "), "{}", errors[0].message);
}

#[test]
fn normalizing_line_endings_twice_changes_nothing_more() {
    let once = normalize_line_endings("[a]\r\nfile = \"a.svg\"\r[b]\r\n\r\n");
    assert_eq!(once, "[a]\nfile = \"a.svg\"\n[b]\n\n");
    assert_eq!(normalize_line_endings(&once), once);
}
