use guicons::manifest_scan::{is_manifest_file_name, is_skipped_dir_name};
use guicons::diagnostics::{closest_file_name, file_checks, iconify_note, levenshtein, missing_file_message, should_report_error};
use guicons::model::{IconEntry, IconEntrySource, IconManifest};

#[test]
fn levenshtein_matches_known_distances() {
    assert_eq!(levenshtein("docker", "docker"), 0);
    assert_eq!(levenshtein("docker", "dokcer"), 2);
    assert_eq!(levenshtein("", "abc"), 3);
}

#[test]
fn levenshtein_counts_characters_not_bytes() {
    assert_eq!(levenshtein("caf\u{e9}", "cafe"), 1);
    assert_eq!(levenshtein("kitten", "sitting"), 3);
}

#[test]
fn toml_syntax_errors_are_suppressed_only_when_configured_off() {
    let message = "TOML syntax error: expected a right bracket, found a newline";
    assert!(should_report_error(message, true));
    assert!(!should_report_error(message, false));
}

#[test]
fn semantic_errors_are_never_suppressed_by_the_toml_syntax_error_setting() {
    let message = "unexpected field(s): `bogus` (expected one of: `file`)";
    assert!(should_report_error(message, true));
    assert!(should_report_error(message, false));
}

#[test]
fn missing_file_gets_a_did_you_mean_suggestion_for_a_close_typo() {
    let names = vec!["docker.svg".to_string()];
    assert_eq!(closest_file_name("dokcer.svg", &names).as_deref(), Some("docker.svg"));
}

#[test]
fn missing_file_gets_no_suggestion_when_nothing_is_close() {
    let names = vec!["completely-unrelated-name.png".to_string()];
    assert_eq!(closest_file_name("x.svg", &names), None);
}

#[test]
fn the_first_of_equally_close_names_is_suggested() {
    let names = vec!["ab.svg".to_string(), "ac.svg".to_string(), "aa.svg".to_string()];
    assert_eq!(closest_file_name("ax.svg", &names).as_deref(), Some("ab.svg"));
    assert_eq!(closest_file_name("ax.svg", &Vec::new()), None);
}

#[test]
fn missing_file_message_carries_the_suggestion() {
    assert_eq!(
        missing_file_message("file", "dokcer.svg", Some("docker.svg".to_string())),
        "`file` not found: `dokcer.svg` - did you mean `docker.svg`?"
    );
    assert_eq!(missing_file_message("windows-ico", "a.ico", None), "`windows-ico` not found: `a.ico`");
}

#[test]
fn iconify_notes_tell_malformed_from_uncached() {
    assert!(iconify_note("mdi:home", false).unwrap().contains("isn't cached locally"));
    assert_eq!(iconify_note("mdi:home", true), None);
    assert!(iconify_note("home", true).unwrap().contains("will never resolve"));
}

#[test]
fn file_checks_cover_file_sources_and_windows_icons_of_one_file() {
    let entry = |key: &str, source: IconEntrySource, ico: Option<&str>, file: &str| IconEntry {
        key: key.to_string(),
        family: key.to_string(),
        variant: None,
        size: None,
        source,
        dynamic: false,
        windows_ico: ico.map(str::to_string),
        paint: None,
        span: 3..9,
        file: file.to_string(),
    };
    let manifest = IconManifest {
        manifest_path: "/ws/icons.gui.toml".to_string(),
        workspace_root: "/ws".to_string(),
        source_paths: Vec::new(),
        entries: vec![
            entry("a", IconEntrySource::File("/ws/a.svg".to_string()), Some("/ws/a.ico"), "/ws/icons.gui.toml"),
            entry("b", IconEntrySource::Iconify("mdi:b".to_string()), None, "/ws/icons.gui.toml"),
            entry("c", IconEntrySource::File("/ws/c.svg".to_string()), None, "/ws/other.gui.toml"),
        ],
        providers: Vec::new(),
        default_paint: None,
    };
    let checks = file_checks(&manifest, "/ws/icons.gui.toml");
    let got: Vec<(&str, &str)> = checks.iter().map(|c| (c.field.as_str(), c.target.as_str())).collect();
    assert_eq!(got, vec![("file", "/ws/a.svg"), ("windows-ico", "/ws/a.ico")]);
    assert_eq!(checks[0].span, 3..9);
}

#[test]
fn noise_and_configured_directories_are_skipped() {
    assert!(is_skipped_dir_name("node_modules", &Vec::new()));
    assert!(!is_skipped_dir_name("vendored", &Vec::new()));
    assert!(is_skipped_dir_name("vendored", &vec!["vendored".to_string()]));
    assert!(is_manifest_file_name("icons.gui.toml"));
    assert!(is_manifest_file_name("app.gui.toml"));
    assert!(!is_manifest_file_name("icons.toml"));
}
