use guicons::add_plan::{AddError, AddPlan};
use guicons::manifest_edit::edited_manifest_text;

fn file_plan(family: &str, file: &str) -> AddPlan {
    AddPlan { family: family.to_string(), size: None, field_name: "file".to_string(), items: vec![(None, file.to_string())] }
}

#[test]
fn add_preserves_existing_content_and_formatting() {
    let existing = "# a comment worth keeping\n[defaults]\nroot = \"assets\"\n\n[docker]\nfile = \"docker.svg\"\n";
    let content = edited_manifest_text(existing, &file_plan("logo", "./logo.svg")).unwrap();
    assert!(content.starts_with(existing), "{content}");
    assert!(content.contains("[logo]\nfile = \"./logo.svg\"\n"), "{content}");
}

#[test]
fn add_file_source_creates_a_fresh_manifest() {
    let content = edited_manifest_text("", &file_plan("uniproc-logo", "./logo.svg")).unwrap();
    assert_eq!(content, "[uniproc-logo]\nfile = \"./logo.svg\"\n");
}

#[test]
fn add_overwrites_duplicate_key_with_force() {
    let content = edited_manifest_text("[docker]\nfile = \"docker.svg\"\n", &file_plan("docker", "./other.svg")).unwrap();
    assert_eq!(content, "[docker]\nfile = \"./other.svg\"\n");
}

#[test]
fn edited_text_puts_variants_in_an_inline_table_under_the_sized_group() {
    let plan = AddPlan {
        family: "home".to_string(),
        size: Some(24),
        field_name: "iconify".to_string(),
        items: vec![(Some("filled".to_string()), "fluent:home-24-filled".to_string())],
    };
    let content = edited_manifest_text("", &plan).unwrap();
    assert!(content.contains("filled = { iconify = \"fluent:home-24-filled\" }"), "{content}");
    assert!(content.contains("[home.24.variants]"), "{content}");
}

#[test]
fn edited_text_of_broken_toml_is_an_io_error() {
    match edited_manifest_text("[docker\n", &file_plan("logo", "./logo.svg")) {
        Err(AddError::Io(message)) => assert!(!message.is_empty()),
        other => panic!("{other:?}"),
    }
}
