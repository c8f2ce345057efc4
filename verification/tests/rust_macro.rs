use guicons::rust_macro::{all_macro_calls, macro_call_at, MacroKind};


#[test]
fn finds_a_dotted_path_call() {
    let text = "fn f() { let x = icon!(docker.filled); }";
    let offset = text.find("docker.filled").unwrap();
    let site = macro_call_at(text, offset).expect("a call site");
    assert_eq!(site.kind, MacroKind::Icon);
    assert_eq!(site.arg_text, "docker.filled");
}

#[test]
fn finds_a_string_literal_call() {
    let text = "let x = icon_key!(\"set:name\");";
    let offset = text.find("set:name").unwrap();
    let site = macro_call_at(text, offset).expect("a call site");
    assert_eq!(site.kind, MacroKind::IconKey);
    assert_eq!(site.arg_text, "\"set:name\"");
}

#[test]
fn finds_icon_data_with_a_trailing_module_clause() {
    let text = "let x = icon_data!(docker.filled, module = icons2);";
    let offset = text.find("docker.filled").unwrap();
    let site = macro_call_at(text, offset).expect("a call site");
    assert_eq!(site.kind, MacroKind::IconData);
    assert_eq!(site.arg_text, "docker.filled, module = icons2");
}

/// The key claim: a syntax error *elsewhere* in the file - completely
/// unrelated to the macro call - doesn't prevent finding it. A `syn`-
/// based full parse would fail outright here.
#[test]
fn finds_a_call_despite_broken_surrounding_code() {
    let text = "fn broken( {\n    icon!(docker.filled)\n}\nfn also_broken syntax error here {}";
    let offset = text.find("docker.filled").unwrap();
    let site = macro_call_at(text, offset).expect("a call site");
    assert_eq!(site.arg_text, "docker.filled");
}

/// A call site that's itself mid-edit (no closing paren yet, the
/// moment-to-moment state while a user is typing) must not panic, and
/// correctly reports no match rather than a bogus partial one.
#[test]
fn a_call_missing_its_closing_delimiter_is_not_found() {
    let text = "fn f() {\n    icon!(docker.\n}\n";
    let offset = text.find("docker.").unwrap();
    assert_eq!(macro_call_at(text, offset), None);
    // Also must not panic when scanning the whole file for it.
    assert!(all_macro_calls(text).is_empty());
}

#[test]
fn a_call_named_after_a_different_macro_is_ignored() {
    let text = "let x = println!(\"not an icon\");";
    let offset = text.find("not an icon").unwrap();
    assert_eq!(macro_call_at(text, offset), None);
}

/// The property that actually distinguishes this from a "regex in
/// disguise" like I18n Ally's config-driven text match: `icon!(...)`
/// appearing inside a string literal or a comment must never count as
/// a real call, because the scanner tracks lexical state rather than
/// searching the raw text.
#[test]
fn a_call_shaped_string_inside_a_string_literal_is_ignored() {
    let text = "let s = \"icon!(docker.filled)\";";
    assert!(all_macro_calls(text).is_empty());
}

#[test]
fn a_call_shaped_comment_is_ignored() {
    let text = "// icon!(docker.filled)\nfn f() {}";
    assert!(all_macro_calls(text).is_empty());
}

#[test]
fn a_call_shaped_block_comment_is_ignored() {
    let text = "/* icon!(docker.filled) */\nfn f() {}";
    assert!(all_macro_calls(text).is_empty());
}

/// A real call sitting right after a nested block comment must still
/// be found - proves the nesting-depth tracking in
/// `skip_block_comment` doesn't end the comment early at the first
/// `*/`, which would otherwise misinterpret the rest of the comment's
/// text as real code.
#[test]
fn a_nested_block_comment_does_not_cause_a_false_match_or_hide_a_real_call() {
    let text = "/* outer /* inner icon!(fake.one) */ still comment */ icon!(docker.filled)";
    let sites = all_macro_calls(text);
    assert_eq!(sites.len(), 1, "{sites:?}");
    assert_eq!(sites[0].arg_text, "docker.filled");
}

#[test]
fn finds_multiple_calls_in_one_file() {
    let text = "icon!(a.one); icon_key!(b.two); icon_data!(c.three);";
    let sites = all_macro_calls(text);
    assert_eq!(sites.len(), 3);
    assert_eq!(sites[0].kind, MacroKind::Icon);
    assert_eq!(sites[1].kind, MacroKind::IconKey);
    assert_eq!(sites[2].kind, MacroKind::IconData);
}

#[test]
fn cursor_exactly_at_the_argument_boundaries_still_matches() {
    let text = "icon!(a.one)";
    let start = text.find("a.one").unwrap();
    let end = start + "a.one".len();
    assert!(macro_call_at(text, start).is_some());
    assert!(macro_call_at(text, end).is_some());
    assert!(macro_call_at(text, start - 1).is_none());
    assert!(macro_call_at(text, end + 1).is_none());
}

#[test]
fn a_non_ascii_comment_does_not_confuse_the_byte_scanner() {
    let text = "// non-ascii comment about icon!(fake.one)\nicon!(docker.filled)";
    let sites = all_macro_calls(text);
    assert_eq!(sites.len(), 1, "{sites:?}");
    assert_eq!(sites[0].arg_text, "docker.filled");
}
