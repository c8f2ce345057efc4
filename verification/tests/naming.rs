use guicons::naming::rust_fn_name;


#[test]
fn converts_dashes_to_snake_case() {
    assert_eq!(rust_fn_name("group-list"), "group_list");
}

#[test]
fn lowercases_mixed_case_segments() {
    assert_eq!(rust_fn_name("Settings"), "settings");
}

#[test]
fn prefixes_a_leading_digit() {
    assert_eq!(rust_fn_name("20"), "icon_20");
}

#[test]
fn escapes_a_reserved_keyword() {
    assert_eq!(rust_fn_name("type"), "r#type");
}

#[test]
fn falls_back_to_icon_for_an_empty_name() {
    assert_eq!(rust_fn_name(""), "icon");
}
