use guicons::iconify_api::{collection_names, search_results};

#[test]
fn collection_names_flattens_uncategorized_then_categories() {
    let text = r#"{"prefix":"mdi","uncategorized":["home","star"],"categories":{"Arrows":["arrow-left",3,"arrow-right"],"Zoo":["cat"]},"total":6}"#;
    let names = collection_names(text).unwrap();
    assert_eq!(names, vec!["home", "star", "arrow-left", "arrow-right", "cat"]);
}

#[test]
fn collection_names_without_lists_is_empty() {
    assert_eq!(collection_names(r#"{"prefix":"mdi"}"#), Some(Vec::new()));
    assert_eq!(collection_names("[1, 2]"), Some(Vec::new()));
}

#[test]
fn collection_names_of_broken_json_is_none() {
    assert_eq!(collection_names("{\"uncategorized\": ["), None);
}

#[test]
fn search_results_lists_icon_ids() {
    let ids = search_results("home", r#"{"icons":["mdi:home","lucide:house"],"total":2,"limit":64}"#).unwrap();
    assert_eq!(ids, vec!["mdi:home", "lucide:house"]);
    assert_eq!(search_results("x", r#"{"total":0}"#).unwrap(), Vec::<String>::new());
}

#[test]
fn search_results_reports_an_unreadable_response() {
    let err = search_results("home", "not json").unwrap_err();
    assert!(err.0.starts_with("Failed to parse search response for `home`: "));
}
