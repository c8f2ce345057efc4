use guicons::fetch_plan::{fetch_jobs, needs_download, FetchOutcome, FetchSummary};
use guicons::iconify_completion::{classify, IconifyContext};
use guicons::model::{IconEntry, IconEntrySource, IconManifest};

fn entry(key: &str, source: IconEntrySource) -> IconEntry {
    IconEntry {
        key: key.to_string(),
        family: key.to_string(),
        variant: None,
        size: None,
        source,
        dynamic: false,
        windows_ico: None,
        paint: None,
        span: 0..1,
        file: "/ws/icons.gui.toml".to_string(),
    }
}

#[test]
fn fetch_considers_iconify_and_url_entries_only() {
    let manifest = IconManifest {
        manifest_path: "/ws/icons.gui.toml".to_string(),
        workspace_root: "/ws".to_string(),
        source_paths: Vec::new(),
        entries: vec![
            entry("a", IconEntrySource::File("/ws/a.svg".to_string())),
            entry("b", IconEntrySource::Iconify("mdi:home".to_string())),
            entry("c", IconEntrySource::Url("abc".to_string())),
            entry("d", IconEntrySource::Glyph("F:U+E001".to_string())),
        ],
        providers: Vec::new(),
        default_paint: None,
    };
    let jobs = fetch_jobs(&manifest, "/ws/.cache/guicons");
    assert_eq!(jobs.len(), 2);
    assert_eq!(jobs[0].label, "mdi:home");
    assert_eq!(jobs[0].url, "https://api.iconify.design/mdi/home.svg");
    assert_eq!(jobs[0].cache_path, "/ws/.cache/guicons/mdi/home.svg");
    assert_eq!(jobs[1].label, "abc");
    assert_eq!(jobs[1].url, "abc");
    assert!(jobs[1].cache_path.starts_with("/ws/.cache/guicons/url/ba7816bf"));
}

#[test]
fn a_fetch_succeeds_when_nothing_failed() {
    let mut summary = FetchSummary { fetched: vec!["a".to_string()], skipped: vec!["b".to_string()], failed: Vec::new() };
    assert!(summary.is_success());
    summary.failed.push(("c".to_string(), "boom".to_string()));
    assert!(!summary.is_success());
}

#[test]
fn before_a_colon_the_provider_is_being_picked() {
    match classify(10..14, "mdi") {
        IconifyContext::Provider { range, typed } => {
            assert_eq!(range, 10..14);
            assert_eq!(typed, "mdi");
        }
        IconifyContext::Name { .. } => panic!("expected a provider"),
    }
}

#[test]
fn after_a_colon_a_name_is_being_picked() {
    match classify(10..18, "mdi:hom") {
        IconifyContext::Name { provider, range, typed } => {
            assert_eq!(provider, "mdi");
            assert_eq!(range, 14..18);
            assert_eq!(typed, "hom");
        }
        IconifyContext::Provider { .. } => panic!("expected a name"),
    }
}

#[test]
fn fetch_summary_records_each_outcome_in_its_list() {
    let mut summary = FetchSummary { fetched: Vec::new(), skipped: Vec::new(), failed: Vec::new() };
    summary.record("mdi:home".to_string(), FetchOutcome::AlreadyCached);
    summary.record("mdi:star".to_string(), FetchOutcome::Downloaded);
    assert!(summary.is_success());
    summary.record("https://x/y.svg".to_string(), FetchOutcome::Failed("offline".to_string()));
    assert_eq!(summary.skipped, vec!["mdi:home"]);
    assert_eq!(summary.fetched, vec!["mdi:star"]);
    assert_eq!(summary.failed, vec![("https://x/y.svg".to_string(), "offline".to_string())]);
    assert!(!summary.is_success());
}

#[test]
fn only_uncached_or_forced_jobs_download() {
    assert!(needs_download(false, false));
    assert!(!needs_download(true, false));
    assert!(needs_download(true, true));
}
