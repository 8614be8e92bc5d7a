use project_time_manager::assembly::{assemble_apps, assemble_stage_layout};
use project_time_manager::models::{
    AppUsageRecord, StageAppRecord, StageTabRecord, StageUrlRecord, TabUsageRecord, VisitedUrlRecord,
};

fn stage_app(key: &str) -> StageAppRecord {
    StageAppRecord { app_key: key.to_string(), enabled: true, tabs: Vec::new() }
}

fn stage_tab(key: &str, enabled: bool) -> StageTabRecord {
    StageTabRecord { tab_key: key.to_string(), enabled, urls: Vec::new() }
}

fn stage_url(url: &str) -> StageUrlRecord {
    StageUrlRecord { url: url.to_string(), enabled: false }
}

#[test]
fn stage_rows_go_under_their_first_entries() {
    let apps = vec![stage_app("a"), stage_app("b"), stage_app("a")];
    let tabs = vec![
        ("a".to_string(), stage_tab("t1", true)),
        ("x".to_string(), stage_tab("orphan", true)),
        ("b".to_string(), stage_tab("t2", false)),
    ];
    let urls = vec![
        ("a".to_string(), "t1".to_string(), stage_url("u1")),
        ("a".to_string(), "zz".to_string(), stage_url("lost")),
        ("b".to_string(), "t2".to_string(), stage_url("u2")),
        ("q".to_string(), "t2".to_string(), stage_url("lost")),
    ];
    let r = assemble_stage_layout(apps, tabs, urls);
    assert_eq!(r.len(), 3);
    assert_eq!(r[0].tabs.len(), 1);
    assert_eq!(r[0].tabs[0].tab_key, "t1");
    assert_eq!(r[0].tabs[0].urls.len(), 1);
    assert_eq!(r[0].tabs[0].urls[0].url, "u1");
    assert_eq!(r[1].tabs.len(), 1);
    assert!(!r[1].tabs[0].enabled);
    assert_eq!(r[1].tabs[0].urls[0].url, "u2");
    assert!(r[2].tabs.is_empty());
}

fn app(key: &str) -> AppUsageRecord {
    AppUsageRecord { key: key.to_string(), ..Default::default() }
}

fn tab(key: &str) -> TabUsageRecord {
    TabUsageRecord { key: key.to_string(), ..Default::default() }
}

fn link(url: &str) -> VisitedUrlRecord {
    VisitedUrlRecord { url: url.to_string(), ..Default::default() }
}

#[test]
fn project_rows_go_under_their_records_by_id() {
    let apps = vec![(1, app("chrome.exe")), (2, app("firefox.exe"))];
    let tabs = vec![(1, 10, tab("a")), (2, 11, tab("b")), (1, 12, tab("c")), (9, 13, tab("orphan"))];
    let urls = vec![(11, link("u1")), (10, link("u2")), (10, link("u3")), (99, link("lost"))];
    let r = assemble_apps(apps, tabs, urls);
    assert_eq!(r.len(), 2);
    let keys: Vec<&str> = r[0].tabs.iter().map(|t| t.key.as_str()).collect();
    assert_eq!(keys, vec!["a", "c"]);
    let links: Vec<&str> = r[0].tabs[0].urls.iter().map(|u| u.url.as_str()).collect();
    assert_eq!(links, vec!["u2", "u3"]);
    assert!(r[0].tabs[1].urls.is_empty());
    assert_eq!(r[1].tabs.len(), 1);
    assert_eq!(r[1].tabs[0].urls[0].url, "u1");
}
