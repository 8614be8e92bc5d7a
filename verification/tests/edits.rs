use project_time_manager::create::{add_stage, create_project, create_stage, new_project, prepare_imported_project};
use project_time_manager::edits::{
    app_time_can_be_set, delete_stage, rename_project_record, rename_stage, reorder_stage, set_app_time,
    set_selected_stages, set_tab_time, tab_time_can_be_set, toggle_app, toggle_stage_app, toggle_tab, toggle_url,
};
use project_time_manager::models::{AppUsageRecord, ProjectRecord, ProjectStageRecord, TabUsageRecord, VisitedUrlRecord};
use project_time_manager::normalize::normalize_project_structure;
use project_time_manager::timing::redistribute;

fn url(u: &str, title: &str, secs: u64) -> VisitedUrlRecord {
    VisitedUrlRecord { url: u.to_string(), title: title.to_string(), enabled: true, time_seconds: secs, ..Default::default() }
}

fn tab(key: &str, secs: u64, urls: Vec<VisitedUrlRecord>) -> TabUsageRecord {
    TabUsageRecord { key: key.to_string(), title: key.to_string(), enabled: true, time_seconds: secs, urls, ..Default::default() }
}

fn browser_project() -> ProjectRecord {
    let mut p = new_project("p1", " Demo ", "t0");
    p.apps = vec![
        AppUsageRecord {
            key: "chrome.exe".to_string(),
            name: "Google Chrome".to_string(),
            kind: "browser".to_string(),
            enabled: true,
            time_seconds: 40,
            tabs: vec![tab("a", 30, vec![url("https://a/1", "", 20), url("", "t", 10)]), tab("b", 10, vec![])],
            ..Default::default()
        },
        AppUsageRecord { key: "code.exe".to_string(), name: "Code".to_string(), kind: "app".to_string(), enabled: true, time_seconds: 7, ..Default::default() },
    ];
    p
}

#[test]
fn new_projects_are_trimmed_and_empty() {
    let p = new_project("p1", "  Demo  ", "now");
    assert_eq!(p.id, "p1");
    assert_eq!(p.name, "Demo");
    assert_eq!(p.created_at, "now");
    assert_eq!(p.updated_at, "now");
    assert!(p.apps.is_empty() && p.sessions.is_empty() && p.stages.is_empty());
    let q = create_project("X", "client", "now");
    assert_eq!(q.id.len(), 36);
    assert_eq!(q.client, "");
}

#[test]
fn normalizing_fills_missing_link_titles() {
    let mut p = browser_project();
    normalize_project_structure(&mut p);
    let urls = &p.apps[0].tabs[0].urls;
    assert_eq!(urls[0].title, "https://a/1");
    assert_eq!(urls[1].url, "t");
}

#[test]
fn excluding_keeps_the_data() {
    let mut p = browser_project();
    assert!(toggle_app(&mut p, "code.exe", false, "t1"));
    assert!(!p.apps[1].enabled);
    assert_eq!(p.apps[1].time_seconds, 7);
    assert_eq!(p.updated_at, "t1");
    assert!(!toggle_app(&mut p, "missing.exe", false, "t2"));
    assert_eq!(p.updated_at, "t1");
    assert!(toggle_tab(&mut p, "chrome.exe", "b", false, "t3"));
    assert!(!p.apps[0].tabs[1].enabled);
    assert_eq!(p.apps[0].tabs[1].time_seconds, 10);
    assert!(toggle_url(&mut p, "chrome.exe", "a", "https://a/1", false, "t4"));
    assert!(!p.apps[0].tabs[0].urls[0].enabled);
    assert!(!toggle_url(&mut p, "chrome.exe", "a", "https://nope", false, "t5"));
}

#[test]
fn redistribution_spreads_time() {
    assert_eq!(redistribute(&vec![0, 0, 0], 10), vec![4, 3, 3]);
    assert_eq!(redistribute(&vec![1, 3], 8), vec![2, 6]);
    assert_eq!(redistribute(&vec![1, 1, 1], 10), vec![3, 3, 4]);
    assert_eq!(redistribute(&vec![], 10), Vec::<u64>::new());
    assert_eq!(redistribute(&vec![1, 1], 3), vec![2, 1]);
}

#[test]
fn redistributed_parts_add_up_to_the_new_time() {
    for (times, seconds) in [
        (vec![0u64, 0, 0, 0], 7u64),
        (vec![0u64], 0u64),
        (vec![5u64, 0, 5], 9u64),
        (vec![2u64, 3, 5], 100u64),
        (vec![1u64, 1, 1, 1, 1, 1], 1u64),
    ] {
        let parts = redistribute(&times, seconds);
        assert_eq!(parts.len(), times.len());
        assert_eq!(parts.iter().sum::<u64>(), seconds);
    }
    assert_eq!(redistribute(&vec![0, 0, 0, 0], 7), vec![2, 2, 2, 1]);
    assert_eq!(redistribute(&vec![2, 3, 5], 100), vec![20, 30, 50]);
}

#[test]
fn setting_a_browser_time_spreads_it_over_sites_and_links() {
    let mut p = browser_project();
    assert!(app_time_can_be_set(&p, "chrome.exe"));
    assert!(set_app_time(&mut p, "chrome.exe", 80, "t1"));
    let app = &p.apps[0];
    assert_eq!(app.time_seconds, 80);
    assert_eq!(app.tabs[0].time_seconds, 60);
    assert_eq!(app.tabs[1].time_seconds, 20);
    assert_eq!(app.tabs[0].urls[0].time_seconds, 40);
    assert_eq!(app.tabs[0].urls[1].time_seconds, 20);
    assert!(!set_app_time(&mut p, "none", 5, "t2"));
}

#[test]
fn setting_a_site_time_updates_the_browser_total() {
    let mut p = browser_project();
    assert!(tab_time_can_be_set(&p, "chrome.exe", "b", 50));
    assert!(set_tab_time(&mut p, "chrome.exe", "b", 50, "t1"));
    assert_eq!(p.apps[0].tabs[1].time_seconds, 50);
    assert_eq!(p.apps[0].time_seconds, 80);
    assert!(!tab_time_can_be_set(&p, "chrome.exe", "b", u64::MAX));
    p.apps[0].tabs[0].urls[0].time_seconds = u64::MAX;
    assert!(!app_time_can_be_set(&p, "chrome.exe"));
}

#[test]
fn renaming_refuses_blank_names() {
    let mut p = browser_project();
    assert_eq!(rename_project_record(&mut p, "   ", "t1"), Err("Название проекта не может быть пустым.".to_string()));
    assert_eq!(p.name, "Demo");
    rename_project_record(&mut p, " New ", "t2").unwrap();
    assert_eq!(p.name, "New");
    assert_eq!(p.updated_at, "t2");
}

#[test]
fn stages_are_created_renamed_selected_moved_and_deleted() {
    let mut p = browser_project();
    add_stage(&mut p, "s1", "Cut", "t1").unwrap();
    add_stage(&mut p, "s2", "Color", "t2").unwrap();
    assert!(create_stage(&mut p, "  ", "t3").is_err());
    create_stage(&mut p, "Sound", "t4").unwrap();
    assert_eq!(p.stages.len(), 3);
    assert_eq!(p.stages[0].order, 0);
    assert_eq!(p.stages[2].order, 2);
    assert_eq!(p.stages[2].id.len(), 36);
    assert_eq!(p.stages[0].apps.len(), 2);
    assert_eq!(rename_stage(&mut p, "s2", " Grade ", "t5"), Ok(true));
    assert_eq!(p.stages[1].name, "Grade");
    assert_eq!(rename_stage(&mut p, "zz", "X", "t5"), Ok(false));
    assert!(rename_stage(&mut p, "s1", " ", "t5").is_err());
    set_selected_stages(&mut p, &vec!["s2".to_string(), "s2".to_string(), "ghost".to_string()], "t6");
    assert_eq!(p.selected_stage_ids, vec!["s2".to_string()]);
    assert!(reorder_stage(&mut p, "s2", -1, "t7"));
    assert_eq!(p.stages[0].id, "s2");
    assert_eq!(p.stages[0].order, 0);
    assert_eq!(p.stages[1].id, "s1");
    assert!(!reorder_stage(&mut p, "s2", -1, "t8"));
    assert!(toggle_stage_app(&mut p, "s1", "code.exe", false, "t9"));
    let stage = p.stages.iter().find(|s| s.id == "s1").unwrap();
    assert!(!stage.apps.iter().find(|a| a.app_key == "code.exe").unwrap().enabled);
    delete_stage(&mut p, "s2", "t10");
    assert_eq!(p.stages.len(), 2);
    assert!(p.selected_stage_ids.is_empty());
    assert_eq!(p.stages[0].order, 0);
}

#[test]
fn imported_projects_get_an_id_and_times() {
    let mut p = ProjectRecord { id: "  ".to_string(), name: "I".to_string(), ..Default::default() };
    prepare_imported_project(&mut p, "now");
    assert_eq!(p.id.len(), 36);
    assert_eq!(p.created_at, "now");
    assert_eq!(p.updated_at, "now");
    let mut q = ProjectRecord { id: "keep".to_string(), created_at: "old".to_string(), ..Default::default() };
    prepare_imported_project(&mut q, "now");
    assert_eq!(q.id, "keep");
    assert_eq!(q.created_at, "old");
}

#[test]
fn moving_a_stage_up_then_down_restores_the_order() {
    let mut p = browser_project();
    add_stage(&mut p, "a", "A", "t1").unwrap();
    add_stage(&mut p, "b", "B", "t2").unwrap();
    add_stage(&mut p, "c", "C", "t3").unwrap();
    let ids = |p: &ProjectRecord| p.stages.iter().map(|s| s.id.clone()).collect::<Vec<_>>();
    let before = ids(&p);
    assert!(reorder_stage(&mut p, "c", -1, "t4"));
    assert_eq!(ids(&p), vec!["a", "c", "b"]);
    assert!(reorder_stage(&mut p, "c", 1, "t5"));
    assert_eq!(ids(&p), before);
    assert!(!reorder_stage(&mut p, "c", 1, "t6"));
    assert!(!reorder_stage(&mut p, "a", 0, "t6"));
}

#[test]
fn blank_stage_names_are_refused_with_their_message() {
    let mut p = browser_project();
    add_stage(&mut p, "a", "A", "t1").unwrap();
    let message = "Название этапа не может быть пустым.".to_string();
    assert_eq!(create_stage(&mut p, " \t ", "t2"), Err(message.clone()));
    assert_eq!(rename_stage(&mut p, "a", "", "t3"), Err(message));
    assert_eq!(p.stages.len(), 1);
    assert_eq!(p.stages[0].name, "A");
}

#[test]
fn stages_mirror_what_the_project_excludes() {
    let mut p = browser_project();
    add_stage(&mut p, "s1", "Cut", "t1").unwrap();
    add_stage(&mut p, "s2", "Color", "t1").unwrap();
    assert!(toggle_app(&mut p, "code.exe", false, "t2"));
    assert!(toggle_tab(&mut p, "chrome.exe", "b", false, "t3"));
    assert!(toggle_url(&mut p, "chrome.exe", "a", "https://a/1", false, "t4"));
    for stage in &p.stages {
        for app in &p.apps {
            let entry = stage.apps.iter().find(|e| e.app_key == app.key).unwrap();
            assert_eq!(entry.enabled, app.enabled);
            for site in &app.tabs {
                let site_entry = entry.tabs.iter().find(|e| e.tab_key == site.key).unwrap();
                assert_eq!(site_entry.enabled, site.enabled);
                for link in &site.urls {
                    let link_entry = site_entry.urls.iter().find(|e| e.url == link.url).unwrap();
                    assert_eq!(link_entry.enabled, link.enabled);
                }
            }
        }
    }
    assert!(!p.stages[0].apps.iter().find(|e| e.app_key == "code.exe").unwrap().enabled);
}

#[test]
fn sites_with_one_key_twice_leave_a_link_out_of_the_stage() {
    let link = VisitedUrlRecord { url: "https://a.example/".to_string(), title: "A".to_string(), enabled: true, ..Default::default() };
    let mut p = ProjectRecord {
        apps: vec![AppUsageRecord {
            key: "chrome.exe".to_string(),
            enabled: true,
            tabs: vec![
                TabUsageRecord { key: "a.example".to_string(), enabled: true, urls: vec![link], ..Default::default() },
                TabUsageRecord { key: "a.example".to_string(), enabled: true, urls: vec![], ..Default::default() },
            ],
            ..Default::default()
        }],
        stages: vec![ProjectStageRecord { id: "s".to_string(), ..Default::default() }],
        ..Default::default()
    };
    normalize_project_structure(&mut p);
    let entry = &p.stages[0].apps[0];
    assert_eq!(entry.app_key, "chrome.exe");
    assert_eq!(entry.tabs.len(), 1);
    assert_eq!(entry.tabs[0].tab_key, "a.example");
    assert!(entry.tabs[0].urls.is_empty());
    assert_eq!(p.apps[0].tabs[0].urls.len(), 1);
    let before = format!("{:?}", p);
    normalize_project_structure(&mut p);
    assert_eq!(format!("{:?}", p), before);
}

#[test]
fn new_ids_are_hyphenated_lower_case_uuids() {
    let p = create_project("Name", "", "now");
    assert_eq!(p.id.len(), 36);
    for (i, c) in p.id.chars().enumerate() {
        if i == 8 || i == 13 || i == 18 || i == 23 {
            assert_eq!(c, '-');
        } else {
            assert!(c.is_ascii_digit() || ('a'..='f').contains(&c));
        }
    }
}
