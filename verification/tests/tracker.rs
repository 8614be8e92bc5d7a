use project_time_manager::models::{ProjectRecord, ProjectStageRecord, WindowObservation};
use project_time_manager::store::{StoreData, WorkspaceIndex};
use project_time_manager::tracker::{
    app_payload, apply_sample_at, ensure_tracker_stopped, finalize_session_at, new_tracker,
    pause_tracking, selected_stage_snapshots, should_sample, start_tracking, start_tracking_at,
    stop_tracking, stop_tracking_at, tracker_payload, TrackerStatus,
};

fn project(id: &str, name: &str) -> ProjectRecord {
    ProjectRecord {
        id: id.to_string(),
        name: name.to_string(),
        created_at: "2024-01-01T00:00:00+00:00".to_string(),
        updated_at: "2024-01-01T00:00:00+00:00".to_string(),
        ..Default::default()
    }
}

fn store_with(projects: Vec<ProjectRecord>, selected: Option<&str>) -> StoreData {
    let mut store = StoreData::default();
    store.projects = projects;
    store.workspace = WorkspaceIndex {
        selected_project_id: selected.map(|s| s.to_string()),
        autostart: false,
        language: "ru".to_string(),
    };
    store
}

fn app_observation(process: &str) -> WindowObservation {
    WindowObservation {
        process_name: process.to_string(),
        process_path: format!("C:\\Apps\\{process}"),
        window_title: "Document".to_string(),
        ..Default::default()
    }
}

fn browser_observation() -> WindowObservation {
    WindowObservation {
        process_name: "chrome.exe".to_string(),
        process_path: "C:\\Chrome\\chrome.exe".to_string(),
        window_title: "Docs - Google Chrome".to_string(),
        browser_name: Some("Google Chrome".to_string()),
        tab_title: Some("Docs".to_string()),
        url: Some("https://docs.rs/serde".to_string()),
        ..Default::default()
    }
}

#[test]
fn new_tracker_is_stopped_for_the_selected_project() {
    let t = new_tracker(Some("p1".to_string()));
    assert_eq!(t.status, TrackerStatus::Stopped);
    assert_eq!(t.active_project_id.as_deref(), Some("p1"));
    assert!(t.running_since.is_none());
    assert!(t.draft.is_none());
    assert!(!should_sample(&t));
}

#[test]
fn start_without_selection_fails() {
    let store = store_with(vec![project("p1", "A")], None);
    let mut t = new_tracker(None);
    let res = start_tracking_at(&mut t, &store, "2024-05-01T10:00:00+00:00");
    assert_eq!(res, Err("No project selected".to_string()));
    assert_eq!(t.status, TrackerStatus::Stopped);
}

#[test]
fn start_with_unknown_project_fails() {
    let store = store_with(vec![project("p1", "A")], Some("zzz"));
    let mut t = new_tracker(None);
    let res = start_tracking_at(&mut t, &store, "2024-05-01T10:00:00+00:00");
    assert_eq!(res, Err("Project not found".to_string()));
    assert!(t.draft.is_none());
}

#[test]
fn start_creates_a_draft_with_the_selected_stages() {
    let mut p = project("p1", "A");
    p.stages = vec![
        ProjectStageRecord { id: "s1".to_string(), name: "Cut".to_string(), order: 0, ..Default::default() },
        ProjectStageRecord { id: "s2".to_string(), name: "Color".to_string(), order: 1, ..Default::default() },
    ];
    p.selected_stage_ids = vec!["s2".to_string()];
    let snaps = selected_stage_snapshots(&p);
    assert_eq!(snaps.len(), 1);
    assert_eq!(snaps[0].id, "s2");
    assert_eq!(snaps[0].name, "Color");
    let store = store_with(vec![p], Some("p1"));
    let mut t = new_tracker(None);
    start_tracking_at(&mut t, &store, "2024-05-01T10:00:00+00:00").unwrap();
    assert_eq!(t.status, TrackerStatus::Running);
    assert!(should_sample(&t));
    assert_eq!(t.active_project_id.as_deref(), Some("p1"));
    assert_eq!(t.running_since.as_deref(), Some("2024-05-01T10:00:00+00:00"));
    let d = t.draft.as_ref().unwrap();
    assert_eq!(d.started_at, "2024-05-01T10:00:00+00:00");
    assert_eq!(d.duration_seconds, 0);
    assert_eq!(d.stages.len(), 1);
    assert_eq!(d.stages[0].id, "s2");
}

#[test]
fn start_when_running_changes_nothing() {
    let store = store_with(vec![project("p1", "A")], Some("p1"));
    let mut t = new_tracker(None);
    start_tracking_at(&mut t, &store, "2024-05-01T10:00:00+00:00").unwrap();
    start_tracking_at(&mut t, &store, "2024-05-01T11:00:00+00:00").unwrap();
    assert_eq!(t.running_since.as_deref(), Some("2024-05-01T10:00:00+00:00"));
    assert_eq!(t.draft.as_ref().unwrap().started_at, "2024-05-01T10:00:00+00:00");
}

#[test]
fn pause_and_resume_keep_the_draft() {
    let mut store = store_with(vec![project("p1", "A")], Some("p1"));
    let mut t = new_tracker(None);
    start_tracking_at(&mut t, &store, "2024-05-01T10:00:00+00:00").unwrap();
    apply_sample_at(&mut store, &mut t, &app_observation("code.exe"), "2024-05-01T10:00:01+00:00").unwrap();
    pause_tracking(&mut t);
    assert_eq!(t.status, TrackerStatus::Paused);
    assert!(!should_sample(&t));
    assert_eq!(ensure_tracker_stopped(&t), Err("Изменять этапы можно только при остановленной записи.".to_string()));
    start_tracking_at(&mut t, &store, "2024-05-01T12:00:00+00:00").unwrap();
    assert_eq!(t.status, TrackerStatus::Running);
    assert_eq!(t.running_since.as_deref(), Some("2024-05-01T10:00:00+00:00"));
    let d = t.draft.as_ref().unwrap();
    assert_eq!(d.duration_seconds, 1);
    assert_eq!(d.started_at, "2024-05-01T10:00:00+00:00");
}

#[test]
fn samples_count_seconds_and_hits() {
    let mut store = store_with(vec![project("p0", "Other"), project("p1", "A")], Some("p1"));
    let mut t = new_tracker(None);
    start_tracking_at(&mut t, &store, "2024-05-01T10:00:00+00:00").unwrap();
    let i = apply_sample_at(&mut store, &mut t, &app_observation("code.exe"), "2024-05-01T10:00:01+00:00").unwrap();
    assert_eq!(i, 1);
    apply_sample_at(&mut store, &mut t, &app_observation("code.exe"), "2024-05-01T10:00:02+00:00").unwrap();
    apply_sample_at(&mut store, &mut t, &browser_observation(), "2024-05-01T10:00:03+00:00").unwrap();
    let d = t.draft.as_ref().unwrap();
    assert_eq!(d.duration_seconds, 3);
    assert_eq!(d.app_hits, 2);
    assert_eq!(d.browser_hits, 1);
    assert_eq!(d.duration_seconds, d.app_hits + d.browser_hits);
    let p = &store.projects[1];
    assert_eq!(p.updated_at, "2024-05-01T10:00:03+00:00");
    assert_eq!(p.apps.len(), 2);
    assert_eq!(p.apps[0].key, "code.exe");
    assert_eq!(p.apps[0].time_seconds, 2);
    assert_eq!(p.apps[1].key, "chrome.exe");
    assert_eq!(p.apps[1].time_seconds, 1);
    assert_eq!(p.apps[1].tabs.len(), 1);
    assert_eq!(p.apps[1].tabs[0].time_seconds, 1);
    assert!(store.projects[0].apps.is_empty());
}

#[test]
fn sample_without_active_project_fails() {
    let mut store = store_with(vec![project("p1", "A")], Some("p1"));
    let mut t = new_tracker(None);
    let res = apply_sample_at(&mut store, &mut t, &app_observation("code.exe"), "now");
    assert_eq!(res, Err("No active project".to_string()));
    let mut t2 = new_tracker(Some("missing".to_string()));
    let res2 = apply_sample_at(&mut store, &mut t2, &app_observation("code.exe"), "now");
    assert_eq!(res2, Err("Project not found".to_string()));
    assert!(store.projects[0].apps.is_empty());
}

#[test]
fn stop_records_one_session() {
    let mut store = store_with(vec![project("p1", "A")], Some("p1"));
    let mut t = new_tracker(None);
    start_tracking_at(&mut t, &store, "2024-05-01T10:00:00+00:00").unwrap();
    apply_sample_at(&mut store, &mut t, &app_observation("code.exe"), "2024-05-01T10:00:01+00:00").unwrap();
    apply_sample_at(&mut store, &mut t, &browser_observation(), "2024-05-01T10:00:02+00:00").unwrap();
    let changed = stop_tracking_at(&mut t, &mut store, "session-1", "2024-05-01T10:05:00+00:00");
    assert_eq!(changed, Some(0));
    assert_eq!(t.status, TrackerStatus::Stopped);
    assert!(t.active_project_id.is_none());
    assert!(t.running_since.is_none());
    assert!(t.draft.is_none());
    assert_eq!(ensure_tracker_stopped(&t), Ok(()));
    let p = &store.projects[0];
    assert_eq!(p.sessions.len(), 1);
    let s = &p.sessions[0];
    assert_eq!(s.id, "session-1");
    assert_eq!(s.started_at, "2024-05-01T10:00:00+00:00");
    assert_eq!(s.stopped_at.as_deref(), Some("2024-05-01T10:05:00+00:00"));
    assert_eq!(s.duration_seconds, 2);
    assert_eq!(s.app_count, 1);
    assert_eq!(s.browser_count, 1);
    assert_eq!(p.updated_at, "2024-05-01T10:05:00+00:00");
}

#[test]
fn finalize_without_draft_changes_nothing() {
    let mut store = store_with(vec![project("p1", "A")], Some("p1"));
    let mut t = new_tracker(Some("p1".to_string()));
    assert_eq!(finalize_session_at(&mut t, &mut store, "x", "now"), None);
    assert!(store.projects[0].sessions.is_empty());
}

#[test]
fn stop_with_the_clock_gives_a_random_session_id() {
    let mut store = store_with(vec![project("p1", "A")], Some("p1"));
    let mut t = new_tracker(None);
    start_tracking(&mut t, &store).unwrap();
    assert!(t.running_since.as_ref().unwrap().contains('T'));
    let changed = stop_tracking(&mut t, &mut store);
    assert_eq!(changed, Some(0));
    let s = &store.projects[0].sessions[0];
    assert_eq!(s.id.len(), 36);
    assert!(s.stopped_at.as_ref().unwrap().contains('T'));
}

#[test]
fn payload_shows_the_tracker_and_the_selection() {
    let store = store_with(vec![project("p1", "A"), project("p2", "B")], Some("p2"));
    let mut t = new_tracker(None);
    start_tracking_at(&mut t, &store, "2024-05-01T10:00:00+00:00").unwrap();
    let tp = tracker_payload(&t);
    assert_eq!(tp.status, "running");
    assert_eq!(tp.active_project_id.as_deref(), Some("p2"));
    let payload = app_payload(&store, &t);
    assert_eq!(payload.tracker.status, "running");
    assert_eq!(payload.projects.len(), 2);
    assert_eq!(payload.projects[1].name, "B");
    assert_eq!(payload.selected_project.as_ref().unwrap().id, "p2");
    assert_eq!(payload.settings.language, "ru");
    assert!(!payload.settings.autostart);
}
