use project_time_manager::analytics::{analytics_checked, analytics_of, grand_total_checked, TOP_APPS_LIMIT};
use project_time_manager::models::{AppUsageRecord, ProjectRecord, SessionRecord};

fn app(name: &str, kind: &str, enabled: bool, secs: u64) -> AppUsageRecord {
    AppUsageRecord {
        key: name.to_lowercase(),
        name: name.to_string(),
        kind: kind.to_string(),
        enabled,
        time_seconds: secs,
        ..Default::default()
    }
}

fn session(start: &str, secs: u64) -> SessionRecord {
    SessionRecord { started_at: start.to_string(), duration_seconds: secs, ..Default::default() }
}

fn sample() -> Vec<ProjectRecord> {
    vec![
        ProjectRecord {
            id: "p1".to_string(),
            name: "First".to_string(),
            category_id: Some("work".to_string()),
            apps: vec![app("Code", "app", true, 100), app("Chrome", "browser", true, 30), app("Steam", "app", false, 500)],
            sessions: vec![session("2026-01-01T10:00:00+00:00", 60), session("2026-01-02T10:00:00+00:00", 70)],
            ..Default::default()
        },
        ProjectRecord {
            id: "p2".to_string(),
            name: "Second".to_string(),
            apps: vec![app("Chrome", "browser", true, 90), app("Code", "browser", true, 5)],
            sessions: vec![session("2026-01-03T10:00:00+00:00", 10)],
            ..Default::default()
        },
    ]
}

#[test]
fn analytics_totals_each_project() {
    let r = analytics_of(&sample());
    assert_eq!(r.projects.len(), 2);
    assert_eq!(r.projects[0].id, "p1");
    assert_eq!(r.projects[0].name, "First");
    assert_eq!(r.projects[0].category_id, Some("work".to_string()));
    assert_eq!(r.projects[0].total_seconds, 130);
    assert_eq!(r.projects[0].session_count, 2);
    assert_eq!(r.projects[1].category_id, None);
    assert_eq!(r.projects[1].total_seconds, 95);
    assert_eq!(r.projects[1].session_count, 1);
}

#[test]
fn analytics_lists_every_session() {
    let r = analytics_of(&sample());
    let got: Vec<(&str, &str, u64)> =
        r.sessions.iter().map(|s| (s.project_id.as_str(), s.started_at.as_str(), s.duration_seconds)).collect();
    assert_eq!(
        got,
        vec![
            ("p1", "2026-01-01T10:00:00+00:00", 60),
            ("p1", "2026-01-02T10:00:00+00:00", 70),
            ("p2", "2026-01-03T10:00:00+00:00", 10),
        ]
    );
}

#[test]
fn analytics_top_apps_group_by_name_and_kind() {
    let r = analytics_of(&sample());
    let got: Vec<(&str, &str, u64)> = r.top_apps.iter().map(|t| (t.name.as_str(), t.kind.as_str(), t.seconds)).collect();
    assert_eq!(got, vec![("Chrome", "browser", 120), ("Code", "app", 100), ("Code", "browser", 5)]);
}

#[test]
fn analytics_top_apps_keep_twenty() {
    let apps: Vec<AppUsageRecord> = (0..25u64).map(|i| app(&format!("A{i}"), "app", true, i * 10)).collect();
    let r = analytics_of(&vec![ProjectRecord { apps, ..Default::default() }]);
    assert_eq!(r.top_apps.len(), TOP_APPS_LIMIT);
    assert_eq!(r.top_apps[0].name, "A24");
    assert_eq!(r.top_apps[0].seconds, 240);
    assert_eq!(r.top_apps[19].name, "A5");
    assert_eq!(r.top_apps[19].seconds, 50);
}

#[test]
fn analytics_of_nothing_is_empty() {
    let r = analytics_of(&vec![]);
    assert!(r.projects.is_empty() && r.sessions.is_empty() && r.top_apps.is_empty());
}

#[test]
fn analytics_refuses_overflowing_time() {
    let projects = vec![ProjectRecord { apps: vec![app("A", "app", true, u64::MAX), app("B", "app", true, 1)], ..Default::default() }];
    assert_eq!(grand_total_checked(&projects), None);
    assert!(analytics_checked(&projects).is_none());
    assert_eq!(grand_total_checked(&sample()), Some(225));
    assert!(analytics_checked(&sample()).is_some());
}
