use project_time_manager::migration::{migration_report, migration_report_checked, MigrationReport};
use project_time_manager::models::{
    AppUsageRecord, ProjectRecord, ProjectStageRecord, SessionRecord, TabUsageRecord, VisitedUrlRecord,
};

#[test]
fn moving_counts_everything() {
    let p1 = ProjectRecord {
        id: "a".to_string(),
        sessions: vec![
            SessionRecord { duration_seconds: 100, ..Default::default() },
            SessionRecord { duration_seconds: 50, ..Default::default() },
        ],
        apps: vec![
            AppUsageRecord {
                tabs: vec![
                    TabUsageRecord { urls: vec![VisitedUrlRecord::default(), VisitedUrlRecord::default()], ..Default::default() },
                    TabUsageRecord::default(),
                ],
                ..Default::default()
            },
            AppUsageRecord::default(),
        ],
        stages: vec![ProjectStageRecord::default()],
        ..Default::default()
    };
    let p2 = ProjectRecord { id: "b".to_string(), sessions: vec![SessionRecord { duration_seconds: 7, ..Default::default() }], ..Default::default() };
    let r = migration_report(&vec![p1, p2]);
    assert_eq!(
        r,
        MigrationReport { projects: 2, sessions: 3, apps: 2, tabs: 2, urls: 2, stages: 1, total_duration_seconds: 157 }
    );
    assert_eq!(migration_report(&vec![]), MigrationReport::default());
}

#[test]
fn checked_count_refuses_overflowing_time() {
    let p = ProjectRecord {
        sessions: vec![
            SessionRecord { duration_seconds: u64::MAX, ..Default::default() },
            SessionRecord { duration_seconds: 1, ..Default::default() },
        ],
        ..Default::default()
    };
    assert_eq!(migration_report_checked(&vec![p]), None);
    let q = ProjectRecord {
        sessions: vec![SessionRecord { duration_seconds: 5, ..Default::default() }],
        apps: vec![AppUsageRecord { tabs: vec![TabUsageRecord { urls: vec![VisitedUrlRecord::default()], ..Default::default() }], ..Default::default() }],
        ..Default::default()
    };
    let expected = migration_report(&vec![ProjectRecord {
        sessions: vec![SessionRecord { duration_seconds: 5, ..Default::default() }],
        apps: vec![AppUsageRecord { tabs: vec![TabUsageRecord { urls: vec![VisitedUrlRecord::default()], ..Default::default() }], ..Default::default() }],
        ..Default::default()
    }]);
    assert_eq!(migration_report_checked(&vec![q]), Some(expected));
    assert_eq!(expected.urls, 1);
    assert_eq!(expected.total_duration_seconds, 5);
}
