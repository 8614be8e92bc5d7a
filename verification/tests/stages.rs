use project_time_manager::printable::build_report_html;
use project_time_manager::models::{ProjectRecord, ProjectStageRecord, SessionRecord, SessionStageSnapshot};
use project_time_manager::stages::{included_stages_checked, stage_pages, stage_segments, timeline_pages, IncludedStage};
use project_time_manager::timeline::{project_session_windows, session_ends_computable};

fn snap(id: &str, name: &str) -> SessionStageSnapshot {
    SessionStageSnapshot { id: id.to_string(), name: name.to_string() }
}

fn session(id: &str, start: &str, stop: Option<&str>, secs: u64, stages: Vec<SessionStageSnapshot>) -> SessionRecord {
    SessionRecord {
        id: id.to_string(),
        started_at: start.to_string(),
        stopped_at: stop.map(|s| s.to_string()),
        duration_seconds: secs,
        app_count: 1,
        browser_count: 0,
        stages,
    }
}

fn project() -> ProjectRecord {
    ProjectRecord {
        name: "Demo".to_string(),
        created_at: "2026-06-11T20:00:00+00:00".to_string(),
        sessions: vec![
            session("s2", "2026-06-11T21:00:00+00:00", None, 600, vec![snap("stage-1", "Old name")]),
            session("s1", "2026-06-11T20:00:00+00:00", Some("2026-06-11T20:10:00+00:00"), 600, vec![snap("stage-1", "Stage One")]),
            session("s3", "2026-06-11T22:00:00+00:00", Some("2026-06-11T22:30:00+00:00"), 1800, vec![snap("ghost", "Gone")]),
            session("bad", "yesterday", None, 60, vec![snap("stage-1", "x")]),
            session("empty", "2026-06-11T23:00:00+00:00", Some("2026-06-11T23:10:00+00:00"), 0, vec![snap("stage-1", "x")]),
        ],
        stages: vec![ProjectStageRecord {
            id: "stage-1".to_string(),
            name: "Stage One".to_string(),
            order: 0,
            created_at: "2026-06-11T19:59:00+00:00".to_string(),
            updated_at: "2026-06-11T20:00:00+00:00".to_string(),
            ..ProjectStageRecord::default()
        }],
        ..Default::default()
    }
}

#[test]
fn windows_are_readable_sessions_in_order() {
    let p = project();
    assert!(session_ends_computable(&p));
    let ws = project_session_windows(&p);
    let starts: Vec<&str> = ws.iter().map(|w| w.started_at.as_str()).collect();
    assert_eq!(
        starts,
        vec!["2026-06-11T20:00:00+00:00", "2026-06-11T21:00:00+00:00", "2026-06-11T22:00:00+00:00"]
    );
    assert_eq!(ws[1].stopped_at, "2026-06-11T21:10:00+00:00");
    let segs = stage_segments(&ws, &"stage-1".to_string());
    assert_eq!(segs.len(), 1);
    let ghost = stage_segments(&ws, &"ghost".to_string());
    assert_eq!(ghost.len(), 1);
    assert!(stage_segments(&ws, &"none".to_string()).is_empty());
}

#[test]
fn stages_of_the_report() {
    let p = project();
    let stages = included_stages_checked(&p).unwrap();
    assert_eq!(stages.len(), 2);
    assert_eq!(stages[0].id, "stage-1");
    assert_eq!(stages[0].name, "Stage One");
    assert_eq!(stages[0].order, 0);
    assert_eq!(stages[0].seconds, 1200);
    assert_eq!(stages[0].session_count, 2);
    assert_eq!(stages[0].first_used_at, "2026-06-11T20:00:00+00:00");
    assert_eq!(stages[0].last_used_at, "2026-06-11T21:10:00+00:00");
    assert_eq!(stages[0].segments.len(), 1);
    assert_eq!(stages[1].id, "ghost");
    assert_eq!(stages[1].name, "Gone");
    assert_eq!(stages[1].order, usize::MAX);
    let pages = stage_pages(&stages);
    assert_eq!(pages.len(), 1);
    assert!(pages[0].contains("<h1 class=\"page-title\">Этапы</h1>"));
    assert!(pages[0].contains("<td><div class=\"truncate\">00:20:00</div></td>"));
    assert!(stage_pages(&vec![]).is_empty());
}

#[test]
fn stages_are_listed_once_by_number_then_name() {
    let p = ProjectRecord {
        sessions: vec![
            session("s1", "2026-01-01T10:00:00+00:00", None, 60, vec![snap("z", "Zeta"), snap("a", "Alpha")]),
            session("s2", "2026-01-01T11:00:00+00:00", None, 90, vec![snap("a", "Alpha"), snap("z", "Zeta")]),
        ],
        ..Default::default()
    };
    let stages = included_stages_checked(&p).unwrap();
    let names: Vec<&str> = stages.iter().map(|s| s.name.as_str()).collect();
    assert_eq!(names, vec!["Alpha", "Zeta"]);
    assert_eq!(stages[0].session_count, 2);
    assert_eq!(stages[0].seconds, 150);
    assert_eq!(stages[1].seconds, 150);
    assert_eq!(stages[0].segments.len(), 1);
}

fn plain_stage(name: &str, sessions: usize, seconds: u64) -> IncludedStage {
    IncludedStage {
        id: name.to_string(),
        name: name.to_string(),
        order: 0,
        seconds,
        session_count: sessions,
        first_used_at: String::new(),
        last_used_at: String::new(),
        segments: Vec::new(),
    }
}

#[test]
fn timeline_pages_hold_eight_stages_each() {
    let stages = included_stages_checked(&project()).unwrap();
    let blocks = vec!["<i>1</i>".to_string(), "<i>2</i>".to_string()];
    let pages = timeline_pages(&stages, &blocks, "11.06.2026 20:00", "11.06.2026 22:30", "AXIS");
    assert_eq!(pages.len(), 1);
    assert_eq!(
        pages[0],
        "<section class=\"page\"><h1 class=\"page-title\">Таймлайн этапов</h1>\
<p class=\"timeline-meta\">Границы таймлайна: 11.06.2026 20:00 -> 11.06.2026 22:30.</p>AXIS\
<div class=\"timeline-row\"><div class=\"timeline-name\">Stage One<span class=\"timeline-summary\">2 • 00:20:00</span></div>\
<div class=\"timeline-track\"><i>1</i></div></div>\
<div class=\"timeline-row\"><div class=\"timeline-name\">Gone<span class=\"timeline-summary\">1 • 00:30:00</span></div>\
<div class=\"timeline-track\"><i>2</i></div></div></section>"
    );

    let many: Vec<IncludedStage> = (0..9).map(|k| plain_stage(&format!("S<{k}>"), 1, 60)).collect();
    let blocks: Vec<String> = (0..9).map(|_| String::new()).collect();
    let pages = timeline_pages(&many, &blocks, "a", "b", "");
    assert_eq!(pages.len(), 2);
    assert_eq!(pages[0].matches("timeline-row").count(), 8);
    assert!(pages[1].contains("Таймлайн этапов продолжение"));
    assert!(pages[1].contains("S&lt;8&gt;"));
    assert!(timeline_pages(&vec![], &vec![], "a", "b", "").is_empty());
}

#[test]
fn timeline_html_is_valid_for_pdf_generation() {
    let mut project = ProjectRecord {
        name: "Demo".to_string(),
        created_at: "2026-06-11T20:00:00+00:00".to_string(),
        sessions: vec![session(
            "session-1",
            "2026-06-11T20:00:00+00:00",
            Some("2026-06-11T20:10:00+00:00"),
            600,
            vec![snap("stage-1", "Stage One")],
        )],
        stages: vec![ProjectStageRecord {
            id: "stage-1".to_string(),
            name: "Stage One".to_string(),
            order: 0,
            created_at: "2026-06-11T19:59:00+00:00".to_string(),
            updated_at: "2026-06-11T20:00:00+00:00".to_string(),
            ..ProjectStageRecord::default()
        }],
        ..ProjectRecord::default()
    };
    project.sessions[0].browser_count = 1;
    let stages = included_stages_checked(&project).unwrap();
    let blocks = vec![r#"<div class="timeline-block" style="left:0.00%;width:100.00%"></div>"#.to_string()];
    let timeline = timeline_pages(&stages, &blocks, "11.06.2026 20:00", "11.06.2026 20:10", r#"<div class="timeline-axis"></div>"#);
    let html = build_report_html(&project, &vec![], &vec![], &stages, 0, &vec![], &vec![], timeline);
    assert!(!html.contains("\\\"timeline-"));
    assert!(html.contains("class=\"timeline-block\""));
    assert!(html.contains("Таймлайн этапов"));
}
