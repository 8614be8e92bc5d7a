use project_time_manager::models::{AppUsageRecord, ProjectRecord, SessionRecord, TabUsageRecord};
use project_time_manager::sheets::{workbook_plan, CellStyle, CellValue, ChartKind};

fn project() -> ProjectRecord {
    let mut apps = Vec::new();
    for i in 0..10u64 {
        apps.push(AppUsageRecord {
            key: format!("app{i}.exe"),
            name: format!("App {i}"),
            process_name: format!("app{i}.exe"),
            kind: "app".to_string(),
            enabled: true,
            time_seconds: 100 + i,
            ..Default::default()
        });
    }
    apps.push(AppUsageRecord {
        key: "chrome.exe".to_string(),
        name: "Google Chrome".to_string(),
        kind: "browser".to_string(),
        enabled: true,
        time_seconds: 5,
        tabs: vec![TabUsageRecord {
            key: "docs".to_string(),
            title: "Docs".to_string(),
            url: Some("https://docs.rs".to_string()),
            enabled: true,
            time_seconds: 3600,
            ..Default::default()
        }],
        ..Default::default()
    });
    ProjectRecord {
        id: "p".to_string(),
        name: "Demo".to_string(),
        apps,
        sessions: vec![SessionRecord {
            id: "s".to_string(),
            started_at: "a".to_string(),
            stopped_at: None,
            duration_seconds: 7200,
            app_count: 3,
            browser_count: 4,
            stages: vec![],
        }],
        ..Default::default()
    }
}

fn text(v: &CellValue) -> &str {
    match v {
        CellValue::Text(s) => s.as_str(),
        _ => panic!("not text"),
    }
}

#[test]
fn workbook_has_four_sheets() {
    let sheets = workbook_plan(&project());
    let names: Vec<&str> = sheets.iter().map(|s| s.name.as_str()).collect();
    assert_eq!(names, vec!["Dashboard", "Apps", "BrowserTabs", "Sessions"]);
}

#[test]
fn report_sheet_layout() {
    let sheets = workbook_plan(&project());
    let r = &sheets[0];
    assert_eq!(r.tab_color, Some(0x059669));
    assert_eq!(r.hidden, vec![7, 8]);
    assert_eq!(r.widths.len(), 7);
    assert_eq!(r.merges[0].text, "Отчет по проекту: Demo");
    assert_eq!(r.merges[0].style, CellStyle::Title);
    let total = r.cells.iter().find(|c| c.row == 4 && c.col == 0).unwrap();
    assert_eq!(text(&total.value), "01:17:25");
    let count = r.cells.iter().find(|c| c.row == 4 && c.col == 2).unwrap();
    assert!(matches!(count.value, CellValue::Count(11)));
    let first = r.cells.iter().find(|c| c.row == 8 && c.col == 0).unwrap();
    assert_eq!(text(&first.value), "Google Chrome");
    let share = r.cells.iter().find(|c| c.row == 8 && c.col == 2).unwrap();
    assert!(matches!(share.value, CellValue::Ratio(3600, 4645)));
    assert!(r.cells.iter().all(|c| c.row <= 15));
    assert_eq!(r.charts.len(), 2);
    assert_eq!(r.charts[0].kind, ChartKind::Pie);
    assert_eq!(r.charts[0].categories, "'Dashboard'!$A$9:$A$16");
    assert_eq!(r.charts[0].values, "'Dashboard'!$H$9:$H$16");
    assert_eq!(r.charts[1].kind, ChartKind::Column);
    assert_eq!(r.charts[1].categories, "'Dashboard'!$E$9:$E$9");
}

#[test]
fn list_sheets() {
    let sheets = workbook_plan(&project());
    let apps = &sheets[1];
    assert_eq!(apps.autofilter, Some((0, 0, 11, 4)));
    assert_eq!(apps.cells.len(), 5 + 11 * 5);
    let tabs = &sheets[2];
    let link = tabs.cells.iter().find(|c| c.row == 1 && c.col == 2).unwrap();
    assert!(matches!(&link.value, CellValue::Link(u) if u == "https://docs.rs"));
    let sessions = &sheets[3];
    assert_eq!(sessions.autofilter, Some((0, 0, 1, 5)));
    let stop = sessions.cells.iter().find(|c| c.row == 1 && c.col == 1).unwrap();
    assert_eq!(text(&stop.value), "");
    let hours = sessions.cells.iter().find(|c| c.row == 1 && c.col == 3).unwrap();
    assert!(matches!(hours.value, CellValue::Hours(7200)));
}
