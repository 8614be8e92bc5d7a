use project_time_manager::format::{app_kind_label, decimal_string, escape_html, format_duration};
use project_time_manager::html::{
    app_pages, empty_html, info_tile, metric_card, overview_page, page, session_pages, simple_table, tab_pages,
};
use project_time_manager::models::{AppUsageRecord, ProjectRecord, SessionRecord, TabUsageRecord, VisitedUrlRecord};
use project_time_manager::printable::build_report_html;
use project_time_manager::report::{
    included_app_seconds, included_apps, included_tab_seconds, included_tabs, included_total, report_totals_fit,
    TimeBasis,
};

fn url(u: &str, enabled: bool, secs: u64) -> VisitedUrlRecord {
    VisitedUrlRecord { url: u.to_string(), title: u.to_string(), enabled, time_seconds: secs, ..Default::default() }
}

fn tab(key: &str, enabled: bool, secs: u64, urls: Vec<VisitedUrlRecord>) -> TabUsageRecord {
    TabUsageRecord { key: key.to_string(), title: key.to_string(), enabled, time_seconds: secs, urls, ..Default::default() }
}

fn sample_project() -> ProjectRecord {
    ProjectRecord {
        id: "p".to_string(),
        name: "Demo <1>".to_string(),
        created_at: "2024-01-01T00:00:00+00:00".to_string(),
        apps: vec![
            AppUsageRecord {
                key: "code.exe".to_string(),
                name: "Visual Studio Code".to_string(),
                process_name: "code.exe".to_string(),
                kind: "app".to_string(),
                enabled: true,
                time_seconds: 120,
                ..Default::default()
            },
            AppUsageRecord {
                key: "chrome.exe".to_string(),
                name: "Google Chrome".to_string(),
                process_name: "chrome.exe".to_string(),
                kind: "browser".to_string(),
                enabled: true,
                time_seconds: 999,
                tabs: vec![
                    tab("docs.rs", true, 300, vec![url("https://docs.rs/a", true, 100), url("https://docs.rs/b", false, 50)]),
                    tab("news", false, 500, vec![]),
                    tab("mail", true, 40, vec![]),
                ],
                ..Default::default()
            },
            AppUsageRecord {
                key: "game.exe".to_string(),
                name: "Game".to_string(),
                kind: "app".to_string(),
                enabled: false,
                time_seconds: 5000,
                ..Default::default()
            },
        ],
        sessions: vec![SessionRecord {
            id: "s1".to_string(),
            started_at: "2024-05-01T10:00:00+00:00".to_string(),
            stopped_at: Some("2024-05-01T10:10:00+00:00".to_string()),
            duration_seconds: 600,
            app_count: 400,
            browser_count: 200,
            stages: vec![],
        }],
        ..Default::default()
    }
}

#[test]
fn durations_are_written_as_clocks() {
    assert_eq!(format_duration(0), "00:00:00");
    assert_eq!(format_duration(59), "00:00:59");
    assert_eq!(format_duration(3661), "01:01:01");
    assert_eq!(format_duration(86_399), "23:59:59");
    assert_eq!(format_duration(90_061), "1 д 01:01:01");
    assert_eq!(format_duration(10 * 86_400 + 5), "10 д 00:00:05");
    assert_eq!(decimal_string(0), "0");
    assert_eq!(decimal_string(1234567890), "1234567890");
}

#[test]
fn html_escapes_special_characters() {
    assert_eq!(escape_html("a & b <c> \"d\" 'e'"), "a &amp; b &lt;c&gt; &quot;d&quot; &#39;e&#39;");
    assert_eq!(escape_html("plain"), "plain");
    assert_eq!(escape_html("&amp;"), "&amp;amp;");
}

#[test]
fn kind_labels() {
    assert_eq!(app_kind_label("browser"), "Браузер");
    assert_eq!(app_kind_label("app"), "Приложение");
}

#[test]
fn app_seconds_follow_the_basis() {
    let p = sample_project();
    assert_eq!(included_app_seconds(&p.apps[0], TimeBasis::SiteTimes), 120);
    assert_eq!(included_app_seconds(&p.apps[1], TimeBasis::SiteTimes), 340);
    assert_eq!(included_app_seconds(&p.apps[1], TimeBasis::LinkTimes), 140);
    assert_eq!(included_app_seconds(&p.apps[2], TimeBasis::SiteTimes), 0);
    assert_eq!(included_tab_seconds(&p.apps[1].tabs[0], TimeBasis::LinkTimes), 100);
    assert_eq!(included_tab_seconds(&p.apps[1].tabs[0], TimeBasis::SiteTimes), 300);
    assert_eq!(included_tab_seconds(&p.apps[1].tabs[2], TimeBasis::LinkTimes), 40);
}

#[test]
fn included_lists_skip_excluded_parts_and_sort_by_time() {
    let p = sample_project();
    assert!(report_totals_fit(&p, TimeBasis::SiteTimes));
    let apps = included_apps(&p, TimeBasis::SiteTimes);
    let names: Vec<&str> = apps.iter().map(|a| a.name.as_str()).collect();
    assert_eq!(names, vec!["Google Chrome", "Visual Studio Code"]);
    assert_eq!(apps[0].seconds, 340);
    assert_eq!(included_total(&apps), 460);
    let tabs = included_tabs(&p, TimeBasis::LinkTimes);
    let titles: Vec<&str> = tabs.iter().map(|t| t.title.as_str()).collect();
    assert_eq!(titles, vec!["docs.rs", "mail"]);
    assert_eq!(tabs[0].seconds, 100);
    assert_eq!(tabs[0].url_count, 2);
    assert_eq!(tabs[0].browser, "Google Chrome");
    assert_eq!(tabs[1].url_count, 0);
}

#[test]
fn totals_that_overflow_are_detected() {
    let mut p = sample_project();
    p.apps[0].time_seconds = u64::MAX;
    assert!(!report_totals_fit(&p, TimeBasis::SiteTimes));
    p.apps[0].enabled = false;
    assert!(report_totals_fit(&p, TimeBasis::SiteTimes));
}

#[test]
fn page_pieces() {
    assert_eq!(page("A&B", "<p>x</p>"), "<section class=\"page\"><h1 class=\"page-title\">A&amp;B</h1><p>x</p></section>");
    assert_eq!(empty_html(), "<p class=\"empty\">Данных пока нет.</p>");
    assert_eq!(metric_card("L", "<v>"), "<div class=\"metric\"><span>L</span><strong>&lt;v&gt;</strong></div>");
    assert_eq!(info_tile("L", "v"), "<div class=\"info\"><span>L</span><strong>v</strong></div>");
    assert_eq!(simple_table(&["A"], &["50%"], &[]), "<p class=\"empty\">Данных пока нет.</p>");
    let rows = vec![vec!["1".to_string(), "<b>".to_string()]];
    assert_eq!(
        simple_table(&["A", "B"], &["50%", "50%"], &rows),
        "<table><tbody><tr><th style=\"width:50%\">A</th><th style=\"width:50%\">B</th></tr><tr><td><div class=\"truncate\">1</div></td><td><div class=\"truncate\"><b></div></td></tr></tbody></table>"
    );
}

#[test]
fn long_lists_continue_on_more_pages() {
    let p = sample_project();
    let mut apps = Vec::new();
    let mut percents = Vec::new();
    for i in 0..45u64 {
        apps.push(project_time_manager::report::IncludedApp {
            name: format!("app{i}"),
            process_name: String::new(),
            kind: "app".to_string(),
            seconds: i,
        });
        percents.push("1%".to_string());
    }
    let pages = app_pages(&apps, &percents);
    assert_eq!(pages.len(), 3);
    assert!(pages[0].contains("<h1 class=\"page-title\">Приложения</h1>"));
    assert!(pages[1].contains("<h1 class=\"page-title\">Приложения продолжение</h1>"));
    assert!(pages[2].contains("app44"));
    assert!(!pages[2].contains("app39"));
    let none = app_pages(&vec![], &vec![]);
    assert_eq!(none.len(), 1);
    assert!(none[0].contains("Данных пока нет."));
    let tabs = included_tabs(&p, TimeBasis::LinkTimes);
    let tp = tab_pages(&tabs, &vec!["71.4%".to_string(), "28.6%".to_string()]);
    assert_eq!(tp.len(), 1);
    assert!(tp[0].contains("<td><div class=\"truncate\">71.4%</div></td>"));
    let sp = session_pages(&p);
    assert_eq!(sp.len(), 1);
    assert!(sp[0].contains("<td><div class=\"truncate\">00:10:00</div></td>"));
    assert!(sp[0].contains("<td><div class=\"truncate\">400</div></td>"));
}

#[test]
fn overview_and_whole_document() {
    let p = sample_project();
    let apps = included_apps(&p, TimeBasis::LinkTimes);
    let tabs = included_tabs(&p, TimeBasis::LinkTimes);
    let total = included_total(&apps);
    assert_eq!(total, 260);
    let o = overview_page(&p, &apps, &tabs, total);
    assert!(o.starts_with("<section class=\"page\"><h1 class=\"page-title\">Отчет по проекту</h1><div class=\"hero\">"));
    assert!(o.contains("<h1>Demo &lt;1&gt;</h1>"));
    assert!(o.contains("<div class=\"metric\"><span>Всего по проекту</span><strong>00:04:20</strong></div>"));
    assert!(o.contains("<div class=\"metric\"><span>Топ приложение</span><strong>Google Chrome</strong></div>"));
    assert!(o.contains("<div class=\"info\"><span>Дата начала</span><strong>2024-05-01T10:00:00+00:00</strong></div>"));
    let ap = vec!["53.8%".to_string(), "46.2%".to_string()];
    let tp = vec!["38.5%".to_string(), "15.4%".to_string()];
    let html = build_report_html(&p, &apps, &tabs, &vec![], total, &ap, &tp, vec!["<section>never</section>".to_string()]);
    assert!(html.starts_with("<!DOCTYPE html>"));
    assert!(html.ends_with("</body>\n</html>"));
    assert!(html.contains("font-family: ReportFont, Arial, sans-serif;"));
    assert!(!html.contains("never"));
    assert_eq!(html.matches("<section class=\"page\">").count(), 4);
}
