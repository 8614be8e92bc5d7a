use project_time_manager::models::{ProjectRecord, TabUsageRecord, WindowObservation};
use project_time_manager::tracking::{touch_app_time, touch_tab_time_at, touch_url_history};

fn chrome(url: &str, title: &str) -> WindowObservation {
    WindowObservation {
        process_name: "chrome.exe".to_string(),
        process_path: "C:\\chrome.exe".to_string(),
        window_title: format!("{title} - Google Chrome"),
        browser_name: Some("Google Chrome".to_string()),
        tab_title: Some(title.to_string()),
        url: Some(url.to_string()),
        ..Default::default()
    }
}

#[test]
fn a_link_visited_twice_is_recorded_once() {
    let mut tab = TabUsageRecord { key: "example.com::Google Chrome".to_string(), ..Default::default() };
    touch_url_history(&mut tab, "https://example.com/a", " Page A ", "t1");
    touch_url_history(&mut tab, "https://example.com/b", "", "t2");
    touch_url_history(&mut tab, "https://example.com/a", "", "t3");
    assert_eq!(tab.urls.len(), 2);
    assert_eq!(tab.urls[0].url, "https://example.com/a");
    assert_eq!(tab.urls[0].title, "Page A");
    assert_eq!(tab.urls[0].hits, 2);
    assert_eq!(tab.urls[0].time_seconds, 2);
    assert_eq!(tab.urls[0].last_seen_at, "t3");
    assert_eq!(tab.urls[1].title, "https://example.com/b");
    assert_eq!(tab.urls[1].hits, 1);
}

#[test]
fn a_site_sampled_twice_is_recorded_once() {
    let mut p = ProjectRecord::default();
    let o = chrome("https://Example.com/a", "A");
    let i = touch_app_time(&mut p, &o, 1);
    touch_tab_time_at(&mut p, i, &o, 1, "t1");
    let o2 = chrome("https://example.com/b", "B");
    let i2 = touch_app_time(&mut p, &o2, 1);
    assert_eq!(i, i2);
    touch_tab_time_at(&mut p, i2, &o2, 1, "t2");
    assert_eq!(p.apps.len(), 1);
    assert_eq!(p.apps[0].time_seconds, 2);
    assert_eq!(p.apps[0].tabs.len(), 1);
    assert_eq!(p.apps[0].tabs[0].key, "example.com::Google Chrome");
    assert_eq!(p.apps[0].tabs[0].time_seconds, 2);
    assert_eq!(p.apps[0].tabs[0].urls.len(), 2);
}
