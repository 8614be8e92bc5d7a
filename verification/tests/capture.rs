use project_time_manager::capture::{
    active_window_info, build_observation, classify_browser, external_url, favicon_url, looks_like_url, normalize_url_value,
    percent_encode, process_name_of, process_name_with, strip_browser_suffix,
};

#[test]
fn browsers_are_recognized_by_process_name() {
    assert_eq!(classify_browser("chrome.exe").as_deref(), Some("Google Chrome"));
    assert_eq!(classify_browser("MSEDGE.EXE").as_deref(), Some("Microsoft Edge"));
    assert_eq!(classify_browser("firefox.exe").as_deref(), Some("Mozilla Firefox"));
    assert_eq!(classify_browser("brave.exe").as_deref(), Some("Brave"));
    assert_eq!(classify_browser("opera.exe").as_deref(), Some("Opera"));
    assert_eq!(classify_browser("notepad.exe"), None);
}

#[test]
fn browser_suffix_is_removed_from_titles() {
    assert_eq!(strip_browser_suffix("Docs - Google Chrome", "Google Chrome"), "Docs");
    assert_eq!(strip_browser_suffix("  Docs  ", "Google Chrome"), "Docs");
    assert_eq!(strip_browser_suffix("Docs - Brave", "Google Chrome"), "Docs - Brave");
}

#[test]
fn address_bar_values() {
    assert_eq!(normalize_url_value("  https://a.b/c  ").as_deref(), Some("https://a.b/c"));
    assert_eq!(normalize_url_value("example.com/x").as_deref(), Some("https://example.com/x"));
    assert_eq!(normalize_url_value("file:///C:/x.txt").as_deref(), Some("file:///C:/x.txt"));
    assert_eq!(normalize_url_value("not a url"), None);
    assert_eq!(normalize_url_value("   "), None);
    assert_eq!(normalize_url_value("localhost"), None);
    assert!(looks_like_url("http://x"));
    assert!(!looks_like_url("ftp://x"));
}

#[test]
fn favicons_use_percent_encoded_addresses() {
    assert_eq!(percent_encode("a-b_c.d~"), "a-b_c.d~");
    assert_eq!(percent_encode("https://x.y/?q=1 2"), "https%3A%2F%2Fx.y%2F%3Fq%3D1%202");
    assert_eq!(percent_encode("я"), "%D1%8F");
    assert_eq!(
        favicon_url("https://docs.rs").as_deref(),
        Some("https://www.google.com/s2/favicons?sz=32&domain_url=https%3A%2F%2Fdocs.rs")
    );
    assert_eq!(favicon_url("file:///x"), None);
}

#[test]
fn observations_of_browsers_and_applications() {
    let o = build_observation(
        "chrome.exe",
        "C:\\Chrome\\chrome.exe",
        "Docs - Google Chrome".to_string(),
        Some("https://docs.rs".to_string()),
        Some("data:image/png;base64,AA".to_string()),
    );
    assert_eq!(o.browser_name.as_deref(), Some("Google Chrome"));
    assert_eq!(o.tab_title.as_deref(), Some("Docs"));
    assert_eq!(o.url.as_deref(), Some("https://docs.rs"));
    assert_eq!(o.favicon_url.as_deref(), Some("https://www.google.com/s2/favicons?sz=32&domain_url=https%3A%2F%2Fdocs.rs"));
    assert_eq!(o.icon_data_url.as_deref(), Some("data:image/png;base64,AA"));
    let info = active_window_info(&o);
    assert_eq!(info.name, "Google Chrome");
    assert_eq!(info.title, "Docs");
    assert_eq!(info.kind, "browser");

    let a = build_observation("code.exe", "", "main.rs - Code".to_string(), Some("https://ignored".to_string()), None);
    assert!(a.browser_name.is_none());
    assert!(a.url.is_none());
    assert_eq!(a.tab_title.as_deref(), Some("main.rs - Code"));
    let info = active_window_info(&a);
    assert_eq!(info.name, "Visual Studio Code");
    assert_eq!(info.kind, "app");
    assert_eq!(info.process_name, "code.exe");

    let bad = build_observation("chrome.exe", "", " - Google Chrome".to_string(), Some("about:blank".to_string()), None);
    assert!(bad.url.is_none());
    assert!(bad.favicon_url.is_none());
    assert_eq!(bad.tab_title.as_deref(), Some(""));
    assert_eq!(active_window_info(&bad).title, " - Google Chrome");
}

#[test]
fn only_web_links_are_opened() {
    assert_eq!(external_url("  https://example.com/a  "), Ok("https://example.com/a".to_string()));
    assert_eq!(external_url("http://x.org"), Ok("http://x.org".to_string()));
    assert_eq!(external_url("file:///etc/passwd"), Err("URL недоступен.".to_string()));
    assert_eq!(external_url("example.com"), Err("URL недоступен.".to_string()));
    assert_eq!(external_url(""), Err("URL недоступен.".to_string()));
}

#[test]
fn process_name_falls_back_to_unknown_and_file_name() {
    assert_eq!(process_name_of(""), "unknown");
    assert_eq!(process_name_with("", Some("x.exe".to_string())), "unknown");
    assert_eq!(process_name_with("C:\\Apps\\code.exe", Some("code.exe".to_string())), "code.exe");
    assert_eq!(process_name_with("C:\\Apps\\..", None), "C:\\Apps\\..");
    assert_eq!(process_name_of("/usr/bin/code"), "code");
    assert_eq!(process_name_of("/usr/bin/.."), "/usr/bin/..");
}
