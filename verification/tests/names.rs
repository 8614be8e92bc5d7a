use project_time_manager::models::ProjectRecord;
use project_time_manager::names::{extract_domain, friendly_app_name, is_own_app_process, normalized_language, project_file_stem, sanitize_file_name};
use project_time_manager::paths::{project_dir, project_path, project_report_path, project_report_pdf_path, report_file_name, StoragePaths};

#[test]
fn friendly_names_of_applications() {
    assert_eq!(friendly_app_name("code.exe", "", None), "Visual Studio Code");
    assert_eq!(friendly_app_name(" AfterFX64.exe ", "", None), "Adobe After Effects");
    assert_eq!(friendly_app_name("my-cool_tool.v2.exe", "", None), "My Cool Tool V2");
    assert_eq!(friendly_app_name("chrome.exe", "", Some("Google Chrome")), "Google Chrome");
    assert!(is_own_app_process("Project_Time Manager.exe"));
    assert!(is_own_app_process("projecttimemanager"));
    assert!(!is_own_app_process("code.exe"));
}

#[test]
fn file_names_are_made_safe() {
    assert_eq!(sanitize_file_name("  My: <Project>  "), "My_ _Project_");
    assert_eq!(sanitize_file_name("a   b\tc"), "a b_c");
    assert_eq!(sanitize_file_name("a \u{2003} b"), "a b");
    assert_eq!(sanitize_file_name("..."), "project");
    assert_eq!(sanitize_file_name(""), "project");
    assert_eq!(sanitize_file_name(". a/b ."), "a_b");
}

#[test]
fn project_files_live_in_a_folder_named_after_the_project() {
    let p = ProjectRecord { id: "id-1".to_string(), name: "Фильм: финал".to_string(), ..Default::default() };
    assert_eq!(project_file_stem(&p), "Фильм_ финал");
    let paths = StoragePaths {
        projects_dir: "data/Проекты".to_string(),
        workspace_file: "data/workspace.json".to_string(),
        db_file: "data/ptm.db".to_string(),
    };
    let sep = std::path::MAIN_SEPARATOR;
    assert_eq!(project_dir(&paths, &p), format!("data/Проекты{sep}Фильм_ финал"));
    assert_eq!(project_path(&paths, &p), format!("data/Проекты{sep}Фильм_ финал{sep}project.json"));
    assert_eq!(project_report_path(&paths, &p), format!("data/Проекты{sep}Фильм_ финал{sep}Фильм_ финал.xlsx"));
    assert_eq!(project_report_pdf_path(&paths, &p), format!("data/Проекты{sep}Фильм_ финал{sep}Фильм_ финал.pdf"));
    assert_eq!(report_file_name(&p, "xlsx"), "Фильм_ финал.xlsx");
}

#[test]
fn domains_of_links() {
    assert_eq!(extract_domain("https://www.Example.com/path?q=1").as_deref(), Some("Example.com"));
    assert_eq!(extract_domain("http://user@host.org:8080/x").as_deref(), Some("host.org"));
    assert_eq!(extract_domain("   "), None);
}

#[test]
fn languages() {
    assert_eq!(normalized_language(" EN "), "en");
    assert_eq!(normalized_language("ru"), "ru");
    assert_eq!(normalized_language("fr"), "ru");
}

#[test]
fn sanitizing_twice_changes_nothing() {
    for name in ["  a  <b>:c\t d.. ", "...", "", "Проект  2026", " . x . ", "a\u{2003}\u{2003}b", "con|sole?"] {
        let once = sanitize_file_name(name);
        assert_eq!(sanitize_file_name(&once), once);
    }
}
