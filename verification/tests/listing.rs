use project_time_manager::listing::sort_and_dedupe_projects;
use project_time_manager::models::ProjectRecord;

fn project(id: &str, name: &str, updated: &str) -> ProjectRecord {
    ProjectRecord { id: id.to_string(), name: name.to_string(), updated_at: updated.to_string(), ..Default::default() }
}

#[test]
fn latest_change_first_each_id_once() {
    let list = vec![
        project("a", "old a", "2024-01-01"),
        project("b", "b", "2024-03-01"),
        project("a", "new a", "2024-05-01"),
        project("c", "c", "2024-03-01"),
    ];
    let out = sort_and_dedupe_projects(list);
    let names: Vec<&str> = out.iter().map(|p| p.name.as_str()).collect();
    assert_eq!(names, vec!["new a", "b", "c"]);
}

#[test]
fn empty_listing_stays_empty() {
    assert!(sort_and_dedupe_projects(vec![]).is_empty());
}
