use project_time_manager::categories::{
    delete_category, next_category_order, set_project_category, suggest_category, update_category, AppRule,
};
use project_time_manager::create::create_category;
use project_time_manager::models::{AppUsageRecord, Category, ProjectRecord};
use project_time_manager::store::StoreData;

fn category(id: &str, name: &str, order: usize) -> Category {
    Category {
        id: id.to_string(),
        name: name.to_string(),
        color: "#059669".to_string(),
        icon: "🎬".to_string(),
        order,
        created_at: "t".to_string(),
        updated_at: "t".to_string(),
    }
}

fn app(key: &str, name: &str, seconds: u64, enabled: bool) -> AppUsageRecord {
    AppUsageRecord {
        key: key.to_string(),
        name: name.to_string(),
        process_name: key.to_string(),
        kind: "app".to_string(),
        enabled,
        time_seconds: seconds,
        ..Default::default()
    }
}

fn rule(pattern: &str, category: &str) -> AppRule {
    AppRule { id: format!("r-{pattern}"), match_process: pattern.to_string(), category_id: category.to_string(), created_at: "t".to_string() }
}

#[test]
fn categories_crud_and_assignment() {
    let mut store = StoreData::default();
    store.projects.push(ProjectRecord {
        id: "p1".to_string(),
        name: "Проект".to_string(),
        created_at: "t".to_string(),
        updated_at: "t".to_string(),
        ..Default::default()
    });
    let cat = Category {
        id: "c1".into(),
        name: "Монтаж".into(),
        color: "#059669".into(),
        icon: "🎬".into(),
        order: next_category_order(&store.categories),
        created_at: "t".into(),
        updated_at: "t".into(),
    };
    store.categories.push(cat);
    assert_eq!(store.categories.len(), 1);

    set_project_category(&mut store, "p1", Some("c1".to_string()), "t2").unwrap();
    let p = &store.projects[0];
    assert_eq!(p.category_id.as_deref(), Some("c1"), "категория привязана");

    delete_category(&mut store, "c1");
    assert_eq!(store.categories.len(), 0);
    let p2 = &store.projects[0];
    assert_eq!(p2.category_id, None, "категория обнулена после удаления");
}

#[test]
fn next_order_follows_the_largest() {
    assert_eq!(next_category_order(&vec![]), 0);
    let cs = vec![category("a", "A", 3), category("b", "B", 1)];
    assert_eq!(next_category_order(&cs), 4);
}

#[test]
fn create_category_trims_and_refuses_blank_names() {
    let c = create_category("  Монтаж ", "#fff", "x", 2, "now").unwrap();
    assert_eq!(c.name, "Монтаж");
    assert_eq!(c.order, 2);
    assert_eq!(c.id.len(), 36);
    assert_eq!(c.created_at, "now");
    let e = create_category("   ", "#fff", "x", 2, "now");
    assert_eq!(e.unwrap_err(), "Название категории не может быть пустым.");
}

#[test]
fn update_category_changes_only_that_category() {
    let mut cs = vec![category("a", "A", 0), category("b", "B", 1)];
    update_category(&mut cs, "b", " Цвет ", "#000", "i", "t2").unwrap();
    assert_eq!(cs[1].name, "Цвет");
    assert_eq!(cs[1].color, "#000");
    assert_eq!(cs[1].icon, "i");
    assert_eq!(cs[1].updated_at, "t2");
    assert_eq!(cs[0].name, "A");
    assert_eq!(cs[0].updated_at, "t");
    let err = update_category(&mut cs, "a", "  ", "#111", "j", "t3");
    assert_eq!(err, Err("Название категории не может быть пустым.".to_string()));
    assert_eq!(cs[0].color, "#059669");
}

#[test]
fn filing_an_unknown_project_is_refused() {
    let mut store = StoreData::default();
    let res = set_project_category(&mut store, "nope", None, "t");
    assert_eq!(res.unwrap_err(), "Project not found");
}

#[test]
fn suggestion_takes_the_category_with_most_time() {
    let project = ProjectRecord {
        apps: vec![
            app("Premiere.exe", "Adobe Premiere Pro", 300, true),
            app("code.exe", "Visual Studio Code", 100, true),
            app("Photoshop.exe", "Photoshop", 1000, false),
        ],
        ..Default::default()
    };
    let rules = vec![rule(" PREMIERE ", "edit"), rule("code", "dev"), rule("photoshop", "design")];
    assert_eq!(suggest_category(&project, &rules).as_deref(), Some("edit"));
    let only_dev = vec![rule("code", "dev"), rule("studio", "dev")];
    assert_eq!(suggest_category(&project, &only_dev).as_deref(), Some("dev"));
    assert_eq!(suggest_category(&project, &vec![rule("photoshop", "design")]), None);
    assert_eq!(suggest_category(&project, &vec![]), None);
    assert_eq!(suggest_category(&project, &vec![rule("   ", "x")]), None);
}
