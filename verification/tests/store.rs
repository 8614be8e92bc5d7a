use project_time_manager::models::ProjectRecord;
use project_time_manager::store::{
    add_created_project, app_settings, default_language, forget_project, load_workspace,
    save_workspace, select_project, selected_project_from_store, sync_project_in_store,
    update_app_settings, SettingWrite, StoreData, WorkspaceIndex,
};
use project_time_manager::migration::workspace_migration_writes;

fn project(id: &str, name: &str) -> ProjectRecord {
    ProjectRecord { id: id.to_string(), name: name.to_string(), ..Default::default() }
}

fn put(w: &SettingWrite) -> (String, Option<String>) {
    match w {
        SettingWrite::Put(k, v) => (k.clone(), Some(v.clone())),
        SettingWrite::Remove(k) => (k.clone(), None),
    }
}

#[test]
fn workspace_defaults_to_russian_and_no_autostart() {
    let w = WorkspaceIndex::default();
    assert_eq!(w.language, "ru");
    assert!(!w.autostart);
    assert!(w.selected_project_id.is_none());
    assert_eq!(default_language(), "ru");
}

#[test]
fn workspace_is_read_from_settings() {
    let w = load_workspace(Some("p1".to_string()), Some("1".to_string()), Some("en".to_string()));
    assert_eq!(w.selected_project_id.as_deref(), Some("p1"));
    assert!(w.autostart);
    assert_eq!(w.language, "en");
    let w2 = load_workspace(None, Some("yes".to_string()), None);
    assert!(!w2.autostart);
    assert_eq!(w2.language, "ru");
    assert!(w2.selected_project_id.is_none());
}

#[test]
fn workspace_writes_then_reads_back() {
    let w = WorkspaceIndex { selected_project_id: Some("p9".to_string()), autostart: true, language: "en".to_string() };
    let writes: Vec<(String, Option<String>)> = save_workspace(&w).iter().map(put).collect();
    assert_eq!(
        writes,
        vec![
            ("language".to_string(), Some("en".to_string())),
            ("autostart".to_string(), Some("1".to_string())),
            ("selected_project_id".to_string(), Some("p9".to_string())),
        ]
    );
    let mut settings: std::collections::BTreeMap<String, String> = std::collections::BTreeMap::new();
    settings.insert("selected_project_id".to_string(), "old".to_string());
    for (k, v) in writes {
        match v {
            Some(v) => {
                settings.insert(k, v);
            }
            None => {
                settings.remove(&k);
            }
        }
    }
    let back = load_workspace(
        settings.get("selected_project_id").cloned(),
        settings.get("autostart").cloned(),
        settings.get("language").cloned(),
    );
    assert_eq!(back.selected_project_id, w.selected_project_id);
    assert_eq!(back.autostart, w.autostart);
    assert_eq!(back.language, w.language);
}

#[test]
fn no_selection_removes_the_setting() {
    let w = WorkspaceIndex { selected_project_id: None, autostart: false, language: "ru".to_string() };
    let writes: Vec<(String, Option<String>)> = save_workspace(&w).iter().map(put).collect();
    assert_eq!(writes[1], ("autostart".to_string(), Some("0".to_string())));
    assert_eq!(writes[2], ("selected_project_id".to_string(), None));
    let moved: Vec<(String, Option<String>)> = workspace_migration_writes(&w).iter().map(put).collect();
    assert_eq!(moved.len(), 2);
}

#[test]
fn selecting_and_forgetting_projects() {
    let mut store = StoreData::default();
    add_created_project(&mut store, project("a", "A"));
    add_created_project(&mut store, project("b", "B"));
    assert_eq!(store.workspace.selected_project_id.as_deref(), Some("b"));
    select_project(&mut store, "a".to_string());
    assert_eq!(selected_project_from_store(&store).unwrap().name, "A");
    forget_project(&mut store, "a");
    assert_eq!(store.projects.len(), 1);
    assert_eq!(store.workspace.selected_project_id.as_deref(), Some("b"));
    forget_project(&mut store, "b");
    assert!(store.projects.is_empty());
    assert!(store.workspace.selected_project_id.is_none());
    assert!(selected_project_from_store(&store).is_none());
}

#[test]
fn forgetting_an_unselected_project_keeps_the_selection() {
    let mut store = StoreData::default();
    store.projects = vec![project("a", "A"), project("b", "B"), project("c", "C")];
    select_project(&mut store, "c".to_string());
    forget_project(&mut store, "b");
    assert_eq!(store.projects.iter().map(|p| p.id.as_str()).collect::<Vec<_>>(), vec!["a", "c"]);
    assert_eq!(store.workspace.selected_project_id.as_deref(), Some("c"));
}

#[test]
fn syncing_replaces_or_adds() {
    let mut store = StoreData::default();
    store.projects = vec![project("a", "A"), project("b", "B")];
    sync_project_in_store(&mut store, project("b", "B2"));
    assert_eq!(store.projects.len(), 2);
    assert_eq!(store.projects[1].name, "B2");
    sync_project_in_store(&mut store, project("c", "C"));
    assert_eq!(store.projects.len(), 3);
    assert_eq!(store.projects[2].id, "c");
}

#[test]
fn settings_normalize_the_language() {
    let mut store = StoreData::default();
    let (s, changed) = update_app_settings(&mut store, true, "  EN ");
    assert_eq!(s.language, "en");
    assert!(s.autostart);
    assert!(changed);
    assert_eq!(store.workspace.language, "en");
    let (s2, changed2) = update_app_settings(&mut store, true, "de");
    assert_eq!(s2.language, "ru");
    assert!(!changed2);
    let shown = app_settings(&store.workspace);
    assert_eq!(shown.language, "ru");
}
