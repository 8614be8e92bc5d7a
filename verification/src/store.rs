//! The application's state while it runs: the workspace settings, the projects and
//! categories in memory, and the tracker that turns samples into sessions.
use vstd::prelude::*;
use crate::create::new_id;
use crate::models::{
    category_views, opt_view, project_views, snapshot_views, AppPayload, AppSettings, Category,
    CategoryView, ProjectRecord, ProjectSummary, ProjectView, SessionRecord, SessionStageSnapshot,
    SessionView, SnapshotView, StageView, TrackerPayload, WindowObservation, ObservationView,
    clone_opt, stage_views, strings_view,
};
use crate::names::{language_of, normalized_language};
use crate::seqs::{first_index, keep, lemma_first_index, lemma_first_index_bounds, lemma_keep_all, lemma_keep_step};
use crate::text::{lowercase, owned, str_eq, trim};
use crate::tracking::{
    app_index_of, apps_tab_touched, apps_touched, sat_add, touch_app_time, touch_tab_time_at,
};

verus! {

// ---------------------------------------------------------------- workspace

/// The workspace settings.
#[derive(Debug)]
pub struct WorkspaceIndex {
    pub selected_project_id: Option<String>,
    pub autostart: bool,
    pub language: String,
}

#[verifier::ext_equal]
pub struct WorkspaceView {
    pub selected_project_id: Option<Seq<char>>,
    pub autostart: bool,
    pub language: Seq<char>,
}

impl View for WorkspaceIndex {
    type V = WorkspaceView;

    open spec fn view(&self) -> WorkspaceView {
        WorkspaceView {
            selected_project_id: opt_view(self.selected_project_id),
            autostart: self.autostart,
            language: self.language@,
        }
    }
}

/// The language used when none is set.
pub fn default_language() -> (res: String)
    ensures
        res@ == "ru"@,
{
    owned("ru")
}

impl Default for WorkspaceIndex {
    fn default() -> (res: Self)
        ensures
            res@ == (WorkspaceView { selected_project_id: None, autostart: false, language: "ru"@ }),
    {
        WorkspaceIndex { selected_project_id: None, autostart: false, language: default_language() }
    }
}

impl WorkspaceIndex {
    pub fn duplicate(&self) -> (res: Self)
        ensures
            res@ == self@,
    {
        WorkspaceIndex {
            selected_project_id: clone_opt(&self.selected_project_id),
            autostart: self.autostart,
            language: self.language.clone(),
        }
    }
}

/// The workspace read from its stored settings: autostart only when it is `1`, Russian
/// when no language is stored.
pub open spec fn workspace_from(
    selected: Option<Seq<char>>,
    autostart: Option<Seq<char>>,
    language: Option<Seq<char>>,
) -> WorkspaceView {
    WorkspaceView {
        selected_project_id: selected,
        autostart: autostart == Some("1"@),
        language: match language {
            Some(l) => l,
            None => "ru"@,
        },
    }
}

/// The workspace from the stored settings `selected_project_id`, `autostart` and
/// `language` (see `workspace_from`).
pub fn load_workspace(selected: Option<String>, autostart: Option<String>, language: Option<String>) -> (res: WorkspaceIndex)
    ensures
        res@ == workspace_from(opt_view(selected), opt_view(autostart), opt_view(language)),
{
    let on = match &autostart {
        Some(v) => str_eq(v.as_str(), "1"),
        None => false,
    };
    WorkspaceIndex {
        selected_project_id: selected,
        autostart: on,
        language: match language {
            Some(l) => l,
            None => default_language(),
        },
    }
}

/// One change to the stored settings.
#[derive(Debug)]
pub enum SettingWrite {
    /// Store `value` under `key`.
    Put(String, String),
    /// Remove `key`.
    Remove(String),
}

pub enum SettingWriteView {
    Put(Seq<char>, Seq<char>),
    Remove(Seq<char>),
}

impl View for SettingWrite {
    type V = SettingWriteView;

    open spec fn view(&self) -> SettingWriteView {
        match self {
            SettingWrite::Put(k, v) => SettingWriteView::Put(k@, v@),
            SettingWrite::Remove(k) => SettingWriteView::Remove(k@),
        }
    }
}

pub open spec fn write_views(s: Seq<SettingWrite>) -> Seq<SettingWriteView> {
    s.map_values(|w: SettingWrite| w@)
}

/// The settings that store a workspace: its language, `1` or `0` for autostart, and the
/// selected project, removed when there is none.
pub open spec fn workspace_writes(w: WorkspaceView) -> Seq<SettingWriteView> {
    seq![
        SettingWriteView::Put("language"@, w.language),
        SettingWriteView::Put("autostart"@, if w.autostart { "1"@ } else { "0"@ }),
        match w.selected_project_id {
            Some(id) => SettingWriteView::Put("selected_project_id"@, id),
            None => SettingWriteView::Remove("selected_project_id"@),
        },
    ]
}

/// The settings to store for a workspace, in order (see `workspace_writes`).
pub fn save_workspace(workspace: &WorkspaceIndex) -> (res: Vec<SettingWrite>)
    ensures
        write_views(res@) == workspace_writes(workspace@),
{
    let mut out: Vec<SettingWrite> = Vec::new();
    out.push(SettingWrite::Put(owned("language"), workspace.language.clone()));
    out.push(SettingWrite::Put(owned("autostart"), if workspace.autostart { owned("1") } else { owned("0") }));
    match &workspace.selected_project_id {
        Some(id) => out.push(SettingWrite::Put(owned("selected_project_id"), id.clone())),
        None => out.push(SettingWrite::Remove(owned("selected_project_id"))),
    }
    assert(write_views(out@) =~= workspace_writes(workspace@));
    out
}

/// The stored settings after the writes, in order.
pub open spec fn apply_writes(m: Map<Seq<char>, Seq<char>>, writes: Seq<SettingWriteView>) -> Map<Seq<char>, Seq<char>>
    decreases writes.len(),
{
    if writes.len() == 0 {
        m
    } else {
        let before = apply_writes(m, writes.drop_last());
        match writes.last() {
            SettingWriteView::Put(k, v) => before.insert(k, v),
            SettingWriteView::Remove(k) => before.remove(k),
        }
    }
}

pub open spec fn setting(m: Map<Seq<char>, Seq<char>>, key: Seq<char>) -> Option<Seq<char>> {
    if m.contains_key(key) {
        Some(m[key])
    } else {
        None
    }
}

/// The workspace read back from stored settings.
pub open spec fn read_workspace(m: Map<Seq<char>, Seq<char>>) -> WorkspaceView {
    workspace_from(setting(m, "selected_project_id"@), setting(m, "autostart"@), setting(m, "language"@))
}

/// Storing a workspace and reading it back gives the same workspace, whatever was stored
/// before.
pub proof fn law_workspace_roundtrip(m: Map<Seq<char>, Seq<char>>, w: WorkspaceView)
    ensures
        read_workspace(apply_writes(m, workspace_writes(w))) == w,
{
    reveal_strlit("language");
    reveal_strlit("autostart");
    reveal_strlit("selected_project_id");
    reveal_strlit("1");
    reveal_strlit("0");
    let ws = workspace_writes(w);
    assert(ws.drop_last().drop_last().drop_last() =~= Seq::<SettingWriteView>::empty());
    let m1 = apply_writes(m, ws.drop_last().drop_last());
    let m2 = apply_writes(m, ws.drop_last());
    let m3 = apply_writes(m, ws);
    assert("language"@.len() == 8);
    assert("autostart"@.len() == 9);
    assert("selected_project_id"@.len() == 19);
    assert("language"@ != "autostart"@);
    assert("language"@ != "selected_project_id"@);
    assert("autostart"@ != "selected_project_id"@);
    assert("1"@[0] != "0"@[0]);
    assert("1"@ != "0"@);
    assert(read_workspace(m3) =~= w);
}

// ---------------------------------------------------------------- the store in memory

/// The workspace, projects and categories held in memory.
#[derive(Debug)]
pub struct StoreData {
    pub workspace: WorkspaceIndex,
    pub projects: Vec<ProjectRecord>,
    pub categories: Vec<Category>,
}

#[verifier::ext_equal]
pub struct StoreView {
    pub workspace: WorkspaceView,
    pub projects: Seq<ProjectView>,
    pub categories: Seq<CategoryView>,
}

impl Default for StoreData {
    fn default() -> (res: Self)
        ensures
            res@ == (StoreView {
                workspace: WorkspaceView { selected_project_id: None, autostart: false, language: "ru"@ },
                projects: Seq::empty(),
                categories: Seq::empty(),
            }),
    {
        let res = StoreData { workspace: WorkspaceIndex::default(), projects: Vec::new(), categories: Vec::new() };
        assert(res@.projects =~= Seq::<ProjectView>::empty());
        assert(res@.categories =~= Seq::<CategoryView>::empty());
        res
    }
}

impl View for StoreData {
    type V = StoreView;

    open spec fn view(&self) -> StoreView {
        StoreView {
            workspace: self.workspace@,
            projects: project_views(self.projects@),
            categories: category_views(self.categories@),
        }
    }
}

pub open spec fn project_is_id(id: Seq<char>) -> spec_fn(ProjectView) -> bool {
    |p: ProjectView| p.id == id
}

/// Where the project with this id stands (`projects.len()` when there is none).
pub open spec fn project_index_of(projects: Seq<ProjectView>, id: Seq<char>) -> int {
    first_index(projects, project_is_id(id))
}

pub(crate) fn find_project(projects: &Vec<ProjectRecord>, id: &str) -> (i: usize)
    ensures
        i == project_index_of(project_views(projects@), id@),
        i <= projects.len(),
{
    let ghost s = project_views(projects@);
    let mut k: usize = 0;
    while k < projects.len()
        invariant
            k <= projects.len(),
            s == project_views(projects@),
            forall|m: int| 0 <= m < k ==> !project_is_id(id@)(#[trigger] s[m]),
        decreases projects.len() - k,
    {
        if str_eq(projects[k].id.as_str(), id) {
            proof {
                lemma_first_index(s, project_is_id(id@), k as int);
            }
            return k;
        }
        k = k + 1;
    }
    proof {
        lemma_first_index(s, project_is_id(id@), k as int);
    }
    k
}

/// The selected project, when one is selected and held.
pub open spec fn selected_project(s: StoreView) -> Option<ProjectView> {
    match s.workspace.selected_project_id {
        Some(id) => {
            let i = project_index_of(s.projects, id);
            if i < s.projects.len() {
                Some(s.projects[i])
            } else {
                None
            }
        },
        None => None,
    }
}

/// A copy of the selected project (see `selected_project`).
pub fn selected_project_from_store(store: &StoreData) -> (res: Option<ProjectRecord>)
    ensures
        match res {
            Some(p) => selected_project(store@) == Some(p@),
            None => selected_project(store@).is_none(),
        },
{
    match &store.workspace.selected_project_id {
        Some(id) => {
            let i = find_project(&store.projects, id.as_str());
            if i < store.projects.len() {
                Some(store.projects[i].duplicate())
            } else {
                None
            }
        },
        None => None,
    }
}

/// The projects with `project` in place of the first with its id, or added at the end.
pub open spec fn project_synced(projects: Seq<ProjectView>, project: ProjectView) -> Seq<ProjectView> {
    let i = project_index_of(projects, project.id);
    if i < projects.len() {
        projects.update(i, project)
    } else {
        projects.push(project)
    }
}

/// Puts a saved project into the store (see `project_synced`).
pub fn sync_project_in_store(store: &mut StoreData, project: ProjectRecord)
    ensures
        final(store)@ == (StoreView { projects: project_synced(old(store)@.projects, project@), ..old(store)@ }),
{
    let ghost p0 = store@.projects;
    let ghost pv = project@;
    let i = find_project(&store.projects, project.id.as_str());
    if i < store.projects.len() {
        store.projects.set(i, project);
    } else {
        store.projects.push(project);
    }
    assert(project_views(store.projects@) =~= project_synced(p0, pv));
}

/// Selects a project.
pub fn select_project(store: &mut StoreData, project_id: String)
    ensures
        final(store)@ == (StoreView {
            workspace: WorkspaceView { selected_project_id: Some(project_id@), ..old(store)@.workspace },
            ..old(store)@
        }),
{
    store.workspace.selected_project_id = Some(project_id);
}

pub open spec fn project_not(id: Seq<char>) -> spec_fn(ProjectView) -> bool {
    |p: ProjectView| p.id != id
}

/// The store without the project `id`; when it was selected, the first remaining project
/// (if any) is selected instead.
pub open spec fn project_forgotten(s: StoreView, id: Seq<char>) -> StoreView {
    let rest = keep(s.projects, project_not(id));
    StoreView {
        projects: rest,
        workspace: if s.workspace.selected_project_id == Some(id) {
            WorkspaceView { selected_project_id: if rest.len() > 0 { Some(rest[0].id) } else { None }, ..s.workspace }
        } else {
            s.workspace
        },
        ..s
    }
}

/// Drops a deleted project from the store (see `project_forgotten`).
pub fn forget_project(store: &mut StoreData, project_id: &str)
    ensures
        final(store)@ == project_forgotten(old(store)@, project_id@),
{
    let ghost orig = project_views(store.projects@);
    let ghost p = project_not(project_id@);
    let ghost s0 = store@;
    let mut i: usize = 0;
    let ghost mut j: int = 0;
    assert(orig.take(0) =~= Seq::<ProjectView>::empty());
    assert(orig.skip(0) =~= orig);
    while i < store.projects.len()
        invariant
            0 <= j <= orig.len(),
            p == project_not(project_id@),
            i <= store.projects.len(),
            store.projects.len() - i == orig.len() - j,
            project_views(store.projects@).take(i as int) == keep(orig.take(j), p),
            project_views(store.projects@).skip(i as int) == orig.skip(j),
            store@ == (StoreView { projects: store@.projects, ..s0 }),
        decreases store.projects.len() - i,
    {
        proof {
            lemma_keep_step(orig, p, j);
            assert(orig[j] == project_views(store.projects@).skip(i as int)[0]);
            assert(project_views(store.projects@)[i as int] == store.projects@[i as int]@);
        }
        let other = !str_eq(store.projects[i].id.as_str(), project_id);
        assert(p(orig[j]) == other);
        let ghost before = project_views(store.projects@);
        if other {
            i = i + 1;
            proof {
                assert(before.take(i as int) =~= before.take(i - 1).push(before[i - 1]));
                assert(before.skip(i as int) =~= before.skip(i - 1).drop_first());
                assert(orig.skip(j + 1) =~= orig.skip(j).drop_first());
            }
        } else {
            store.projects.remove(i);
            proof {
                assert(project_views(store.projects@).take(i as int) =~= before.take(i as int));
                assert(project_views(store.projects@).skip(i as int) =~= before.skip(i as int).drop_first());
                assert(orig.skip(j + 1) =~= orig.skip(j).drop_first());
            }
        }
        proof {
            j = j + 1;
        }
    }
    assert(orig.take(j) =~= orig);
    assert(project_views(store.projects@).take(i as int) =~= project_views(store.projects@));
    let was_selected = match &store.workspace.selected_project_id {
        Some(id) => str_eq(id.as_str(), project_id),
        None => false,
    };
    if was_selected {
        if store.projects.len() > 0 {
            assert(project_views(store.projects@)[0] == store.projects@[0]@);
            store.workspace.selected_project_id = Some(store.projects[0].id.clone());
        } else {
            store.workspace.selected_project_id = None;
        }
    }
    assert(store@ =~= project_forgotten(s0, project_id@));
}

/// Adds a newly created project to the store and selects it.
pub fn add_created_project(store: &mut StoreData, project: ProjectRecord)
    ensures
        final(store)@ == (StoreView {
            projects: old(store)@.projects.push(project@),
            workspace: WorkspaceView { selected_project_id: Some(project@.id), ..old(store)@.workspace },
            ..old(store)@
        }),
{
    let id = project.id.clone();
    let ghost pv = project@;
    let ghost p0 = store@.projects;
    store.projects.push(project);
    store.workspace.selected_project_id = Some(id);
    assert(project_views(store.projects@) =~= p0.push(pv));
}

/// The interface settings: autostart and the language (English or Russian).
pub fn app_settings(workspace: &WorkspaceIndex) -> (res: AppSettings)
    ensures
        res.autostart == workspace.autostart,
        res.language@ == language_of(lowercase(trim(workspace.language@))),
{
    AppSettings { autostart: workspace.autostart, language: normalized_language(workspace.language.as_str()) }
}

/// Changes the settings; returns the new interface settings and whether autostart changed
/// (and so must be registered with the system).
pub fn update_app_settings(store: &mut StoreData, autostart: bool, language: &str) -> (res: (AppSettings, bool))
    ensures
        res.0.autostart == autostart,
        res.0.language@ == language_of(lowercase(trim(language@))),
        res.1 == (old(store)@.workspace.autostart != autostart),
        final(store)@ == (StoreView {
            workspace: WorkspaceView { autostart: autostart, language: res.0.language@, ..old(store)@.workspace },
            ..old(store)@
        }),
{
    let normalized = normalized_language(language);
    let previous = store.workspace.autostart;
    store.workspace.autostart = autostart;
    store.workspace.language = normalized.clone();
    (AppSettings { autostart: autostart, language: normalized }, previous != autostart)
}

// ---------------------------------------------------------------- laws

/// Once a project is forgotten, no project with its id is left and it is not selected;
/// every other project stays, in order.
pub proof fn law_forget_project(s: StoreView, id: Seq<char>)
    ensures
        forall|k: int|
            0 <= k < project_forgotten(s, id).projects.len() ==> (#[trigger] project_forgotten(s, id).projects[k]).id
                != id,
        forall|j: int|
            0 <= j < s.projects.len() && (#[trigger] s.projects[j]).id != id ==> project_forgotten(s, id).projects.contains(
                s.projects[j],
            ),
        project_forgotten(s, id).workspace.selected_project_id != Some(id),
        project_forgotten(s, id).categories == s.categories,
{
    lemma_keep_all(s.projects, project_not(id));
    let rest = keep(s.projects, project_not(id));
    assert forall|j: int| 0 <= j < s.projects.len() && (#[trigger] s.projects[j]).id != id implies rest.contains(
        s.projects[j],
    ) by {
        assert(project_not(id)(s.projects[j]));
    }
    if rest.len() > 0 {
        assert(project_not(id)(rest[0]));
    }
}

/// Selecting a project that is held makes it the selected project.
pub proof fn law_select_then_selected(s: StoreView, id: Seq<char>)
    requires
        exists|k: int| 0 <= k < s.projects.len() && (#[trigger] s.projects[k]).id == id,
    ensures
        ({
            let t = StoreView { workspace: WorkspaceView { selected_project_id: Some(id), ..s.workspace }, ..s };
            selected_project(t) matches Some(p) && p.id == id
        }),
{
    let k = choose|k: int| 0 <= k < s.projects.len() && (#[trigger] s.projects[k]).id == id;
    lemma_first_index_bounds(s.projects, project_is_id(id));
    assert(project_is_id(id)(s.projects[k]));
}

/// Putting a saved project into the store and looking it up by its id gives it back;
/// the other projects stay.
pub proof fn law_sync_then_found(projects: Seq<ProjectView>, p: ProjectView)
    ensures
        ({
            let after = project_synced(projects, p);
            let i = project_index_of(after, p.id);
            i < after.len() && after[i] == p
        }),
        project_synced(projects, p).len() >= projects.len(),
{
    lemma_first_index_bounds(projects, project_is_id(p.id));
    let i0 = project_index_of(projects, p.id);
    let after = project_synced(projects, p);
    if i0 < projects.len() {
        assert forall|k: int| 0 <= k < i0 implies !project_is_id(p.id)(#[trigger] after[k]) by {
            assert(after[k] == projects[k]);
            assert(!project_is_id(p.id)(projects[k]));
        }
        lemma_first_index(after, project_is_id(p.id), i0);
    } else {
        assert forall|k: int| 0 <= k < projects.len() implies !project_is_id(p.id)(#[trigger] after[k]) by {
            assert(after[k] == projects[k]);
            assert(!project_is_id(p.id)(projects[k]));
        }
        lemma_first_index(after, project_is_id(p.id), projects.len() as int);
    }
}

} // verus!
