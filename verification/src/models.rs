//! The records that a project is made of, and their mathematical views.
use vstd::prelude::*;

verus! {

/// The characters of an optional string.
pub open spec fn opt_view(o: Option<String>) -> Option<Seq<char>> {
    match o {
        Some(s) => Some(s@),
        None => None,
    }
}

/// The characters of each string of a list.
pub open spec fn strings_view(v: Seq<String>) -> Seq<Seq<char>> {
    v.map_values(|s: String| s@)
}

pub open spec fn url_views(s: Seq<VisitedUrlRecord>) -> Seq<UrlView> {
    s.map_values(|x: VisitedUrlRecord| x@)
}

pub open spec fn tab_views(s: Seq<TabUsageRecord>) -> Seq<TabView> {
    s.map_values(|x: TabUsageRecord| x@)
}

pub open spec fn app_views(s: Seq<AppUsageRecord>) -> Seq<AppView> {
    s.map_values(|x: AppUsageRecord| x@)
}

pub open spec fn stage_url_views(s: Seq<StageUrlRecord>) -> Seq<StageUrlView> {
    s.map_values(|x: StageUrlRecord| x@)
}

pub open spec fn stage_tab_views(s: Seq<StageTabRecord>) -> Seq<StageTabView> {
    s.map_values(|x: StageTabRecord| x@)
}

pub open spec fn stage_app_views(s: Seq<StageAppRecord>) -> Seq<StageAppView> {
    s.map_values(|x: StageAppRecord| x@)
}

pub open spec fn stage_views(s: Seq<ProjectStageRecord>) -> Seq<StageView> {
    s.map_values(|x: ProjectStageRecord| x@)
}

pub open spec fn snapshot_views(s: Seq<SessionStageSnapshot>) -> Seq<SnapshotView> {
    s.map_values(|x: SessionStageSnapshot| x@)
}

pub open spec fn session_views(s: Seq<SessionRecord>) -> Seq<SessionView> {
    s.map_values(|x: SessionRecord| x@)
}

pub open spec fn project_views(s: Seq<ProjectRecord>) -> Seq<ProjectView> {
    s.map_values(|x: ProjectRecord| x@)
}

pub open spec fn category_views(s: Seq<Category>) -> Seq<CategoryView> {
    s.map_values(|x: Category| x@)
}

pub fn clone_opt(o: &Option<String>) -> (res: Option<String>)
    ensures
        opt_view(res) == opt_view(*o),
{
    match o {
        Some(s) => Some(s.clone()),
        None => None,
    }
}

pub fn clone_strings(v: &Vec<String>) -> (res: Vec<String>)
    ensures
        strings_view(res@) == strings_view(v@),
{
    let mut out: Vec<String> = Vec::new();
    let mut i: usize = 0;
    while i < v.len()
        invariant
            i <= v.len(),
            strings_view(out@) == strings_view(v@.take(i as int)),
        decreases v.len() - i,
    {
        out.push(v[i].clone());
        assert(strings_view(v@.take(i + 1)) =~= strings_view(v@.take(i as int)).push(v@[i as int]@));
        i = i + 1;
    }
    assert(v@.take(v.len() as int) =~= v@);
    out
}

/// One link visited inside a browser tab.
#[derive(Debug, Default)]
pub struct VisitedUrlRecord {
    pub url: String,
    pub title: String,
    pub last_seen_at: String,
    pub hits: u64,
    pub enabled: bool,
    pub time_seconds: u64,
}

#[verifier::ext_equal]
pub struct UrlView {
    pub url: Seq<char>,
    pub title: Seq<char>,
    pub last_seen_at: Seq<char>,
    pub hits: u64,
    pub enabled: bool,
    pub time_seconds: u64,
}

impl View for VisitedUrlRecord {
    type V = UrlView;

    open spec fn view(&self) -> UrlView {
        UrlView {
            url: self.url@,
            title: self.title@,
            last_seen_at: self.last_seen_at@,
            hits: self.hits,
            enabled: self.enabled,
            time_seconds: self.time_seconds,
        }
    }
}

/// One site (tab) of a browser.
#[derive(Debug, Default)]
pub struct TabUsageRecord {
    pub key: String,
    pub title: String,
    pub url: Option<String>,
    pub urls: Vec<VisitedUrlRecord>,
    pub favicon_url: Option<String>,
    pub enabled: bool,
    pub time_seconds: u64,
}

#[verifier::ext_equal]
pub struct TabView {
    pub key: Seq<char>,
    pub title: Seq<char>,
    pub url: Option<Seq<char>>,
    pub urls: Seq<UrlView>,
    pub favicon_url: Option<Seq<char>>,
    pub enabled: bool,
    pub time_seconds: u64,
}

impl View for TabUsageRecord {
    type V = TabView;

    open spec fn view(&self) -> TabView {
        TabView {
            key: self.key@,
            title: self.title@,
            url: opt_view(self.url),
            urls: url_views(self.urls@),
            favicon_url: opt_view(self.favicon_url),
            enabled: self.enabled,
            time_seconds: self.time_seconds,
        }
    }
}

/// One application, with the time spent in it.
#[derive(Debug, Default)]
pub struct AppUsageRecord {
    pub key: String,
    pub name: String,
    pub process_name: String,
    pub process_path: String,
    pub icon_data_url: Option<String>,
    pub kind: String,
    pub enabled: bool,
    pub time_seconds: u64,
    pub tabs: Vec<TabUsageRecord>,
}

#[verifier::ext_equal]
pub struct AppView {
    pub key: Seq<char>,
    pub name: Seq<char>,
    pub process_name: Seq<char>,
    pub process_path: Seq<char>,
    pub icon_data_url: Option<Seq<char>>,
    pub kind: Seq<char>,
    pub enabled: bool,
    pub time_seconds: u64,
    pub tabs: Seq<TabView>,
}

impl View for AppUsageRecord {
    type V = AppView;

    open spec fn view(&self) -> AppView {
        AppView {
            key: self.key@,
            name: self.name@,
            process_name: self.process_name@,
            process_path: self.process_path@,
            icon_data_url: opt_view(self.icon_data_url),
            kind: self.kind@,
            enabled: self.enabled,
            time_seconds: self.time_seconds,
            tabs: tab_views(self.tabs@),
        }
    }
}

/// Whether a link is counted in one stage.
#[derive(Debug, Default)]
pub struct StageUrlRecord {
    pub url: String,
    pub enabled: bool,
}

#[verifier::ext_equal]
pub struct StageUrlView {
    pub url: Seq<char>,
    pub enabled: bool,
}

impl View for StageUrlRecord {
    type V = StageUrlView;

    open spec fn view(&self) -> StageUrlView {
        StageUrlView { url: self.url@, enabled: self.enabled }
    }
}

/// Whether a tab, and its links, are counted in one stage.
#[derive(Debug, Default)]
pub struct StageTabRecord {
    pub tab_key: String,
    pub enabled: bool,
    pub urls: Vec<StageUrlRecord>,
}

#[verifier::ext_equal]
pub struct StageTabView {
    pub tab_key: Seq<char>,
    pub enabled: bool,
    pub urls: Seq<StageUrlView>,
}

impl View for StageTabRecord {
    type V = StageTabView;

    open spec fn view(&self) -> StageTabView {
        StageTabView {
            tab_key: self.tab_key@,
            enabled: self.enabled,
            urls: stage_url_views(self.urls@),
        }
    }
}

/// Whether an application, and its tabs, are counted in one stage.
#[derive(Debug, Default)]
pub struct StageAppRecord {
    pub app_key: String,
    pub enabled: bool,
    pub tabs: Vec<StageTabRecord>,
}

#[verifier::ext_equal]
pub struct StageAppView {
    pub app_key: Seq<char>,
    pub enabled: bool,
    pub tabs: Seq<StageTabView>,
}

impl View for StageAppRecord {
    type V = StageAppView;

    open spec fn view(&self) -> StageAppView {
        StageAppView {
            app_key: self.app_key@,
            enabled: self.enabled,
            tabs: stage_tab_views(self.tabs@),
        }
    }
}

/// A stage of a project.
#[derive(Debug, Default)]
pub struct ProjectStageRecord {
    pub id: String,
    pub name: String,
    pub order: usize,
    pub created_at: String,
    pub updated_at: String,
    pub apps: Vec<StageAppRecord>,
}

#[verifier::ext_equal]
pub struct StageView {
    pub id: Seq<char>,
    pub name: Seq<char>,
    pub order: usize,
    pub created_at: Seq<char>,
    pub updated_at: Seq<char>,
    pub apps: Seq<StageAppView>,
}

impl View for ProjectStageRecord {
    type V = StageView;

    open spec fn view(&self) -> StageView {
        StageView {
            id: self.id@,
            name: self.name@,
            order: self.order,
            created_at: self.created_at@,
            updated_at: self.updated_at@,
            apps: stage_app_views(self.apps@),
        }
    }
}

/// The stage a session was recorded under, as it was named then.
#[derive(Debug, Default)]
pub struct SessionStageSnapshot {
    pub id: String,
    pub name: String,
}

#[verifier::ext_equal]
pub struct SnapshotView {
    pub id: Seq<char>,
    pub name: Seq<char>,
}

impl View for SessionStageSnapshot {
    type V = SnapshotView;

    open spec fn view(&self) -> SnapshotView {
        SnapshotView { id: self.id@, name: self.name@ }
    }
}

/// One recording session.
#[derive(Debug, Default)]
pub struct SessionRecord {
    pub id: String,
    pub started_at: String,
    pub stopped_at: Option<String>,
    pub duration_seconds: u64,
    pub app_count: usize,
    pub browser_count: usize,
    pub stages: Vec<SessionStageSnapshot>,
}

#[verifier::ext_equal]
pub struct SessionView {
    pub id: Seq<char>,
    pub started_at: Seq<char>,
    pub stopped_at: Option<Seq<char>>,
    pub duration_seconds: u64,
    pub app_count: usize,
    pub browser_count: usize,
    pub stages: Seq<SnapshotView>,
}

impl View for SessionRecord {
    type V = SessionView;

    open spec fn view(&self) -> SessionView {
        SessionView {
            id: self.id@,
            started_at: self.started_at@,
            stopped_at: opt_view(self.stopped_at),
            duration_seconds: self.duration_seconds,
            app_count: self.app_count,
            browser_count: self.browser_count,
            stages: snapshot_views(self.stages@),
        }
    }
}

/// A project with everything recorded for it.
#[derive(Debug, Default)]
pub struct ProjectRecord {
    pub id: String,
    pub name: String,
    pub client: String,
    pub note: String,
    pub created_at: String,
    pub updated_at: String,
    pub sessions: Vec<SessionRecord>,
    pub apps: Vec<AppUsageRecord>,
    pub selected_stage_ids: Vec<String>,
    pub stages: Vec<ProjectStageRecord>,
    pub category_id: Option<String>,
    pub color: Option<String>,
}

#[verifier::ext_equal]
pub struct ProjectView {
    pub id: Seq<char>,
    pub name: Seq<char>,
    pub client: Seq<char>,
    pub note: Seq<char>,
    pub created_at: Seq<char>,
    pub updated_at: Seq<char>,
    pub sessions: Seq<SessionView>,
    pub apps: Seq<AppView>,
    pub selected_stage_ids: Seq<Seq<char>>,
    pub stages: Seq<StageView>,
    pub category_id: Option<Seq<char>>,
    pub color: Option<Seq<char>>,
}

impl View for ProjectRecord {
    type V = ProjectView;

    open spec fn view(&self) -> ProjectView {
        ProjectView {
            id: self.id@,
            name: self.name@,
            client: self.client@,
            note: self.note@,
            created_at: self.created_at@,
            updated_at: self.updated_at@,
            sessions: session_views(self.sessions@),
            apps: app_views(self.apps@),
            selected_stage_ids: strings_view(self.selected_stage_ids@),
            stages: stage_views(self.stages@),
            category_id: opt_view(self.category_id),
            color: opt_view(self.color),
        }
    }
}

/// The short form of a project shown in lists.
#[derive(Debug, Default)]
pub struct ProjectSummary {
    pub id: String,
    pub name: String,
    pub client: String,
    pub updated_at: String,
}

impl ProjectRecord {
    /// The project's id, name, client and time of last change.
    pub fn summary(&self) -> (res: ProjectSummary)
        ensures
            res.id@ == self.id@,
            res.name@ == self.name@,
            res.client@ == self.client@,
            res.updated_at@ == self.updated_at@,
    {
        ProjectSummary {
            id: self.id.clone(),
            name: self.name.clone(),
            client: self.client.clone(),
            updated_at: self.updated_at.clone(),
        }
    }
}

/// What the tracker saw in the foreground window at one moment.
#[derive(Debug, Default)]
pub struct WindowObservation {
    pub process_name: String,
    pub process_path: String,
    pub icon_data_url: Option<String>,
    pub window_title: String,
    pub browser_name: Option<String>,
    pub tab_title: Option<String>,
    pub url: Option<String>,
    pub favicon_url: Option<String>,
}

#[verifier::ext_equal]
pub struct ObservationView {
    pub process_name: Seq<char>,
    pub process_path: Seq<char>,
    pub icon_data_url: Option<Seq<char>>,
    pub window_title: Seq<char>,
    pub browser_name: Option<Seq<char>>,
    pub tab_title: Option<Seq<char>>,
    pub url: Option<Seq<char>>,
    pub favicon_url: Option<Seq<char>>,
}

impl View for WindowObservation {
    type V = ObservationView;

    open spec fn view(&self) -> ObservationView {
        ObservationView {
            process_name: self.process_name@,
            process_path: self.process_path@,
            icon_data_url: opt_view(self.icon_data_url),
            window_title: self.window_title@,
            browser_name: opt_view(self.browser_name),
            tab_title: opt_view(self.tab_title),
            url: opt_view(self.url),
            favicon_url: opt_view(self.favicon_url),
        }
    }
}

/// A category that projects can be filed under.
#[derive(Debug, Default)]
pub struct Category {
    pub id: String,
    pub name: String,
    pub color: String,
    pub icon: String,
    pub order: usize,
    pub created_at: String,
    pub updated_at: String,
}

#[verifier::ext_equal]
pub struct CategoryView {
    pub id: Seq<char>,
    pub name: Seq<char>,
    pub color: Seq<char>,
    pub icon: Seq<char>,
    pub order: usize,
    pub created_at: Seq<char>,
    pub updated_at: Seq<char>,
}

impl View for Category {
    type V = CategoryView;

    open spec fn view(&self) -> CategoryView {
        CategoryView {
            id: self.id@,
            name: self.name@,
            color: self.color@,
            icon: self.icon@,
            order: self.order,
            created_at: self.created_at@,
            updated_at: self.updated_at@,
        }
    }
}

/// The tracker's state as shown to the interface.
#[derive(Debug, Default)]
pub struct TrackerPayload {
    pub status: String,
    pub active_project_id: Option<String>,
    pub running_since: Option<String>,
}

/// The user's settings as shown to the interface.
#[derive(Debug, Default)]
pub struct AppSettings {
    pub autostart: bool,
    pub language: String,
}

/// Everything the interface shows on its main screen.
#[derive(Debug, Default)]
pub struct AppPayload {
    pub tracker: TrackerPayload,
    pub settings: AppSettings,
    pub projects: Vec<ProjectSummary>,
    pub selected_project: Option<ProjectRecord>,
    pub categories: Vec<Category>,
}

impl VisitedUrlRecord {
    /// A copy with the same contents.
    pub fn duplicate(&self) -> (res: Self)
        ensures
            res@ == self@,
    {
        let res = VisitedUrlRecord {
            url: self.url.clone(),
            title: self.title.clone(),
            last_seen_at: self.last_seen_at.clone(),
            hits: self.hits,
            enabled: self.enabled,
            time_seconds: self.time_seconds,
        };
        assert(res@ =~= self@);
        res
    }

    /// Copies of each record, in order.
    pub fn duplicate_all(v: &Vec<VisitedUrlRecord>) -> (res: Vec<VisitedUrlRecord>)
        ensures
            url_views(res@) == url_views(v@),
    {
        let mut out: Vec<VisitedUrlRecord> = Vec::new();
        let mut i: usize = 0;
        while i < v.len()
            invariant
                i <= v.len(),
                url_views(out@) == url_views(v@.take(i as int)),
            decreases v.len() - i,
        {
            out.push(v[i].duplicate());
            assert(url_views(v@.take(i + 1)) =~= url_views(v@.take(i as int)).push(v@[i as int]@));
            i = i + 1;
        }
        assert(v@.take(i as int) =~= v@);
        out
    }
}

impl TabUsageRecord {
    /// A copy with the same contents.
    pub fn duplicate(&self) -> (res: Self)
        ensures
            res@ == self@,
    {
        let res = TabUsageRecord {
            key: self.key.clone(),
            title: self.title.clone(),
            url: clone_opt(&self.url),
            urls: VisitedUrlRecord::duplicate_all(&self.urls),
            favicon_url: clone_opt(&self.favicon_url),
            enabled: self.enabled,
            time_seconds: self.time_seconds,
        };
        assert(res@ =~= self@);
        res
    }

    /// Copies of each record, in order.
    pub fn duplicate_all(v: &Vec<TabUsageRecord>) -> (res: Vec<TabUsageRecord>)
        ensures
            tab_views(res@) == tab_views(v@),
    {
        let mut out: Vec<TabUsageRecord> = Vec::new();
        let mut i: usize = 0;
        while i < v.len()
            invariant
                i <= v.len(),
                tab_views(out@) == tab_views(v@.take(i as int)),
            decreases v.len() - i,
        {
            out.push(v[i].duplicate());
            assert(tab_views(v@.take(i + 1)) =~= tab_views(v@.take(i as int)).push(v@[i as int]@));
            i = i + 1;
        }
        assert(v@.take(i as int) =~= v@);
        out
    }
}

impl AppUsageRecord {
    /// A copy with the same contents.
    pub fn duplicate(&self) -> (res: Self)
        ensures
            res@ == self@,
    {
        let res = AppUsageRecord {
            key: self.key.clone(),
            name: self.name.clone(),
            process_name: self.process_name.clone(),
            process_path: self.process_path.clone(),
            icon_data_url: clone_opt(&self.icon_data_url),
            kind: self.kind.clone(),
            enabled: self.enabled,
            time_seconds: self.time_seconds,
            tabs: TabUsageRecord::duplicate_all(&self.tabs),
        };
        assert(res@ =~= self@);
        res
    }

    /// Copies of each record, in order.
    pub fn duplicate_all(v: &Vec<AppUsageRecord>) -> (res: Vec<AppUsageRecord>)
        ensures
            app_views(res@) == app_views(v@),
    {
        let mut out: Vec<AppUsageRecord> = Vec::new();
        let mut i: usize = 0;
        while i < v.len()
            invariant
                i <= v.len(),
                app_views(out@) == app_views(v@.take(i as int)),
            decreases v.len() - i,
        {
            out.push(v[i].duplicate());
            assert(app_views(v@.take(i + 1)) =~= app_views(v@.take(i as int)).push(v@[i as int]@));
            i = i + 1;
        }
        assert(v@.take(i as int) =~= v@);
        out
    }
}

impl StageUrlRecord {
    /// A copy with the same contents.
    pub fn duplicate(&self) -> (res: Self)
        ensures
            res@ == self@,
    {
        let res = StageUrlRecord {
            url: self.url.clone(),
            enabled: self.enabled,
        };
        assert(res@ =~= self@);
        res
    }

    /// Copies of each record, in order.
    pub fn duplicate_all(v: &Vec<StageUrlRecord>) -> (res: Vec<StageUrlRecord>)
        ensures
            stage_url_views(res@) == stage_url_views(v@),
    {
        let mut out: Vec<StageUrlRecord> = Vec::new();
        let mut i: usize = 0;
        while i < v.len()
            invariant
                i <= v.len(),
                stage_url_views(out@) == stage_url_views(v@.take(i as int)),
            decreases v.len() - i,
        {
            out.push(v[i].duplicate());
            assert(stage_url_views(v@.take(i + 1)) =~= stage_url_views(v@.take(i as int)).push(v@[i as int]@));
            i = i + 1;
        }
        assert(v@.take(i as int) =~= v@);
        out
    }
}

impl StageTabRecord {
    /// A copy with the same contents.
    pub fn duplicate(&self) -> (res: Self)
        ensures
            res@ == self@,
    {
        let res = StageTabRecord {
            tab_key: self.tab_key.clone(),
            enabled: self.enabled,
            urls: StageUrlRecord::duplicate_all(&self.urls),
        };
        assert(res@ =~= self@);
        res
    }

    /// Copies of each record, in order.
    pub fn duplicate_all(v: &Vec<StageTabRecord>) -> (res: Vec<StageTabRecord>)
        ensures
            stage_tab_views(res@) == stage_tab_views(v@),
    {
        let mut out: Vec<StageTabRecord> = Vec::new();
        let mut i: usize = 0;
        while i < v.len()
            invariant
                i <= v.len(),
                stage_tab_views(out@) == stage_tab_views(v@.take(i as int)),
            decreases v.len() - i,
        {
            out.push(v[i].duplicate());
            assert(stage_tab_views(v@.take(i + 1)) =~= stage_tab_views(v@.take(i as int)).push(v@[i as int]@));
            i = i + 1;
        }
        assert(v@.take(i as int) =~= v@);
        out
    }
}

impl StageAppRecord {
    /// A copy with the same contents.
    pub fn duplicate(&self) -> (res: Self)
        ensures
            res@ == self@,
    {
        let res = StageAppRecord {
            app_key: self.app_key.clone(),
            enabled: self.enabled,
            tabs: StageTabRecord::duplicate_all(&self.tabs),
        };
        assert(res@ =~= self@);
        res
    }

    /// Copies of each record, in order.
    pub fn duplicate_all(v: &Vec<StageAppRecord>) -> (res: Vec<StageAppRecord>)
        ensures
            stage_app_views(res@) == stage_app_views(v@),
    {
        let mut out: Vec<StageAppRecord> = Vec::new();
        let mut i: usize = 0;
        while i < v.len()
            invariant
                i <= v.len(),
                stage_app_views(out@) == stage_app_views(v@.take(i as int)),
            decreases v.len() - i,
        {
            out.push(v[i].duplicate());
            assert(stage_app_views(v@.take(i + 1)) =~= stage_app_views(v@.take(i as int)).push(v@[i as int]@));
            i = i + 1;
        }
        assert(v@.take(i as int) =~= v@);
        out
    }
}

impl ProjectStageRecord {
    /// A copy with the same contents.
    pub fn duplicate(&self) -> (res: Self)
        ensures
            res@ == self@,
    {
        let res = ProjectStageRecord {
            id: self.id.clone(),
            name: self.name.clone(),
            order: self.order,
            created_at: self.created_at.clone(),
            updated_at: self.updated_at.clone(),
            apps: StageAppRecord::duplicate_all(&self.apps),
        };
        assert(res@ =~= self@);
        res
    }

    /// Copies of each record, in order.
    pub fn duplicate_all(v: &Vec<ProjectStageRecord>) -> (res: Vec<ProjectStageRecord>)
        ensures
            stage_views(res@) == stage_views(v@),
    {
        let mut out: Vec<ProjectStageRecord> = Vec::new();
        let mut i: usize = 0;
        while i < v.len()
            invariant
                i <= v.len(),
                stage_views(out@) == stage_views(v@.take(i as int)),
            decreases v.len() - i,
        {
            out.push(v[i].duplicate());
            assert(stage_views(v@.take(i + 1)) =~= stage_views(v@.take(i as int)).push(v@[i as int]@));
            i = i + 1;
        }
        assert(v@.take(i as int) =~= v@);
        out
    }
}

impl SessionStageSnapshot {
    /// A copy with the same contents.
    pub fn duplicate(&self) -> (res: Self)
        ensures
            res@ == self@,
    {
        let res = SessionStageSnapshot {
            id: self.id.clone(),
            name: self.name.clone(),
        };
        assert(res@ =~= self@);
        res
    }

    /// Copies of each record, in order.
    pub fn duplicate_all(v: &Vec<SessionStageSnapshot>) -> (res: Vec<SessionStageSnapshot>)
        ensures
            snapshot_views(res@) == snapshot_views(v@),
    {
        let mut out: Vec<SessionStageSnapshot> = Vec::new();
        let mut i: usize = 0;
        while i < v.len()
            invariant
                i <= v.len(),
                snapshot_views(out@) == snapshot_views(v@.take(i as int)),
            decreases v.len() - i,
        {
            out.push(v[i].duplicate());
            assert(snapshot_views(v@.take(i + 1)) =~= snapshot_views(v@.take(i as int)).push(v@[i as int]@));
            i = i + 1;
        }
        assert(v@.take(i as int) =~= v@);
        out
    }
}

impl SessionRecord {
    /// A copy with the same contents.
    pub fn duplicate(&self) -> (res: Self)
        ensures
            res@ == self@,
    {
        let res = SessionRecord {
            id: self.id.clone(),
            started_at: self.started_at.clone(),
            stopped_at: clone_opt(&self.stopped_at),
            duration_seconds: self.duration_seconds,
            app_count: self.app_count,
            browser_count: self.browser_count,
            stages: SessionStageSnapshot::duplicate_all(&self.stages),
        };
        assert(res@ =~= self@);
        res
    }

    /// Copies of each record, in order.
    pub fn duplicate_all(v: &Vec<SessionRecord>) -> (res: Vec<SessionRecord>)
        ensures
            session_views(res@) == session_views(v@),
    {
        let mut out: Vec<SessionRecord> = Vec::new();
        let mut i: usize = 0;
        while i < v.len()
            invariant
                i <= v.len(),
                session_views(out@) == session_views(v@.take(i as int)),
            decreases v.len() - i,
        {
            out.push(v[i].duplicate());
            assert(session_views(v@.take(i + 1)) =~= session_views(v@.take(i as int)).push(v@[i as int]@));
            i = i + 1;
        }
        assert(v@.take(i as int) =~= v@);
        out
    }
}

impl ProjectRecord {
    /// A copy with the same contents.
    pub fn duplicate(&self) -> (res: Self)
        ensures
            res@ == self@,
    {
        let res = ProjectRecord {
            id: self.id.clone(),
            name: self.name.clone(),
            client: self.client.clone(),
            note: self.note.clone(),
            created_at: self.created_at.clone(),
            updated_at: self.updated_at.clone(),
            sessions: SessionRecord::duplicate_all(&self.sessions),
            apps: AppUsageRecord::duplicate_all(&self.apps),
            selected_stage_ids: clone_strings(&self.selected_stage_ids),
            stages: ProjectStageRecord::duplicate_all(&self.stages),
            category_id: clone_opt(&self.category_id),
            color: clone_opt(&self.color),
        };
        assert(res@ =~= self@);
        res
    }

    /// Copies of each record, in order.
    pub fn duplicate_all(v: &Vec<ProjectRecord>) -> (res: Vec<ProjectRecord>)
        ensures
            project_views(res@) == project_views(v@),
    {
        let mut out: Vec<ProjectRecord> = Vec::new();
        let mut i: usize = 0;
        while i < v.len()
            invariant
                i <= v.len(),
                project_views(out@) == project_views(v@.take(i as int)),
            decreases v.len() - i,
        {
            out.push(v[i].duplicate());
            assert(project_views(v@.take(i + 1)) =~= project_views(v@.take(i as int)).push(v@[i as int]@));
            i = i + 1;
        }
        assert(v@.take(i as int) =~= v@);
        out
    }
}

impl Category {
    /// A copy with the same contents.
    pub fn duplicate(&self) -> (res: Self)
        ensures
            res@ == self@,
    {
        let res = Category {
            id: self.id.clone(),
            name: self.name.clone(),
            color: self.color.clone(),
            icon: self.icon.clone(),
            order: self.order,
            created_at: self.created_at.clone(),
            updated_at: self.updated_at.clone(),
        };
        assert(res@ =~= self@);
        res
    }

    /// Copies of each record, in order.
    pub fn duplicate_all(v: &Vec<Category>) -> (res: Vec<Category>)
        ensures
            category_views(res@) == category_views(v@),
    {
        let mut out: Vec<Category> = Vec::new();
        let mut i: usize = 0;
        while i < v.len()
            invariant
                i <= v.len(),
                category_views(out@) == category_views(v@.take(i as int)),
            decreases v.len() - i,
        {
            out.push(v[i].duplicate());
            assert(category_views(v@.take(i + 1)) =~= category_views(v@.take(i as int)).push(v@[i as int]@));
            i = i + 1;
        }
        assert(v@.take(i as int) =~= v@);
        out
    }
}

} // verus!
