//! The tracker: started, paused and stopped by the user, fed one sample a second while it
//! runs, and turning what it gathered into a session of the project when it stops.
use vstd::prelude::*;
use crate::create::new_id;
use crate::models::{
    opt_view, snapshot_views, ObservationView, ProjectRecord, ProjectView, SessionRecord,
    SessionStageSnapshot, SessionView, SnapshotView, StageView, TrackerPayload, WindowObservation,
    strings_view, stage_views, clone_opt, category_views, AppPayload, Category, ProjectSummary,
};
use crate::names::language_of;
use crate::seqs::lemma_first_index_bounds;
use crate::store::{
    app_settings, project_is_id, find_project, project_index_of, selected_project, selected_project_from_store,
    StoreData, StoreView,
};
use crate::text::{lowercase, owned, trim};
use crate::tracking::{
    app_index_of, apps_tab_touched, apps_touched, now_iso, sat_add, touch_app_time,
    touch_tab_time_at,
};

verus! {

/// What the tracker is doing.
#[derive(Debug, Clone, Copy, PartialEq, Eq, Structural)]
pub enum TrackerStatus {
    Stopped,
    Running,
    Paused,
}

impl TrackerStatus {
    /// The status as the interface names it.
    pub open spec fn text(self) -> Seq<char> {
        match self {
            TrackerStatus::Stopped => "stopped"@,
            TrackerStatus::Running => "running"@,
            TrackerStatus::Paused => "paused"@,
        }
    }

    /// `stopped`, `running` or `paused`.
    pub fn as_text(&self) -> (res: String)
        ensures
            res@ == self.text(),
    {
        match self {
            TrackerStatus::Stopped => owned("stopped"),
            TrackerStatus::Running => owned("running"),
            TrackerStatus::Paused => owned("paused"),
        }
    }
}

/// What a running tracker has gathered since it was started.
#[derive(Debug)]
pub struct TrackerDraft {
    pub started_at: String,
    pub duration_seconds: u64,
    pub app_hits: u64,
    pub browser_hits: u64,
    pub stages: Vec<SessionStageSnapshot>,
}

#[verifier::ext_equal]
pub struct DraftView {
    pub started_at: Seq<char>,
    pub duration_seconds: u64,
    pub app_hits: u64,
    pub browser_hits: u64,
    pub stages: Seq<SnapshotView>,
}

impl View for TrackerDraft {
    type V = DraftView;

    open spec fn view(&self) -> DraftView {
        DraftView {
            started_at: self.started_at@,
            duration_seconds: self.duration_seconds,
            app_hits: self.app_hits,
            browser_hits: self.browser_hits,
            stages: snapshot_views(self.stages@),
        }
    }
}

pub open spec fn draft_view(d: Option<TrackerDraft>) -> Option<DraftView> {
    match d {
        Some(x) => Some(x@),
        None => None,
    }
}

/// The tracker's state.
#[derive(Debug)]
pub struct TrackerRuntime {
    pub status: TrackerStatus,
    pub active_project_id: Option<String>,
    pub running_since: Option<String>,
    pub draft: Option<TrackerDraft>,
}

#[verifier::ext_equal]
pub struct TrackerView {
    pub status: TrackerStatus,
    pub active_project_id: Option<Seq<char>>,
    pub running_since: Option<Seq<char>>,
    pub draft: Option<DraftView>,
}

impl View for TrackerRuntime {
    type V = TrackerView;

    open spec fn view(&self) -> TrackerView {
        TrackerView {
            status: self.status,
            active_project_id: opt_view(self.active_project_id),
            running_since: opt_view(self.running_since),
            draft: draft_view(self.draft),
        }
    }
}

/// A consistent tracker: whenever it runs, it records for a project, since a known time,
/// into a draft.
pub open spec fn tracker_ok(t: TrackerView) -> bool {
    t.status == TrackerStatus::Running ==> {
        &&& t.active_project_id is Some
        &&& t.running_since is Some
        &&& t.draft is Some
    }
}

/// The tracker at launch: stopped, pointed at the selected project.
pub open spec fn fresh_tracker(selected_project_id: Option<Seq<char>>) -> TrackerView {
    TrackerView {
        status: TrackerStatus::Stopped,
        active_project_id: selected_project_id,
        running_since: None,
        draft: None,
    }
}

/// The tracker at launch (see `fresh_tracker`).
pub fn new_tracker(selected_project_id: Option<String>) -> (res: TrackerRuntime)
    ensures
        res@ == fresh_tracker(opt_view(selected_project_id)),
{
    TrackerRuntime {
        status: TrackerStatus::Stopped,
        active_project_id: selected_project_id,
        running_since: None,
        draft: None,
    }
}

/// Whether the tracker takes a sample this second: only while it runs.
pub fn should_sample(tracker: &TrackerRuntime) -> (res: bool)
    ensures
        res == (tracker@.status == TrackerStatus::Running),
{
    tracker.status == TrackerStatus::Running
}

// ---------------------------------------------------------------- starting and pausing

pub open spec fn snapshot_of(s: StageView) -> SnapshotView {
    SnapshotView { id: s.id, name: s.name }
}

/// The stages whose ids are selected, in the project's order, as a session records them.
pub open spec fn selected_snapshots(stages: Seq<StageView>, ids: Seq<Seq<char>>) -> Seq<SnapshotView>
    decreases stages.len(),
{
    if stages.len() == 0 {
        Seq::empty()
    } else {
        let rest = selected_snapshots(stages.drop_last(), ids);
        if ids.contains(stages.last().id) {
            rest.push(snapshot_of(stages.last()))
        } else {
            rest
        }
    }
}

fn contains_id(ids: &Vec<String>, id: &String) -> (res: bool)
    ensures
        res == strings_view(ids@).contains(id@),
{
    let ghost s = strings_view(ids@);
    let mut k: usize = 0;
    while k < ids.len()
        invariant
            k <= ids.len(),
            s == strings_view(ids@),
            forall|m: int| 0 <= m < k ==> s[m] != id@,
        decreases ids.len() - k,
    {
        if ids[k] == *id {
            assert(s[k as int] == id@);
            return true;
        }
        k = k + 1;
    }
    false
}

/// The selected stages of a project, as a session records them (see `selected_snapshots`).
pub fn selected_stage_snapshots(project: &ProjectRecord) -> (res: Vec<SessionStageSnapshot>)
    ensures
        snapshot_views(res@) == selected_snapshots(project@.stages, project@.selected_stage_ids),
{
    let ghost stages = project@.stages;
    let ghost ids = project@.selected_stage_ids;
    let mut out: Vec<SessionStageSnapshot> = Vec::new();
    let mut k: usize = 0;
    while k < project.stages.len()
        invariant
            k <= project.stages.len(),
            stages == stage_views(project.stages@),
            ids == strings_view(project.selected_stage_ids@),
            snapshot_views(out@) == selected_snapshots(stages.take(k as int), ids),
        decreases project.stages.len() - k,
    {
        let ghost before = out@;
        assert(stages.take(k + 1).drop_last() =~= stages.take(k as int));
        if contains_id(&project.selected_stage_ids, &project.stages[k].id) {
            out.push(SessionStageSnapshot { id: project.stages[k].id.clone(), name: project.stages[k].name.clone() });
            assert(snapshot_views(out@) =~= snapshot_views(before).push(snapshot_of(stages[k as int])));
        }
        k = k + 1;
    }
    assert(stages.take(k as int) =~= stages);
    out
}

/// Why the tracker cannot start, if it cannot: no project selected, or the selected one
/// is not held.
pub open spec fn start_failure(s: StoreView) -> Option<Seq<char>> {
    match s.workspace.selected_project_id {
        None => Some("No project selected"@),
        Some(id) => if project_index_of(s.projects, id) < s.projects.len() {
            None
        } else {
            Some("Project not found"@)
        },
    }
}

/// A new draft, started at `now`, recording the project's selected stages.
pub open spec fn fresh_draft(p: ProjectView, now: Seq<char>) -> DraftView {
    DraftView {
        started_at: now,
        duration_seconds: 0,
        app_hits: 0,
        browser_hits: 0,
        stages: selected_snapshots(p.stages, p.selected_stage_ids),
    }
}

/// The tracker once started for the selected project: a running tracker is left as it
/// is; a paused one runs again with its draft and starting time kept.
pub open spec fn started(t: TrackerView, s: StoreView, now: Seq<char>) -> TrackerView {
    if t.status == TrackerStatus::Running {
        t
    } else {
        let id = s.workspace.selected_project_id.unwrap();
        let p = s.projects[project_index_of(s.projects, id)];
        TrackerView {
            status: TrackerStatus::Running,
            active_project_id: Some(id),
            running_since: if t.running_since is Some { t.running_since } else { Some(now) },
            draft: if t.draft is Some { t.draft } else { Some(fresh_draft(p, now)) },
        }
    }
}

/// Starts (or resumes) recording the selected project at `now`; fails as
/// `start_failure` says, leaving the tracker as it was.
pub fn start_tracking_at(tracker: &mut TrackerRuntime, store: &StoreData, now: &str) -> (res: Result<(), String>)
    ensures
        res is Ok <==> start_failure(store@) is None,
        res matches Err(e) ==> start_failure(store@) == Some(e@) && final(tracker)@ == old(tracker)@,
        res is Ok ==> final(tracker)@ == started(old(tracker)@, store@, now@),
{
    let project_id = match &store.workspace.selected_project_id {
        Some(id) => id.clone(),
        None => {
            return Err(owned("No project selected"));
        },
    };
    let i = find_project(&store.projects, project_id.as_str());
    if i >= store.projects.len() {
        return Err(owned("Project not found"));
    }
    let selected = selected_stage_snapshots(&store.projects[i]);
    if tracker.status == TrackerStatus::Running {
        return Ok(());
    }
    tracker.status = TrackerStatus::Running;
    tracker.active_project_id = Some(project_id);
    if tracker.running_since.is_none() {
        tracker.running_since = Some(owned(now));
    }
    if tracker.draft.is_none() {
        tracker.draft = Some(TrackerDraft {
            started_at: owned(now),
            duration_seconds: 0,
            app_hits: 0,
            browser_hits: 0,
            stages: selected,
        });
    }
    assert(final(tracker)@ =~= started(old(tracker)@, store@, now@));
    Ok(())
}

/// Starts (or resumes) recording the selected project (see `start_tracking_at`); the
/// starting time is the clock's.
pub fn start_tracking(tracker: &mut TrackerRuntime, store: &StoreData) -> (res: Result<(), String>)
    ensures
        res is Ok <==> start_failure(store@) is None,
        res matches Err(e) ==> start_failure(store@) == Some(e@) && final(tracker)@ == old(tracker)@,
        res is Ok ==> exists|now: Seq<char>| final(tracker)@ == #[trigger] started(old(tracker)@, store@, now),
{
    let now = now_iso();
    start_tracking_at(tracker, store, now.as_str())
}

/// The tracker once paused: it keeps its project, starting time and draft.
pub open spec fn paused(t: TrackerView) -> TrackerView {
    TrackerView { status: TrackerStatus::Paused, ..t }
}

/// Pauses the tracker (see `paused`).
pub fn pause_tracking(tracker: &mut TrackerRuntime)
    ensures
        final(tracker)@ == paused(old(tracker)@),
{
    tracker.status = TrackerStatus::Paused;
}

/// Stages may only be changed while the tracker is stopped.
pub fn ensure_tracker_stopped(tracker: &TrackerRuntime) -> (res: Result<(), String>)
    ensures
        res is Ok <==> tracker@.status == TrackerStatus::Stopped,
        res matches Err(e) ==> e@ == "Изменять этапы можно только при остановленной записи."@,
{
    if tracker.status == TrackerStatus::Stopped {
        Ok(())
    } else {
        Err(owned("Изменять этапы можно только при остановленной записи."))
    }
}

/// What the interface is told of the tracker.
pub fn tracker_payload(tracker: &TrackerRuntime) -> (res: TrackerPayload)
    ensures
        res.status@ == tracker@.status.text(),
        opt_view(res.active_project_id) == tracker@.active_project_id,
        opt_view(res.running_since) == tracker@.running_since,
{
    TrackerPayload {
        status: tracker.status.as_text(),
        active_project_id: clone_opt(&tracker.active_project_id),
        running_since: clone_opt(&tracker.running_since),
    }
}

// ---------------------------------------------------------------- samples

/// The draft after one more second: one more hit for the browser or for an application.
/// Counts stop at `u64::MAX`.
pub open spec fn draft_sampled(d: DraftView, browser: bool) -> DraftView {
    DraftView {
        duration_seconds: sat_add(d.duration_seconds, 1),
        app_hits: if browser { d.app_hits } else { sat_add(d.app_hits, 1) },
        browser_hits: if browser { sat_add(d.browser_hits, 1) } else { d.browser_hits },
        ..d
    }
}

/// The tracker after one sample: only its draft changes.
pub open spec fn tracker_sampled(t: TrackerView, browser: bool) -> TrackerView {
    TrackerView {
        draft: match t.draft {
            Some(d) => Some(draft_sampled(d, browser)),
            None => None,
        },
        ..t
    }
}

/// The project after one second of what was observed: a second for the application
/// and, for a browser, for the site and its link; stamped `now`.
pub open spec fn project_sampled(p: ProjectView, o: ObservationView, now: Seq<char>) -> ProjectView {
    let apps = apps_touched(p.apps, o, 1);
    ProjectView {
        apps: if o.browser_name is Some {
            apps_tab_touched(apps, app_index_of(p.apps, o.process_name), o, 1, now)
        } else {
            apps
        },
        updated_at: now,
        ..p
    }
}

/// Why a sample cannot be recorded, if it cannot: no active project, or the active
/// one is not held.
pub open spec fn sample_failure(t: TrackerView, s: StoreView) -> Option<Seq<char>> {
    match t.active_project_id {
        None => Some("No active project"@),
        Some(id) => if project_index_of(s.projects, id) < s.projects.len() {
            None
        } else {
            Some("Project not found"@)
        },
    }
}

/// Where the active project stands.
pub open spec fn active_index(t: TrackerView, s: StoreView) -> int {
    project_index_of(s.projects, t.active_project_id.unwrap())
}

/// The store after a sample recorded at `now` for the active project.
pub open spec fn store_sampled(t: TrackerView, s: StoreView, o: ObservationView, now: Seq<char>) -> StoreView {
    let i = active_index(t, s);
    StoreView { projects: s.projects.update(i, project_sampled(s.projects[i], o, now)), ..s }
}

/// Records one second of the observed window for the active project, at `now`; returns
/// where that project stands, so that it can be saved. Fails as `sample_failure` says,
/// changing nothing.
pub fn apply_sample_at(
    store: &mut StoreData,
    tracker: &mut TrackerRuntime,
    observation: &WindowObservation,
    now: &str,
) -> (res: Result<usize, String>)
    ensures
        res is Ok <==> sample_failure(old(tracker)@, old(store)@) is None,
        res matches Err(e) ==> {
            &&& sample_failure(old(tracker)@, old(store)@) == Some(e@)
            &&& final(store)@ == old(store)@
            &&& final(tracker)@ == old(tracker)@
        },
        res matches Ok(i) ==> {
            &&& i == active_index(old(tracker)@, old(store)@)
            &&& final(store)@ == store_sampled(old(tracker)@, old(store)@, observation@, now@)
            &&& final(tracker)@ == tracker_sampled(old(tracker)@, observation@.browser_name is Some)
        },
{
    let project_id = match &tracker.active_project_id {
        Some(id) => id.clone(),
        None => {
            return Err(owned("No active project"));
        },
    };
    let i = find_project(&store.projects, project_id.as_str());
    if i >= store.projects.len() {
        return Err(owned("Project not found"));
    }
    let ghost s0 = store@;
    let ghost p0 = store.projects@[i as int]@;
    let browser = observation.browser_name.is_some();
    {
        let project = &mut store.projects[i];
        let app_index = touch_app_time(project, observation, 1);
        if browser {
            touch_tab_time_at(project, app_index, observation, 1, now);
        }
        project.updated_at = owned(now);
        assert(project@ =~= project_sampled(p0, observation@, now@));
    }
    match &mut tracker.draft {
        Some(draft) => {
            if browser {
                draft.browser_hits = draft.browser_hits.saturating_add(1);
            } else {
                draft.app_hits = draft.app_hits.saturating_add(1);
            }
            draft.duration_seconds = draft.duration_seconds.saturating_add(1);
        },
        None => {},
    }
    assert(store@ =~= store_sampled(old(tracker)@, s0, observation@, now@));
    assert(tracker@ =~= tracker_sampled(old(tracker)@, browser));
    Ok(i)
}

/// Records one second of the observed window for the active project (see
/// `apply_sample_at`); the time stamped is the clock's.
pub fn apply_sample(
    store: &mut StoreData,
    tracker: &mut TrackerRuntime,
    observation: &WindowObservation,
) -> (res: Result<usize, String>)
    ensures
        res is Ok <==> sample_failure(old(tracker)@, old(store)@) is None,
        res matches Err(e) ==> {
            &&& sample_failure(old(tracker)@, old(store)@) == Some(e@)
            &&& final(store)@ == old(store)@
            &&& final(tracker)@ == old(tracker)@
        },
        res matches Ok(i) ==> {
            &&& i == active_index(old(tracker)@, old(store)@)
            &&& exists|now: Seq<char>| final(store)@ == #[trigger] store_sampled(old(tracker)@, old(store)@, observation@, now)
            &&& final(tracker)@ == tracker_sampled(old(tracker)@, observation@.browser_name is Some)
        },
{
    let now = now_iso();
    apply_sample_at(store, tracker, observation, now.as_str())
}

// ---------------------------------------------------------------- stopping

/// The session a draft becomes, recorded under `id` and stopped at `now`.
pub open spec fn session_from(d: DraftView, id: Seq<char>, now: Seq<char>) -> SessionView {
    SessionView {
        id: id,
        started_at: d.started_at,
        stopped_at: Some(now),
        duration_seconds: d.duration_seconds,
        app_count: d.app_hits as usize,
        browser_count: d.browser_hits as usize,
        stages: d.stages,
    }
}

/// The project with one more session, stamped `now`.
pub open spec fn with_session(p: ProjectView, session: SessionView, now: Seq<char>) -> ProjectView {
    ProjectView { sessions: p.sessions.push(session), updated_at: now, ..p }
}

/// Closing the draft: with an active project and a draft, the draft is taken; when that
/// project is held, the draft becomes its newest session. The last part says where the
/// project that changed stands.
pub open spec fn finalized(t: TrackerView, s: StoreView, id: Seq<char>, now: Seq<char>) -> (TrackerView, StoreView, Option<int>) {
    match t.active_project_id {
        None => (t, s, None),
        Some(pid) => match t.draft {
            None => (t, s, None),
            Some(d) => {
                let taken = TrackerView { draft: None, ..t };
                let i = project_index_of(s.projects, pid);
                if i < s.projects.len() {
                    let p = with_session(s.projects[i], session_from(d, id, now), now);
                    (taken, StoreView { projects: s.projects.update(i, p), ..s }, Some(i))
                } else {
                    (taken, s, None)
                }
            },
        },
    }
}

pub open spec fn index_view(i: Option<usize>) -> Option<int> {
    match i {
        Some(k) => Some(k as int),
        None => None,
    }
}

/// Closes the draft into a session recorded under `session_id` at `now` (see
/// `finalized`); returns where the project that changed stands, so that it can be saved.
pub fn finalize_session_at(
    tracker: &mut TrackerRuntime,
    store: &mut StoreData,
    session_id: &str,
    now: &str,
) -> (res: Option<usize>)
    ensures
        (final(tracker)@, final(store)@, index_view(res)) == finalized(old(tracker)@, old(store)@, session_id@, now@),
{
    let project_id = match &tracker.active_project_id {
        Some(id) => id.clone(),
        None => {
            return None;
        },
    };
    let draft = match tracker.draft.take() {
        Some(d) => d,
        None => {
            return None;
        },
    };
    let i = find_project(&store.projects, project_id.as_str());
    if i >= store.projects.len() {
        assert(tracker@ =~= finalized(old(tracker)@, old(store)@, session_id@, now@).0);
        return None;
    }
    let ghost s0 = store@;
    let ghost p0 = store.projects@[i as int]@;
    let ghost dv = draft@;
    let session = SessionRecord {
        id: owned(session_id),
        started_at: draft.started_at,
        stopped_at: Some(owned(now)),
        duration_seconds: draft.duration_seconds,
        app_count: draft.app_hits as usize,
        browser_count: draft.browser_hits as usize,
        stages: draft.stages,
    };
    assert(session@ =~= session_from(dv, session_id@, now@));
    {
        let project = &mut store.projects[i];
        project.sessions.push(session);
        project.updated_at = owned(now);
        assert(project@ =~= with_session(p0, session_from(dv, session_id@, now@), now@));
    }
    assert(store@ =~= finalized(old(tracker)@, s0, session_id@, now@).1);
    assert(tracker@ =~= finalized(old(tracker)@, s0, session_id@, now@).0);
    Some(i)
}

/// The tracker once stopped: nothing active, nothing gathered.
pub open spec fn stopped(t: TrackerView) -> TrackerView {
    TrackerView { status: TrackerStatus::Stopped, active_project_id: None, running_since: None, draft: None }
}

/// Stops the tracker: the draft is closed into a session recorded under `session_id` at
/// `now` (see `finalized`), then the tracker is reset. Returns where the project that
/// changed stands, so that it can be saved.
pub fn stop_tracking_at(
    tracker: &mut TrackerRuntime,
    store: &mut StoreData,
    session_id: &str,
    now: &str,
) -> (res: Option<usize>)
    ensures
        final(store)@ == finalized(old(tracker)@, old(store)@, session_id@, now@).1,
        index_view(res) == finalized(old(tracker)@, old(store)@, session_id@, now@).2,
        final(tracker)@ == stopped(old(tracker)@),
{
    let res = finalize_session_at(tracker, store, session_id, now);
    tracker.status = TrackerStatus::Stopped;
    tracker.active_project_id = None;
    tracker.running_since = None;
    tracker.draft = None;
    res
}

/// Stops the tracker (see `stop_tracking_at`); the session gets a random id and the
/// clock's time.
pub fn stop_tracking(tracker: &mut TrackerRuntime, store: &mut StoreData) -> (res: Option<usize>)
    ensures
        exists|id: Seq<char>, now: Seq<char>| {
            &&& final(store)@ == (#[trigger] finalized(old(tracker)@, old(store)@, id, now)).1
            &&& index_view(res) == finalized(old(tracker)@, old(store)@, id, now).2
        },
        final(tracker)@ == stopped(old(tracker)@),
{
    let id = new_id();
    let now = now_iso();
    stop_tracking_at(tracker, store, id.as_str(), now.as_str())
}

// ---------------------------------------------------------------- what the interface shows

/// Short forms of the projects, in order.
pub fn project_summaries(projects: &Vec<ProjectRecord>) -> (res: Vec<ProjectSummary>)
    ensures
        res.len() == projects.len(),
        forall|i: int| 0 <= i < projects.len() ==> {
            &&& (#[trigger] res@[i]).id@ == projects@[i].id@
            &&& res@[i].name@ == projects@[i].name@
            &&& res@[i].client@ == projects@[i].client@
            &&& res@[i].updated_at@ == projects@[i].updated_at@
        },
{
    let mut out: Vec<ProjectSummary> = Vec::new();
    let mut k: usize = 0;
    while k < projects.len()
        invariant
            k <= projects.len(),
            out.len() == k,
            forall|i: int| 0 <= i < k ==> {
                &&& (#[trigger] out@[i]).id@ == projects@[i].id@
                &&& out@[i].name@ == projects@[i].name@
                &&& out@[i].client@ == projects@[i].client@
                &&& out@[i].updated_at@ == projects@[i].updated_at@
            },
        decreases projects.len() - k,
    {
        out.push(projects[k].summary());
        k = k + 1;
    }
    out
}

/// Everything the main screen shows: the tracker, the settings, the projects in short,
/// the selected project in full, and the categories.
pub fn app_payload(store: &StoreData, tracker: &TrackerRuntime) -> (res: AppPayload)
    ensures
        res.tracker.status@ == tracker@.status.text(),
        opt_view(res.tracker.active_project_id) == tracker@.active_project_id,
        opt_view(res.tracker.running_since) == tracker@.running_since,
        res.settings.autostart == store.workspace.autostart,
        res.settings.language@ == language_of(lowercase(trim(store.workspace.language@))),
        res.projects.len() == store.projects.len(),
        forall|i: int| 0 <= i < store.projects.len() ==> {
            &&& (#[trigger] res.projects@[i]).id@ == store.projects@[i].id@
            &&& res.projects@[i].name@ == store.projects@[i].name@
            &&& res.projects@[i].client@ == store.projects@[i].client@
            &&& res.projects@[i].updated_at@ == store.projects@[i].updated_at@
        },
        match res.selected_project {
            Some(p) => selected_project(store@) == Some(p@),
            None => selected_project(store@) is None,
        },
        category_views(res.categories@) == store@.categories,
{
    AppPayload {
        tracker: tracker_payload(tracker),
        settings: app_settings(&store.workspace),
        projects: project_summaries(&store.projects),
        selected_project: selected_project_from_store(store),
        categories: Category::duplicate_all(&store.categories),
    }
}

// ---------------------------------------------------------------- laws

/// The tracker at launch is consistent, and starting, pausing, sampling and stopping
/// each keep it so: a running tracker always has an active project, a starting time and
/// a draft.
pub proof fn law_tracker_stays_consistent(
    t: TrackerView,
    s: StoreView,
    now: Seq<char>,
    browser: bool,
    selected: Option<Seq<char>>,
)
    requires
        tracker_ok(t),
    ensures
        tracker_ok(fresh_tracker(selected)),
        start_failure(s) is None ==> tracker_ok(started(t, s, now)),
        tracker_ok(paused(t)),
        tracker_ok(tracker_sampled(t, browser)),
        tracker_ok(stopped(t)),
{
}

/// Starting a tracker that already runs changes nothing.
pub proof fn law_start_when_running(t: TrackerView, s: StoreView, now: Seq<char>)
    requires
        t.status == TrackerStatus::Running,
    ensures
        started(t, s, now) == t,
{
}

/// Pausing and starting again resumes the same recording: the starting time and all that
/// was gathered are kept, and the tracker runs for the selected project.
pub proof fn law_resume_keeps_recording(t: TrackerView, s: StoreView, now: Seq<char>)
    requires
        tracker_ok(t),
        t.status == TrackerStatus::Running,
        start_failure(s) is None,
    ensures
        started(paused(t), s, now).status == TrackerStatus::Running,
        started(paused(t), s, now).draft == t.draft,
        started(paused(t), s, now).running_since == t.running_since,
        started(paused(t), s, now).active_project_id == s.workspace.selected_project_id,
{
}

/// A fresh draft has no time, and each sample adds one second and one hit, to the
/// browser or to the applications: the seconds stay the sum of the hits until they reach
/// `u64::MAX`.
pub proof fn law_sample_balance(d: DraftView, browser: bool, p: ProjectView, now: Seq<char>)
    requires
        d.duration_seconds == d.app_hits + d.browser_hits,
        d.duration_seconds < u64::MAX,
    ensures
        fresh_draft(p, now).duration_seconds == fresh_draft(p, now).app_hits + fresh_draft(p, now).browser_hits,
        draft_sampled(d, browser).duration_seconds == d.duration_seconds + 1,
        draft_sampled(d, browser).duration_seconds == draft_sampled(d, browser).app_hits
            + draft_sampled(d, browser).browser_hits,
        draft_sampled(d, browser).started_at == d.started_at,
        draft_sampled(d, browser).stages == d.stages,
{
}

/// A sample changes the active project and nothing else in the store.
pub proof fn law_sample_touches_active_project_only(t: TrackerView, s: StoreView, o: ObservationView, now: Seq<char>)
    requires
        sample_failure(t, s) is None,
    ensures
        store_sampled(t, s, o, now).projects.len() == s.projects.len(),
        store_sampled(t, s, o, now).workspace == s.workspace,
        store_sampled(t, s, o, now).categories == s.categories,
        store_sampled(t, s, o, now).projects[active_index(t, s)].updated_at == now,
        store_sampled(t, s, o, now).projects[active_index(t, s)].sessions == s.projects[active_index(t, s)].sessions,
        forall|j: int|
            0 <= j < s.projects.len() && j != active_index(t, s) ==> #[trigger] store_sampled(t, s, o, now).projects[j]
                == s.projects[j],
{
    lemma_first_index_bounds(s.projects, project_is_id(t.active_project_id.unwrap()));
}

/// Stopping records what was gathered: the active project gets exactly one more session,
/// with the draft's start, time, counts and stages; nothing else in the store changes,
/// and the tracker is left stopped, so that stages may be changed again.
pub proof fn law_stop_records_session(t: TrackerView, s: StoreView, id: Seq<char>, now: Seq<char>)
    requires
        t.active_project_id is Some,
        t.draft is Some,
        active_index(t, s) < s.projects.len(),
    ensures
        finalized(t, s, id, now).2 == Some(active_index(t, s)),
        finalized(t, s, id, now).1.projects.len() == s.projects.len(),
        finalized(t, s, id, now).1.projects[active_index(t, s)].sessions
            == s.projects[active_index(t, s)].sessions.push(session_from(t.draft.unwrap(), id, now)),
        session_from(t.draft.unwrap(), id, now).duration_seconds == t.draft.unwrap().duration_seconds,
        session_from(t.draft.unwrap(), id, now).started_at == t.draft.unwrap().started_at,
        forall|j: int|
            0 <= j < s.projects.len() && j != active_index(t, s) ==> #[trigger] finalized(t, s, id, now).1.projects[j]
                == s.projects[j],
        finalized(t, s, id, now).1.workspace == s.workspace,
        finalized(t, s, id, now).1.categories == s.categories,
        stopped(t).status == TrackerStatus::Stopped,
        stopped(t).draft is None,
{
    lemma_first_index_bounds(s.projects, project_is_id(t.active_project_id.unwrap()));
}

} // verus!
