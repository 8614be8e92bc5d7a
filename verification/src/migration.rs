//! Moving data written by earlier versions (JSON files) into the database: the settings
//! that are written, and the count of what was moved.
use vstd::prelude::*;
use crate::models::{AppUsageRecord, AppView, ProjectRecord, ProjectView, SessionRecord, SessionView, TabUsageRecord, TabView, project_views};
use crate::store::{SettingWrite, SettingWriteView, WorkspaceIndex, WorkspaceView, write_views};
use crate::text::owned;

verus! {

/// How much was moved.
#[derive(Debug, Clone, Copy, PartialEq, Eq, Structural)]
pub struct MigrationReport {
    pub projects: usize,
    pub sessions: usize,
    pub apps: usize,
    pub tabs: usize,
    pub urls: usize,
    pub stages: usize,
    pub total_duration_seconds: u64,
}

impl Default for MigrationReport {
    fn default() -> (res: Self)
        ensures
            res == (MigrationReport {
                projects: 0,
                sessions: 0,
                apps: 0,
                tabs: 0,
                urls: 0,
                stages: 0,
                total_duration_seconds: 0,
            }),
    {
        MigrationReport { projects: 0, sessions: 0, apps: 0, tabs: 0, urls: 0, stages: 0, total_duration_seconds: 0 }
    }
}

/// The settings that moving a workspace writes: its language, `1` or `0` for autostart,
/// and the selected project when there is one (nothing is removed).
pub open spec fn migration_writes(w: WorkspaceView) -> Seq<SettingWriteView> {
    let base = seq![
        SettingWriteView::Put("language"@, w.language),
        SettingWriteView::Put("autostart"@, if w.autostart { "1"@ } else { "0"@ }),
    ];
    match w.selected_project_id {
        Some(id) => base.push(SettingWriteView::Put("selected_project_id"@, id)),
        None => base,
    }
}

/// The settings to write when moving a workspace, in order (see `migration_writes`).
pub fn workspace_migration_writes(workspace: &WorkspaceIndex) -> (res: Vec<SettingWrite>)
    ensures
        write_views(res@) == migration_writes(workspace@),
{
    let mut out: Vec<SettingWrite> = Vec::new();
    out.push(SettingWrite::Put(owned("language"), workspace.language.clone()));
    out.push(SettingWrite::Put(owned("autostart"), if workspace.autostart { owned("1") } else { owned("0") }));
    match &workspace.selected_project_id {
        Some(id) => out.push(SettingWrite::Put(owned("selected_project_id"), id.clone())),
        None => {},
    }
    assert(write_views(out@) =~= migration_writes(workspace@));
    out
}

/// The number of links of the sites.
pub open spec fn url_count(tabs: Seq<TabView>) -> int
    decreases tabs.len(),
{
    if tabs.len() == 0 {
        0
    } else {
        url_count(tabs.drop_last()) + tabs.last().urls.len()
    }
}

/// The number of sites of the applications.
pub open spec fn tab_count(apps: Seq<AppView>) -> int
    decreases apps.len(),
{
    if apps.len() == 0 {
        0
    } else {
        tab_count(apps.drop_last()) + apps.last().tabs.len()
    }
}

/// The number of links of the applications.
pub open spec fn app_url_count(apps: Seq<AppView>) -> int
    decreases apps.len(),
{
    if apps.len() == 0 {
        0
    } else {
        app_url_count(apps.drop_last()) + url_count(apps.last().tabs)
    }
}

/// The time of the sessions.
pub open spec fn session_time(sessions: Seq<SessionView>) -> int
    decreases sessions.len(),
{
    if sessions.len() == 0 {
        0
    } else {
        session_time(sessions.drop_last()) + sessions.last().duration_seconds
    }
}

/// What moving the projects counts, as unbounded numbers: projects, sessions,
/// applications, sites, links, stages, and the time of the sessions.
pub open spec fn moved(ps: Seq<ProjectView>) -> (int, int, int, int, int, int, int)
    decreases ps.len(),
{
    if ps.len() == 0 {
        (0, 0, 0, 0, 0, 0, 0)
    } else {
        let r = moved(ps.drop_last());
        let p = ps.last();
        (
            r.0 + 1,
            r.1 + p.sessions.len(),
            r.2 + p.apps.len(),
            r.3 + tab_count(p.apps),
            r.4 + app_url_count(p.apps),
            r.5 + p.stages.len(),
            r.6 + session_time(p.sessions),
        )
    }
}

/// Whether every count fits its field.
pub open spec fn moved_fits(ps: Seq<ProjectView>) -> bool {
    let r = moved(ps);
    &&& r.1 <= usize::MAX
    &&& r.2 <= usize::MAX
    &&& r.3 <= usize::MAX
    &&& r.4 <= usize::MAX
    &&& r.5 <= usize::MAX
    &&& r.6 <= u64::MAX
}

/// The report of a move of these projects (see `moved`).
pub open spec fn report_of(ps: Seq<ProjectView>) -> MigrationReport {
    let r = moved(ps);
    MigrationReport {
        projects: ps.len() as usize,
        sessions: r.1 as usize,
        apps: r.2 as usize,
        tabs: r.3 as usize,
        urls: r.4 as usize,
        stages: r.5 as usize,
        total_duration_seconds: r.6 as u64,
    }
}

proof fn lemma_counts_nonneg(ps: Seq<ProjectView>)
    ensures
        moved(ps).0 == ps.len(),
        moved(ps).1 >= 0 && moved(ps).2 >= 0 && moved(ps).3 >= 0 && moved(ps).4 >= 0 && moved(ps).5 >= 0 && moved(ps).6 >= 0,
    decreases ps.len(),
{
    if ps.len() > 0 {
        lemma_counts_nonneg(ps.drop_last());
        lemma_app_counts_nonneg(ps.last().apps);
        lemma_session_time_nonneg(ps.last().sessions);
    }
}

proof fn lemma_app_counts_nonneg(apps: Seq<AppView>)
    ensures
        tab_count(apps) >= 0,
        app_url_count(apps) >= 0,
    decreases apps.len(),
{
    if apps.len() > 0 {
        lemma_app_counts_nonneg(apps.drop_last());
        lemma_url_count_nonneg(apps.last().tabs);
    }
}

proof fn lemma_url_count_nonneg(tabs: Seq<TabView>)
    ensures
        url_count(tabs) >= 0,
    decreases tabs.len(),
{
    if tabs.len() > 0 {
        lemma_url_count_nonneg(tabs.drop_last());
    }
}

proof fn lemma_session_time_nonneg(ss: Seq<SessionView>)
    ensures
        session_time(ss) >= 0,
    decreases ss.len(),
{
    if ss.len() > 0 {
        lemma_session_time_nonneg(ss.drop_last());
    }
}

proof fn lemma_moved_prefix(ps: Seq<ProjectView>, n: int)
    requires
        0 <= n <= ps.len(),
    ensures
        moved(ps.take(n)).1 <= moved(ps).1,
        moved(ps.take(n)).2 <= moved(ps).2,
        moved(ps.take(n)).3 <= moved(ps).3,
        moved(ps.take(n)).4 <= moved(ps).4,
        moved(ps.take(n)).5 <= moved(ps).5,
        moved(ps.take(n)).6 <= moved(ps).6,
    decreases ps.len(),
{
    if n < ps.len() {
        assert(ps.drop_last().take(n) =~= ps.take(n));
        lemma_moved_prefix(ps.drop_last(), n);
        lemma_app_counts_nonneg(ps.last().apps);
        lemma_session_time_nonneg(ps.last().sessions);
    } else {
        assert(ps.take(n) =~= ps);
    }
}

/// Counts what moving one project adds to the report.
fn count_project(report: &mut MigrationReport, project: &ProjectRecord, bound: Ghost<(int, int, int, int, int, int)>)
    requires
        old(report).sessions + project@.sessions.len() <= bound@.0 <= usize::MAX,
        old(report).apps + project@.apps.len() <= bound@.1 <= usize::MAX,
        old(report).tabs + tab_count(project@.apps) <= bound@.2 <= usize::MAX,
        old(report).urls + app_url_count(project@.apps) <= bound@.3 <= usize::MAX,
        old(report).stages + project@.stages.len() <= bound@.4 <= usize::MAX,
        old(report).total_duration_seconds + session_time(project@.sessions) <= bound@.5 <= u64::MAX,
    ensures
        final(report).projects == old(report).projects,
        final(report).sessions == old(report).sessions + project@.sessions.len(),
        final(report).apps == old(report).apps + project@.apps.len(),
        final(report).tabs == old(report).tabs + tab_count(project@.apps),
        final(report).urls == old(report).urls + app_url_count(project@.apps),
        final(report).stages == old(report).stages + project@.stages.len(),
        final(report).total_duration_seconds == old(report).total_duration_seconds + session_time(project@.sessions),
{
    report.stages = report.stages + project.stages.len();
    let ghost ss = project@.sessions;
    let ghost t0 = report.total_duration_seconds;
    let mut k: usize = 0;
    while k < project.sessions.len()
        invariant
            k <= project.sessions.len(),
            ss == project@.sessions,
            ss.len() == project.sessions.len(),
            t0 + session_time(ss) <= u64::MAX,
            report.total_duration_seconds == t0 + session_time(ss.take(k as int)),
            t0 == old(report).total_duration_seconds,
            report.projects == old(report).projects,
            report.sessions == old(report).sessions,
            report.apps == old(report).apps,
            report.tabs == old(report).tabs,
            report.urls == old(report).urls,
            report.stages == old(report).stages + project@.stages.len(),
        decreases project.sessions.len() - k,
    {
        proof {
            assert(ss.take(k + 1).drop_last() =~= ss.take(k as int));
            assert(ss[k as int] == project.sessions@[k as int]@);
            lemma_session_time_prefix(ss, k as int + 1);
        }
        report.total_duration_seconds = report.total_duration_seconds + project.sessions[k].duration_seconds;
        k = k + 1;
    }
    assert(ss.take(k as int) =~= ss);
    report.sessions = report.sessions + project.sessions.len();
    let ghost av = project@.apps;
    let ghost a0 = report.apps;
    let ghost b0 = report.tabs;
    let ghost c0 = report.urls;
    let mut i: usize = 0;
    while i < project.apps.len()
        invariant
            i <= project.apps.len(),
            av == project@.apps,
            av.len() == project.apps.len(),
            a0 + av.len() <= usize::MAX,
            b0 + tab_count(av) <= usize::MAX,
            c0 + app_url_count(av) <= usize::MAX,
            report.apps == a0 + i,
            report.tabs == b0 + tab_count(av.take(i as int)),
            report.urls == c0 + app_url_count(av.take(i as int)),
            report.projects == old(report).projects,
            report.sessions == old(report).sessions + project@.sessions.len(),
            report.stages == old(report).stages + project@.stages.len(),
            report.total_duration_seconds == old(report).total_duration_seconds + session_time(project@.sessions),
        decreases project.apps.len() - i,
    {
        let app = &project.apps[i];
        proof {
            assert(av[i as int] == app@);
            assert(av.take(i + 1).drop_last() =~= av.take(i as int));
            lemma_app_counts_prefix(av, i as int + 1);
        }
        report.apps = report.apps + 1;
        let ghost ts = app@.tabs;
        let ghost u0 = report.urls;
        let mut j: usize = 0;
        while j < app.tabs.len()
            invariant
                j <= app.tabs.len(),
                ts == app@.tabs,
                ts.len() == app.tabs.len(),
                u0 + url_count(ts) <= usize::MAX,
                report.urls == u0 + url_count(ts.take(j as int)),
                report.tabs == b0 + tab_count(av.take(i as int)) + j,
                b0 + tab_count(av.take(i as int)) + ts.len() <= usize::MAX,
                report.apps == a0 + i + 1,
                report.projects == old(report).projects,
                report.sessions == old(report).sessions + project@.sessions.len(),
                report.stages == old(report).stages + project@.stages.len(),
                report.total_duration_seconds == old(report).total_duration_seconds + session_time(project@.sessions),
            decreases app.tabs.len() - j,
        {
            proof {
                assert(ts.take(j + 1).drop_last() =~= ts.take(j as int));
                assert(ts[j as int] == app.tabs@[j as int]@);
                lemma_url_count_prefix(ts, j as int + 1);
            }
            report.tabs = report.tabs + 1;
            report.urls = report.urls + app.tabs[j].urls.len();
            j = j + 1;
        }
        assert(ts.take(j as int) =~= ts);
        i = i + 1;
    }
    assert(av.take(i as int) =~= av);
}

proof fn lemma_session_time_prefix(ss: Seq<SessionView>, n: int)
    requires
        0 <= n <= ss.len(),
    ensures
        0 <= session_time(ss.take(n)) <= session_time(ss),
    decreases ss.len(),
{
    lemma_session_time_nonneg(ss.take(n));
    if n < ss.len() {
        assert(ss.drop_last().take(n) =~= ss.take(n));
        lemma_session_time_prefix(ss.drop_last(), n);
    } else {
        assert(ss.take(n) =~= ss);
    }
}

proof fn lemma_url_count_prefix(ts: Seq<TabView>, n: int)
    requires
        0 <= n <= ts.len(),
    ensures
        0 <= url_count(ts.take(n)) <= url_count(ts),
    decreases ts.len(),
{
    lemma_url_count_nonneg(ts.take(n));
    if n < ts.len() {
        assert(ts.drop_last().take(n) =~= ts.take(n));
        lemma_url_count_prefix(ts.drop_last(), n);
    } else {
        assert(ts.take(n) =~= ts);
    }
}

proof fn lemma_app_counts_prefix(apps: Seq<AppView>, n: int)
    requires
        0 <= n <= apps.len(),
    ensures
        0 <= tab_count(apps.take(n)) <= tab_count(apps),
        0 <= app_url_count(apps.take(n)) <= app_url_count(apps),
        tab_count(apps.take(n)) + (if n < apps.len() { apps[n].tabs.len() as int } else { 0 }) <= tab_count(apps),
        app_url_count(apps.take(n)) + (if n < apps.len() { url_count(apps[n].tabs) } else { 0 }) <= app_url_count(apps),
    decreases apps.len(),
{
    lemma_app_counts_nonneg(apps.take(n));
    if n < apps.len() {
        assert(apps.drop_last().take(n) =~= apps.take(n));
        lemma_app_counts_prefix(apps.drop_last(), n);
        lemma_url_count_nonneg(apps.last().tabs);
        if n < apps.len() - 1 {
            assert(apps.drop_last()[n] == apps[n]);
        }
    } else {
        assert(apps.take(n) =~= apps);
    }
}

/// What moving the projects counts (see `report_of`).
pub fn migration_report(projects: &Vec<ProjectRecord>) -> (res: MigrationReport)
    requires
        moved_fits(project_views(projects@)),
    ensures
        res == report_of(project_views(projects@)),
{
    let ghost ps = project_views(projects@);
    let mut report = MigrationReport::default();
    let mut k: usize = 0;
    while k < projects.len()
        invariant
            k <= projects.len(),
            ps == project_views(projects@),
            ps.len() == projects.len(),
            moved_fits(ps),
            report.projects == 0,
            report.sessions == moved(ps.take(k as int)).1,
            report.apps == moved(ps.take(k as int)).2,
            report.tabs == moved(ps.take(k as int)).3,
            report.urls == moved(ps.take(k as int)).4,
            report.stages == moved(ps.take(k as int)).5,
            report.total_duration_seconds == moved(ps.take(k as int)).6,
        decreases projects.len() - k,
    {
        proof {
            assert(ps.take(k + 1).drop_last() =~= ps.take(k as int));
            assert(ps[k as int] == projects@[k as int]@);
            lemma_moved_prefix(ps, k as int + 1);
        }
        let ghost m = moved(ps);
        count_project(&mut report, &projects[k], Ghost((m.1, m.2, m.3, m.4, m.5, m.6)));
        k = k + 1;
    }
    assert(ps.take(k as int) =~= ps);
    proof {
        lemma_counts_nonneg(ps);
    }
    report.projects = projects.len();
    report
}

/// `o` is the count `a`, or `None` where `a` does not fit in a `usize`.
pub open spec fn counted(o: Option<usize>, a: int) -> bool {
    match o {
        Some(v) => v == a,
        None => a > usize::MAX,
    }
}

/// `o` is the time `a`, or `None` where `a` does not fit in a `u64`.
pub open spec fn timed(o: Option<u64>, a: int) -> bool {
    match o {
        Some(v) => v == a,
        None => a > u64::MAX,
    }
}

fn add_count(acc: Option<usize>, c: Option<usize>, a: Ghost<int>, b: Ghost<int>) -> (res: Option<usize>)
    requires
        a@ >= 0,
        b@ >= 0,
        counted(acc, a@),
        counted(c, b@),
    ensures
        counted(res, a@ + b@),
{
    match (acc, c) {
        (Some(x), Some(y)) => x.checked_add(y),
        _ => None,
    }
}

fn add_time(acc: Option<u64>, c: Option<u64>, a: Ghost<int>, b: Ghost<int>) -> (res: Option<u64>)
    requires
        a@ >= 0,
        b@ >= 0,
        timed(acc, a@),
        timed(c, b@),
    ensures
        timed(res, a@ + b@),
{
    match (acc, c) {
        (Some(x), Some(y)) => x.checked_add(y),
        _ => None,
    }
}

fn session_time_checked(sessions: &Vec<SessionRecord>) -> (res: Option<u64>)
    ensures
        timed(res, session_time(crate::models::session_views(sessions@))),
{
    let ghost ss = crate::models::session_views(sessions@);
    let mut acc: Option<u64> = Some(0);
    let mut k: usize = 0;
    while k < sessions.len()
        invariant
            ss == crate::models::session_views(sessions@),
            k <= sessions.len(),
            timed(acc, session_time(ss.take(k as int))),
        decreases sessions.len() - k,
    {
        proof {
            assert(ss.take(k + 1).drop_last() =~= ss.take(k as int));
            lemma_session_time_nonneg(ss.take(k as int));
        }
        acc = add_time(acc, Some(sessions[k].duration_seconds), Ghost(session_time(ss.take(k as int))), Ghost(ss[k as int].duration_seconds as int));
        k = k + 1;
    }
    assert(ss.take(k as int) =~= ss);
    acc
}

fn url_count_checked(tabs: &Vec<TabUsageRecord>) -> (res: Option<usize>)
    ensures
        counted(res, url_count(crate::models::tab_views(tabs@))),
{
    let ghost ts = crate::models::tab_views(tabs@);
    let mut acc: Option<usize> = Some(0);
    let mut k: usize = 0;
    while k < tabs.len()
        invariant
            ts == crate::models::tab_views(tabs@),
            k <= tabs.len(),
            counted(acc, url_count(ts.take(k as int))),
        decreases tabs.len() - k,
    {
        proof {
            assert(ts.take(k + 1).drop_last() =~= ts.take(k as int));
            lemma_url_count_nonneg(ts.take(k as int));
        }
        acc = add_count(acc, Some(tabs[k].urls.len()), Ghost(url_count(ts.take(k as int))), Ghost(ts[k as int].urls.len() as int));
        k = k + 1;
    }
    assert(ts.take(k as int) =~= ts);
    acc
}

fn app_counts_checked(apps: &Vec<AppUsageRecord>) -> (res: (Option<usize>, Option<usize>))
    ensures
        counted(res.0, tab_count(crate::models::app_views(apps@))),
        counted(res.1, app_url_count(crate::models::app_views(apps@))),
{
    let ghost av = crate::models::app_views(apps@);
    let mut tabs: Option<usize> = Some(0);
    let mut urls: Option<usize> = Some(0);
    let mut k: usize = 0;
    while k < apps.len()
        invariant
            av == crate::models::app_views(apps@),
            k <= apps.len(),
            counted(tabs, tab_count(av.take(k as int))),
            counted(urls, app_url_count(av.take(k as int))),
        decreases apps.len() - k,
    {
        proof {
            assert(av.take(k + 1).drop_last() =~= av.take(k as int));
            lemma_app_counts_nonneg(av.take(k as int));
            lemma_url_count_nonneg(av[k as int].tabs);
        }
        let u = url_count_checked(&apps[k].tabs);
        tabs = add_count(tabs, Some(apps[k].tabs.len()), Ghost(tab_count(av.take(k as int))), Ghost(av[k as int].tabs.len() as int));
        urls = add_count(urls, u, Ghost(app_url_count(av.take(k as int))), Ghost(url_count(av[k as int].tabs)));
        k = k + 1;
    }
    assert(av.take(k as int) =~= av);
    (tabs, urls)
}

/// What moving the projects counts (see `report_of`), or `None` where a count does
/// not fit its field (see `moved_fits`).
pub fn migration_report_checked(projects: &Vec<ProjectRecord>) -> (res: Option<MigrationReport>)
    ensures
        res is Some <==> moved_fits(project_views(projects@)),
        res matches Some(r) ==> r == report_of(project_views(projects@)),
{
    let ghost ps = project_views(projects@);
    let mut sessions: Option<usize> = Some(0);
    let mut apps: Option<usize> = Some(0);
    let mut tabs: Option<usize> = Some(0);
    let mut urls: Option<usize> = Some(0);
    let mut stages: Option<usize> = Some(0);
    let mut seconds: Option<u64> = Some(0);
    let mut k: usize = 0;
    while k < projects.len()
        invariant
            ps == project_views(projects@),
            k <= projects.len(),
            counted(sessions, moved(ps.take(k as int)).1),
            counted(apps, moved(ps.take(k as int)).2),
            counted(tabs, moved(ps.take(k as int)).3),
            counted(urls, moved(ps.take(k as int)).4),
            counted(stages, moved(ps.take(k as int)).5),
            timed(seconds, moved(ps.take(k as int)).6),
        decreases projects.len() - k,
    {
        let p = &projects[k];
        let ghost m = moved(ps.take(k as int));
        proof {
            assert(ps.take(k + 1).drop_last() =~= ps.take(k as int));
            assert(ps[k as int] == p@);
            lemma_counts_nonneg(ps.take(k as int));
            lemma_app_counts_nonneg(p@.apps);
            lemma_session_time_nonneg(p@.sessions);
        }
        let (t, u) = app_counts_checked(&p.apps);
        let st = session_time_checked(&p.sessions);
        sessions = add_count(sessions, Some(p.sessions.len()), Ghost(m.1), Ghost(p@.sessions.len() as int));
        apps = add_count(apps, Some(p.apps.len()), Ghost(m.2), Ghost(p@.apps.len() as int));
        tabs = add_count(tabs, t, Ghost(m.3), Ghost(tab_count(p@.apps)));
        urls = add_count(urls, u, Ghost(m.4), Ghost(app_url_count(p@.apps)));
        stages = add_count(stages, Some(p.stages.len()), Ghost(m.5), Ghost(p@.stages.len() as int));
        seconds = add_time(seconds, st, Ghost(m.6), Ghost(session_time(p@.sessions)));
        k = k + 1;
    }
    assert(ps.take(k as int) =~= ps);
    match (sessions, apps, tabs, urls, stages, seconds) {
        (Some(s), Some(a), Some(t), Some(u), Some(g), Some(d)) => {
            proof {
                lemma_counts_nonneg(ps);
            }
            Some(MigrationReport {
                projects: projects.len(),
                sessions: s,
                apps: a,
                tabs: t,
                urls: u,
                stages: g,
                total_duration_seconds: d,
            })
        },
        _ => None,
    }
}

} // verus!
