//! The changes a user makes to a project: including and excluding applications, sites
//! and links, setting times, and managing stages. Each change stamps the project with the
//! time it was made and leaves the project in its normal form.
use vstd::prelude::*;
use crate::models::{
    app_views, stage_views, strings_view, tab_views, url_views, AppView, ProjectRecord, TabUsageRecord,
    ProjectStageRecord, ProjectView, StageAppView, StageTabView, StageUrlView, StageView, TabView,
    UrlView, ObservationView,
};
use crate::normalize::{id_kept, law_normalized_layout, lemma_normalized_same_keys, normalize_project_structure, normalized, lemma_sort_numbered, retain_listed_ids};
use crate::seqs::{first_index, keep, lemma_first_index, lemma_first_index_bounds, lemma_keep_step};
use crate::structure::{
    app_pos, ensure_stage_app, ensure_stage_tab, ensure_stage_url, lemma_with_app, lemma_with_tab,
    lemma_with_url, tab_pos, url_pos, with_app, with_tab, with_url, keys_unique, same_keys, lemma_same_keys_unique,
    sites_unique,
};
use crate::text::{blank, is_blank, owned, str_eq, trim, trim_str};
use crate::timing::{app_set_to, app_times_fit, set_app_time_in_app, set_tab_time_in_project, sum, tab_set_to, tab_times, tab_times_fit, lemma_sum_prefix, url_times};
use crate::tracking::{
    app_index_of, app_is_key, apps_tab_touched, apps_touched, law_sample_adds_time_once, law_site_sample_adds_time_once,
    tab_is_key, url_is_addr,
};

verus! {

// ---------------------------------------------------------------- finding things

/// Where the site with this key stands among an application's sites.
pub open spec fn tab_index_of(tabs: Seq<TabView>, key: Seq<char>) -> int {
    first_index(tabs, tab_is_key(key))
}

/// Where the link with this address stands among a site's links.
pub open spec fn url_index_of(urls: Seq<UrlView>, url: Seq<char>) -> int {
    first_index(urls, url_is_addr(url))
}

pub open spec fn stage_is_id(id: Seq<char>) -> spec_fn(StageView) -> bool {
    |s: StageView| s.id == id
}

/// Where the stage with this id stands.
pub open spec fn stage_index_of(stages: Seq<StageView>, id: Seq<char>) -> int {
    first_index(stages, stage_is_id(id))
}

fn find_app_key(project: &ProjectRecord, key: &str) -> (i: usize)
    ensures
        i == app_index_of(project@.apps, key@),
        i <= project.apps.len(),
{
    let ghost s = project@.apps;
    let mut k: usize = 0;
    while k < project.apps.len()
        invariant
            k <= project.apps.len(),
            s == app_views(project.apps@),
            forall|m: int| 0 <= m < k ==> !app_is_key(key@)(#[trigger] s[m]),
        decreases project.apps.len() - k,
    {
        if str_eq(project.apps[k].key.as_str(), key) {
            proof {
                lemma_first_index(s, app_is_key(key@), k as int);
            }
            return k;
        }
        k = k + 1;
    }
    proof {
        lemma_first_index(s, app_is_key(key@), k as int);
    }
    k
}

fn find_tab_key(project: &ProjectRecord, a: usize, key: &str) -> (j: usize)
    requires
        a < project.apps.len(),
    ensures
        j == tab_index_of(project@.apps[a as int].tabs, key@),
        j <= project.apps@[a as int].tabs.len(),
{
    assert(project@.apps[a as int] == project.apps@[a as int]@);
    let ghost s = project@.apps[a as int].tabs;
    let tabs = &project.apps[a].tabs;
    assert(s == tab_views(tabs@));
    let mut k: usize = 0;
    while k < tabs.len()
        invariant
            k <= tabs.len(),
            s == tab_views(tabs@),
            s == project@.apps[a as int].tabs,
            tabs@.len() == project.apps@[a as int].tabs@.len(),
            forall|m: int| 0 <= m < k ==> !tab_is_key(key@)(#[trigger] s[m]),
        decreases tabs.len() - k,
    {
        if str_eq(tabs[k].key.as_str(), key) {
            proof {
                lemma_first_index(s, tab_is_key(key@), k as int);
            }
            return k;
        }
        k = k + 1;
    }
    proof {
        lemma_first_index(s, tab_is_key(key@), k as int);
    }
    k
}

fn find_url_addr(project: &ProjectRecord, a: usize, t: usize, url: &str) -> (k: usize)
    requires
        a < project.apps.len(),
        t < project.apps@[a as int].tabs.len(),
    ensures
        k == url_index_of(project@.apps[a as int].tabs[t as int].urls, url@),
        k <= project.apps@[a as int].tabs@[t as int].urls.len(),
{
    assert(project@.apps[a as int] == project.apps@[a as int]@);
    assert(project@.apps[a as int].tabs[t as int] == project.apps@[a as int].tabs@[t as int]@);
    let ghost s = project@.apps[a as int].tabs[t as int].urls;
    let urls = &project.apps[a].tabs[t].urls;
    assert(s == url_views(urls@));
    let mut k: usize = 0;
    while k < urls.len()
        invariant
            k <= urls.len(),
            s == url_views(urls@),
            s == project@.apps[a as int].tabs[t as int].urls,
            urls@.len() == project.apps@[a as int].tabs@[t as int].urls@.len(),
            forall|m: int| 0 <= m < k ==> !url_is_addr(url@)(#[trigger] s[m]),
        decreases urls.len() - k,
    {
        if str_eq(urls[k].url.as_str(), url) {
            proof {
                lemma_first_index(s, url_is_addr(url@), k as int);
            }
            return k;
        }
        k = k + 1;
    }
    proof {
        lemma_first_index(s, url_is_addr(url@), k as int);
    }
    k
}

pub(crate) fn find_stage(project: &ProjectRecord, id: &str) -> (i: usize)
    ensures
        i == stage_index_of(project@.stages, id@),
        i <= project.stages.len(),
{
    let ghost s = project@.stages;
    let mut k: usize = 0;
    while k < project.stages.len()
        invariant
            k <= project.stages.len(),
            s == stage_views(project.stages@),
            forall|m: int| 0 <= m < k ==> !stage_is_id(id@)(#[trigger] s[m]),
        decreases project.stages.len() - k,
    {
        if str_eq(project.stages[k].id.as_str(), id) {
            proof {
                lemma_first_index(s, stage_is_id(id@), k as int);
            }
            return k;
        }
        k = k + 1;
    }
    proof {
        lemma_first_index(s, stage_is_id(id@), k as int);
    }
    k
}

// ---------------------------------------------------------------- inclusion

/// The project with the application at `a` included or excluded, stamped at `now`.
pub open spec fn app_toggled(p: ProjectView, a: int, enabled: bool, now: Seq<char>) -> ProjectView {
    ProjectView { apps: p.apps.update(a, AppView { enabled: enabled, ..p.apps[a] }), updated_at: now, ..p }
}

/// Includes or excludes the application `app_key` (the first with that key); returns
/// whether there was one, and so whether the project changed and is to be saved.
pub fn toggle_app(project: &mut ProjectRecord, app_key: &str, enabled: bool, now: &str) -> (changed: bool)
    ensures
        changed == (app_index_of(old(project)@.apps, app_key@) < old(project)@.apps.len()),
        changed ==> final(project)@ == normalized(
            app_toggled(old(project)@, app_index_of(old(project)@.apps, app_key@), enabled, now@),
        ),
        !changed ==> final(project)@ == old(project)@,
{
    let a = find_app_key(project, app_key);
    if a == project.apps.len() {
        return false;
    }
    let ghost p0 = project@;
    project.apps[a].enabled = enabled;
    project.updated_at = owned(now);
    assert(project@ =~= app_toggled(p0, a as int, enabled, now@));
    normalize_project_structure(project);
    true
}

/// The project with site `t` of application `a` included or excluded, stamped at `now`.
pub open spec fn tab_toggled(p: ProjectView, a: int, t: int, enabled: bool, now: Seq<char>) -> ProjectView {
    let app = p.apps[a];
    ProjectView {
        apps: p.apps.update(a, AppView { tabs: app.tabs.update(t, TabView { enabled: enabled, ..app.tabs[t] }), ..app }),
        updated_at: now,
        ..p
    }
}

/// Includes or excludes the site `tab_key` of the application `app_key`; returns whether
/// there was one.
pub fn toggle_tab(project: &mut ProjectRecord, app_key: &str, tab_key: &str, enabled: bool, now: &str) -> (changed: bool)
    ensures
        ({
            let a = app_index_of(old(project)@.apps, app_key@);
            let t = if a < old(project)@.apps.len() { tab_index_of(old(project)@.apps[a].tabs, tab_key@) } else { 0 };
            &&& changed == (a < old(project)@.apps.len() && t < old(project)@.apps[a].tabs.len())
            &&& changed ==> final(project)@ == normalized(tab_toggled(old(project)@, a, t, enabled, now@))
            &&& !changed ==> final(project)@ == old(project)@
        }),
{
    let a = find_app_key(project, app_key);
    if a == project.apps.len() {
        return false;
    }
    let t = find_tab_key(project, a, tab_key);
    if t == project.apps[a].tabs.len() {
        return false;
    }
    let ghost p0 = project@;
    project.apps[a].tabs[t].enabled = enabled;
    assert(project@.apps[a as int].tabs =~= p0.apps[a as int].tabs.update(
        t as int,
        TabView { enabled: enabled, ..p0.apps[a as int].tabs[t as int] },
    ));
    assert(project@.apps[a as int] =~= tab_toggled(p0, a as int, t as int, enabled, now@).apps[a as int]);
    assert(project@.apps =~= tab_toggled(p0, a as int, t as int, enabled, now@).apps);
    project.updated_at = owned(now);
    assert(project@ =~= tab_toggled(p0, a as int, t as int, enabled, now@));
    normalize_project_structure(project);
    true
}

/// The project with link `k` of site `t` of application `a` included or excluded.
pub open spec fn url_toggled(p: ProjectView, a: int, t: int, k: int, enabled: bool, now: Seq<char>) -> ProjectView {
    let app = p.apps[a];
    let tab = app.tabs[t];
    ProjectView {
        apps: p.apps.update(
            a,
            AppView {
                tabs: app.tabs.update(t, TabView { urls: tab.urls.update(k, UrlView { enabled: enabled, ..tab.urls[k] }), ..tab }),
                ..app
            },
        ),
        updated_at: now,
        ..p
    }
}

/// Includes or excludes the link `url` of a site; returns whether there was one.
pub fn toggle_url(
    project: &mut ProjectRecord,
    app_key: &str,
    tab_key: &str,
    url: &str,
    enabled: bool,
    now: &str,
) -> (changed: bool)
    ensures
        ({
            let p = old(project)@;
            let a = app_index_of(p.apps, app_key@);
            let t = if a < p.apps.len() { tab_index_of(p.apps[a].tabs, tab_key@) } else { 0 };
            let k = if a < p.apps.len() && t < p.apps[a].tabs.len() { url_index_of(p.apps[a].tabs[t].urls, url@) } else { 0 };
            &&& changed == (a < p.apps.len() && t < p.apps[a].tabs.len() && k < p.apps[a].tabs[t].urls.len())
            &&& changed ==> final(project)@ == normalized(url_toggled(p, a, t, k, enabled, now@))
            &&& !changed ==> final(project)@ == p
        }),
{
    let a = find_app_key(project, app_key);
    if a == project.apps.len() {
        return false;
    }
    let t = find_tab_key(project, a, tab_key);
    if t == project.apps[a].tabs.len() {
        return false;
    }
    let k = find_url_addr(project, a, t, url);
    if k == project.apps[a].tabs[t].urls.len() {
        return false;
    }
    let ghost p0 = project@;
    project.apps[a].tabs[t].urls[k].enabled = enabled;
    proof {
        let target = url_toggled(p0, a as int, t as int, k as int, enabled, now@);
        assert(project@.apps[a as int].tabs[t as int].urls =~= target.apps[a as int].tabs[t as int].urls);
        assert(project@.apps[a as int].tabs[t as int] =~= target.apps[a as int].tabs[t as int]);
        assert(project@.apps[a as int].tabs =~= target.apps[a as int].tabs);
        assert(project@.apps[a as int] =~= target.apps[a as int]);
        assert(project@.apps =~= target.apps);
    }
    project.updated_at = owned(now);
    assert(project@ =~= url_toggled(p0, a as int, t as int, k as int, enabled, now@));
    normalize_project_structure(project);
    true
}

// ---------------------------------------------------------------- times

/// Whether setting the time of application `app_key` cannot overflow a sum.
pub open spec fn app_time_settable(p: ProjectView, app_key: Seq<char>) -> bool {
    let a = app_index_of(p.apps, app_key);
    a < p.apps.len() ==> app_times_fit(p.apps[a])
}

/// Sets the time of application `app_key` (see `app_set_to`); returns whether there was one.
pub fn set_app_time(project: &mut ProjectRecord, app_key: &str, seconds: u64, now: &str) -> (changed: bool)
    requires
        app_time_settable(old(project)@, app_key@),
    ensures
        ({
            let p = old(project)@;
            let a = app_index_of(p.apps, app_key@);
            &&& changed == (a < p.apps.len())
            &&& changed ==> final(project)@ == normalized(ProjectView {
                apps: p.apps.update(a, app_set_to(p.apps[a], seconds)),
                updated_at: now@,
                ..p
            })
            &&& !changed ==> final(project)@ == p
        }),
{
    let a = find_app_key(project, app_key);
    if a == project.apps.len() {
        return false;
    }
    let ghost p0 = project@;
    set_app_time_in_app(&mut project.apps[a], seconds);
    project.updated_at = owned(now);
    assert(project@ =~= (ProjectView {
        apps: p0.apps.update(a as int, app_set_to(p0.apps[a as int], seconds)),
        updated_at: now@,
        ..p0
    }));
    normalize_project_structure(project);
    true
}

/// The application with site `t` set to `seconds`; a browser's own time becomes the sum
/// of its sites' times.
pub open spec fn app_with_tab_set(app: AppView, t: int, seconds: u64) -> AppView {
    let tabs = app.tabs.update(t, tab_set_to(app.tabs[t], seconds));
    AppView {
        tabs: tabs,
        time_seconds: if app.kind == "browser"@ { sum(tab_times(tabs)) as u64 } else { app.time_seconds },
        ..app
    }
}

/// Whether setting the time of a site cannot overflow a sum.
pub open spec fn tab_time_settable(p: ProjectView, app_key: Seq<char>, tab_key: Seq<char>, seconds: u64) -> bool {
    let a = app_index_of(p.apps, app_key);
    let t = if a < p.apps.len() { tab_index_of(p.apps[a].tabs, tab_key) } else { 0 };
    a < p.apps.len() && t < p.apps[a].tabs.len() ==> {
        &&& tab_times_fit(p.apps[a].tabs[t])
        &&& (p.apps[a].kind == "browser"@ ==> sum(tab_times(p.apps[a].tabs.update(t, tab_set_to(p.apps[a].tabs[t], seconds))))
            <= u64::MAX)
    }
}

fn sum_tab_times(tabs: &Vec<crate::models::TabUsageRecord>) -> (total: u64)
    requires
        sum(tab_times(tab_views(tabs@))) <= u64::MAX,
    ensures
        total == sum(tab_times(tab_views(tabs@))),
{
    let ghost times = tab_times(tab_views(tabs@));
    let mut total: u64 = 0;
    let mut k: usize = 0;
    while k < tabs.len()
        invariant
            k <= tabs.len(),
            times == tab_times(tab_views(tabs@)),
            times.len() == tabs.len(),
            sum(times) <= u64::MAX,
            total == sum(times.take(k as int)),
        decreases tabs.len() - k,
    {
        proof {
            lemma_sum_prefix(times, k as int);
            lemma_sum_prefix(times, k + 1);
        }
        assert(times[k as int] == tabs@[k as int].time_seconds);
        total = total + tabs[k].time_seconds;
        k = k + 1;
    }
    assert(times.take(k as int) =~= times);
    total
}

/// Sets the time of the site `tab_key` of application `app_key`; returns whether there was one.
pub fn set_tab_time(project: &mut ProjectRecord, app_key: &str, tab_key: &str, seconds: u64, now: &str) -> (changed: bool)
    requires
        tab_time_settable(old(project)@, app_key@, tab_key@, seconds),
    ensures
        ({
            let p = old(project)@;
            let a = app_index_of(p.apps, app_key@);
            let t = if a < p.apps.len() { tab_index_of(p.apps[a].tabs, tab_key@) } else { 0 };
            &&& changed == (a < p.apps.len() && t < p.apps[a].tabs.len())
            &&& changed ==> final(project)@ == normalized(ProjectView {
                apps: p.apps.update(a, app_with_tab_set(p.apps[a], t, seconds)),
                updated_at: now@,
                ..p
            })
            &&& !changed ==> final(project)@ == p
        }),
{
    let a = find_app_key(project, app_key);
    if a == project.apps.len() {
        return false;
    }
    let t = find_tab_key(project, a, tab_key);
    if t == project.apps[a].tabs.len() {
        return false;
    }
    let ghost p0 = project@;
    set_tab_time_in_project(&mut project.apps[a].tabs[t], seconds);
    assert(project@.apps[a as int].tabs =~= p0.apps[a as int].tabs.update(
        t as int,
        tab_set_to(p0.apps[a as int].tabs[t as int], seconds),
    ));
    assert(project@.apps[a as int].kind == p0.apps[a as int].kind);
    if str_eq(project.apps[a].kind.as_str(), "browser") {
        let total = sum_tab_times(&project.apps[a].tabs);
        project.apps[a].time_seconds = total;
    }
    assert(project@.apps[a as int] =~= app_with_tab_set(p0.apps[a as int], t as int, seconds));
    assert(project@.apps =~= p0.apps.update(a as int, app_with_tab_set(p0.apps[a as int], t as int, seconds)));
    project.updated_at = owned(now);
    assert(project@ =~= (ProjectView {
        apps: p0.apps.update(a as int, app_with_tab_set(p0.apps[a as int], t as int, seconds)),
        updated_at: now@,
        ..p0
    }));
    normalize_project_structure(project);
    true
}

// ---------------------------------------------------------------- names

/// A name with its surrounding white space removed, or `message` when nothing is left.
pub open spec fn required_name(name: Seq<char>, message: Seq<char>) -> Result<Seq<char>, Seq<char>> {
    if trim(name).len() == 0 {
        Err(message)
    } else {
        Ok(trim(name))
    }
}

/// The trimmed name, or the error `message` when it is blank (see `required_name`).
pub fn require_name(name: &str, message: &str) -> (res: Result<String, String>)
    ensures
        match res {
            Ok(n) => required_name(name@, message@) == Ok::<Seq<char>, Seq<char>>(n@),
            Err(e) => required_name(name@, message@) == Err::<Seq<char>, Seq<char>>(e@),
        },
{
    let trimmed = trim_str(name);
    if trimmed.as_str().unicode_len() == 0 {
        Err(owned(message))
    } else {
        Ok(trimmed)
    }
}

/// Renames a project to the trimmed new name, stamped at `now`; a blank name is refused
/// and the project left as it was.
pub fn rename_project_record(project: &mut ProjectRecord, new_name: &str, now: &str) -> (res: Result<(), String>)
    ensures
        match res {
            Ok(()) => trim(new_name@).len() > 0 && final(project)@ == (ProjectView {
                name: trim(new_name@),
                updated_at: now@,
                ..old(project)@
            }),
            Err(e) => trim(new_name@).len() == 0 && e@ == "Название проекта не может быть пустым."@
                && final(project)@ == old(project)@,
        },
{
    match require_name(new_name, "Название проекта не может быть пустым.") {
        Ok(n) => {
            project.name = n;
            project.updated_at = owned(now);
            Ok(())
        },
        Err(e) => Err(e),
    }
}

/// Renames the stage `stage_id` to the trimmed name, stamped at `now`; a blank name is
/// refused. Returns whether there was such a stage.
pub fn rename_stage(project: &mut ProjectRecord, stage_id: &str, name: &str, now: &str) -> (res: Result<bool, String>)
    ensures
        ({
            let p = old(project)@;
            let s = stage_index_of(p.stages, stage_id@);
            match res {
                Ok(changed) => trim(name@).len() > 0 && changed == (s < p.stages.len())
                    && (changed ==> final(project)@ == normalized(ProjectView {
                        stages: p.stages.update(s, StageView { name: trim(name@), updated_at: now@, ..p.stages[s] }),
                        updated_at: now@,
                        ..p
                    }))
                    && (!changed ==> final(project)@ == p),
                Err(e) => trim(name@).len() == 0 && e@ == "Название этапа не может быть пустым."@
                    && final(project)@ == p,
            }
        }),
{
    let trimmed = match require_name(name, "Название этапа не может быть пустым.") {
        Ok(n) => n,
        Err(e) => return Err(e),
    };
    let s = find_stage(project, stage_id);
    if s == project.stages.len() {
        return Ok(false);
    }
    let ghost p0 = project@;
    project.stages[s].name = trimmed;
    project.stages[s].updated_at = owned(now);
    project.updated_at = owned(now);
    assert(project@ =~= (ProjectView {
        stages: p0.stages.update(s as int, StageView { name: trim(name@), updated_at: now@, ..p0.stages[s as int] }),
        updated_at: now@,
        ..p0
    }));
    normalize_project_structure(project);
    Ok(true)
}

// ---------------------------------------------------------------- stages

/// The project with only the listed stages that exist selected, stamped at `now`.
pub open spec fn stages_selected(p: ProjectView, ids: Seq<Seq<char>>, now: Seq<char>) -> ProjectView {
    ProjectView { selected_stage_ids: keep(ids, id_kept(p.stages)), updated_at: now, ..p }
}

/// Selects the stages that new sessions are recorded under; ids of stages that do not
/// exist are dropped.
pub fn set_selected_stages(project: &mut ProjectRecord, stage_ids: &Vec<String>, now: &str)
    ensures
        final(project)@ == normalized(stages_selected(old(project)@, strings_view(stage_ids@), now@)),
{
    let ghost p0 = project@;
    project.selected_stage_ids = retain_listed_ids(stage_ids, &project.stages);
    project.updated_at = owned(now);
    assert(project@ =~= stages_selected(p0, strings_view(stage_ids@), now@));
    normalize_project_structure(project);
}

/// The stages numbered by their place and stamped at `now`.
pub open spec fn renumbered(stages: Seq<StageView>, now: Seq<char>) -> Seq<StageView> {
    Seq::new(stages.len(), |k: int| StageView { order: k as usize, updated_at: now, ..stages[k] })
}

pub open spec fn stage_not(id: Seq<char>) -> spec_fn(StageView) -> bool {
    |s: StageView| s.id != id
}

pub open spec fn id_not(id: Seq<char>) -> spec_fn(Seq<char>) -> bool {
    |x: Seq<char>| x != id
}

/// The project without stage `id` (and without it in the selection), the rest renumbered.
pub open spec fn stage_deleted(p: ProjectView, id: Seq<char>, now: Seq<char>) -> ProjectView {
    ProjectView {
        stages: renumbered(keep(p.stages, stage_not(id)), now),
        selected_stage_ids: keep(p.selected_stage_ids, id_not(id)),
        updated_at: now,
        ..p
    }
}

fn renumber_stages(stages: &mut Vec<ProjectStageRecord>, now: &str)
    ensures
        stage_views(final(stages)@) == renumbered(stage_views(old(stages)@), now@),
{
    let ghost s0 = stage_views(stages@);
    let mut k: usize = 0;
    while k < stages.len()
        invariant
            k <= stages.len(),
            stages.len() == s0.len(),
            forall|m: int| 0 <= m < k ==> #[trigger] stage_views(stages@)[m] == renumbered(s0, now@)[m],
            forall|m: int| k <= m < stages.len() ==> #[trigger] stage_views(stages@)[m] == s0[m],
        decreases stages.len() - k,
    {
        assert(stage_views(stages@)[k as int] == s0[k as int]);
        let ghost before = stage_views(stages@);
        let stamp = owned(now);
        stages[k].order = k;
        stages[k].updated_at = stamp;
        assert forall|m: int| 0 <= m < stages.len() && m != k implies #[trigger] stage_views(stages@)[m] == before[m] by {}
        assert(stage_views(stages@)[k as int] == renumbered(s0, now@)[k as int]);
        k = k + 1;
    }
    assert(stage_views(stages@) =~= renumbered(s0, now@));
}

/// Deletes the stage `stage_id` (see `stage_deleted`).
pub fn delete_stage(project: &mut ProjectRecord, stage_id: &str, now: &str)
    ensures
        final(project)@ == normalized(stage_deleted(old(project)@, stage_id@, now@)),
{
    let ghost p0 = project@;
    // stages without the deleted one
    let ghost orig = stage_views(project.stages@);
    let ghost p = stage_not(stage_id@);
    let mut i: usize = 0;
    let ghost mut j: int = 0;
    assert(orig.take(0) =~= Seq::<StageView>::empty());
    assert(orig.skip(0) =~= orig);
    while i < project.stages.len()
        invariant
            0 <= j <= orig.len(),
            p == stage_not(stage_id@),
            i <= project.stages.len(),
            project.stages.len() - i == orig.len() - j,
            stage_views(project.stages@).take(i as int) == keep(orig.take(j), p),
            stage_views(project.stages@).skip(i as int) == orig.skip(j),
            project@ == (ProjectView { stages: project@.stages, ..p0 }),
        decreases project.stages.len() - i,
    {
        proof {
            lemma_keep_step(orig, p, j);
            assert(orig[j] == stage_views(project.stages@).skip(i as int)[0]);
            assert(stage_views(project.stages@)[i as int] == project.stages@[i as int]@);
        }
        let other = !str_eq(project.stages[i].id.as_str(), stage_id);
        assert(p(orig[j]) == other);
        let ghost before = stage_views(project.stages@);
        if other {
            i = i + 1;
            proof {
                assert(before.take(i as int) =~= before.take(i - 1).push(before[i - 1]));
                assert(before.skip(i as int) =~= before.skip(i - 1).drop_first());
                assert(orig.skip(j + 1) =~= orig.skip(j).drop_first());
            }
        } else {
            project.stages.remove(i);
            proof {
                assert(stage_views(project.stages@).take(i as int) =~= before.take(i as int));
                assert(stage_views(project.stages@).skip(i as int) =~= before.skip(i as int).drop_first());
                assert(orig.skip(j + 1) =~= orig.skip(j).drop_first());
            }
        }
        proof {
            j = j + 1;
        }
    }
    assert(orig.take(j) =~= orig);
    assert(stage_views(project.stages@).take(i as int) =~= stage_views(project.stages@));
    // the selection without the deleted one
    let ghost ids = strings_view(project.selected_stage_ids@);
    let ghost q = id_not(stage_id@);
    let mut kept: Vec<String> = Vec::new();
    let mut k: usize = 0;
    assert(strings_view(kept@) =~= keep(ids.take(0), q));
    while k < project.selected_stage_ids.len()
        invariant
            k <= project.selected_stage_ids.len(),
            ids == strings_view(project.selected_stage_ids@),
            q == id_not(stage_id@),
            strings_view(kept@) == keep(ids.take(k as int), q),
        decreases project.selected_stage_ids.len() - k,
    {
        proof {
            lemma_keep_step(ids, q, k as int);
        }
        if !str_eq(project.selected_stage_ids[k].as_str(), stage_id) {
            kept.push(project.selected_stage_ids[k].clone());
            assert(strings_view(kept@) =~= keep(ids.take(k as int), q).push(ids[k as int]));
        }
        k = k + 1;
    }
    assert(ids.take(k as int) =~= ids);
    project.selected_stage_ids = kept;
    renumber_stages(&mut project.stages, now);
    project.updated_at = owned(now);
    assert(project@ =~= stage_deleted(p0, stage_id@, now@));
    normalize_project_structure(project);
}

/// Where a stage moves: one up for a negative direction, one down (not past the end)
/// for a positive one.
pub open spec fn moved_index(index: int, len: int, direction: i32) -> int {
    if direction < 0 {
        if index > 0 { index - 1 } else { 0 }
    } else if direction > 0 {
        if index + 1 < len { index + 1 } else { if len > 0 { len - 1 } else { 0 } }
    } else {
        index
    }
}

/// The project with the stages at `i` and `j` swapped and all stages renumbered,
/// stamped at `now`.
pub open spec fn stage_moved(p: ProjectView, i: int, j: int, now: Seq<char>) -> ProjectView {
    ProjectView { stages: renumbered(p.stages.update(i, p.stages[j]).update(j, p.stages[i]), now), updated_at: now, ..p }
}

/// Moves the stage `stage_id` one place up or down (see `moved_index`), renumbering the
/// stages; returns whether anything moved.
pub fn reorder_stage(project: &mut ProjectRecord, stage_id: &str, direction: i32, now: &str) -> (changed: bool)
    ensures
        ({
            let p = old(project)@;
            let i = stage_index_of(p.stages, stage_id@);
            let j = moved_index(i, p.stages.len() as int, direction);
            &&& changed == (i < p.stages.len() && j != i)
            &&& changed ==> final(project)@ == normalized(stage_moved(p, i, j, now@))
            &&& !changed ==> final(project)@ == p
        }),
{
    let i = find_stage(project, stage_id);
    let len = project.stages.len();
    if i == len {
        return false;
    }
    let j = if direction < 0 {
        i.saturating_sub(1)
    } else if direction > 0 {
        let up = i + 1;
        let cap = len.saturating_sub(1);
        if up < cap { up } else { cap }
    } else {
        i
    };
    if j == i {
        return false;
    }
    let ghost p0 = project@;
    let ghost s0 = stage_views(project.stages@);
    let x = project.stages.remove(i);
    project.stages.insert(j, x);
    assert(stage_views(project.stages@) =~= s0.update(i as int, s0[j as int]).update(j as int, s0[i as int]));
    renumber_stages(&mut project.stages, now);
    project.updated_at = owned(now);
    assert(project@ =~= (ProjectView {
        stages: renumbered(s0.update(i as int, s0[j as int]).update(j as int, s0[i as int]), now@),
        updated_at: now@,
        ..p0
    }));
    normalize_project_structure(project);
    true
}


// ---------------------------------------------------------------- inclusion per stage

/// Whether the application is included in the project (false when there is none).
pub open spec fn app_included(p: ProjectView, app_key: Seq<char>) -> bool {
    let a = app_index_of(p.apps, app_key);
    a < p.apps.len() && p.apps[a].enabled
}

/// Whether the site is included in the project (false when there is none).
pub open spec fn tab_included(p: ProjectView, app_key: Seq<char>, tab_key: Seq<char>) -> bool {
    let a = app_index_of(p.apps, app_key);
    a < p.apps.len() && {
        let t = tab_index_of(p.apps[a].tabs, tab_key);
        t < p.apps[a].tabs.len() && p.apps[a].tabs[t].enabled
    }
}

/// Whether the link is included in the project (false when there is none).
pub open spec fn url_included(p: ProjectView, app_key: Seq<char>, tab_key: Seq<char>, url: Seq<char>) -> bool {
    let a = app_index_of(p.apps, app_key);
    a < p.apps.len() && {
        let t = tab_index_of(p.apps[a].tabs, tab_key);
        t < p.apps[a].tabs.len() && {
            let k = url_index_of(p.apps[a].tabs[t].urls, url);
            k < p.apps[a].tabs[t].urls.len() && p.apps[a].tabs[t].urls[k].enabled
        }
    }
}

/// A stage with its entry for an application (added when missing) set to `value`.
pub open spec fn stage_app_set(st: StageView, app_key: Seq<char>, value: bool, now: Seq<char>) -> StageView {
    let apps = with_app(st.apps, app_key);
    let i = app_pos(apps, app_key);
    StageView { apps: apps.update(i, StageAppView { enabled: value, ..apps[i] }), updated_at: now, ..st }
}

/// A stage with its entry for a site (added, with its application's, when missing) set to `value`.
pub open spec fn stage_tab_set(st: StageView, app_key: Seq<char>, tab_key: Seq<char>, value: bool, now: Seq<char>) -> StageView {
    let apps = with_app(st.apps, app_key);
    let i = app_pos(apps, app_key);
    let tabs = with_tab(apps[i].tabs, tab_key);
    let j = tab_pos(tabs, tab_key);
    StageView {
        apps: apps.update(i, StageAppView { tabs: tabs.update(j, StageTabView { enabled: value, ..tabs[j] }), ..apps[i] }),
        updated_at: now,
        ..st
    }
}

/// A stage with its entry for a link (added, with its site's and application's, when
/// missing) set to `value`.
pub open spec fn stage_url_set(
    st: StageView,
    app_key: Seq<char>,
    tab_key: Seq<char>,
    url: Seq<char>,
    value: bool,
    now: Seq<char>,
) -> StageView {
    let apps = with_app(st.apps, app_key);
    let i = app_pos(apps, app_key);
    let tabs = with_tab(apps[i].tabs, tab_key);
    let j = tab_pos(tabs, tab_key);
    let urls = with_url(tabs[j].urls, url);
    let k = url_pos(urls, url);
    StageView {
        apps: apps.update(
            i,
            StageAppView {
                tabs: tabs.update(j, StageTabView { urls: urls.update(k, StageUrlView { enabled: value, ..urls[k] }), ..tabs[j] }),
                ..apps[i]
            },
        ),
        updated_at: now,
        ..st
    }
}

fn app_included_exec(project: &ProjectRecord, app_key: &str) -> (res: bool)
    ensures
        res == app_included(project@, app_key@),
{
    let a = find_app_key(project, app_key);
    if a == project.apps.len() {
        false
    } else {
        assert(project@.apps[a as int] == project.apps@[a as int]@);
        project.apps[a].enabled
    }
}

fn tab_included_exec(project: &ProjectRecord, app_key: &str, tab_key: &str) -> (res: bool)
    ensures
        res == tab_included(project@, app_key@, tab_key@),
{
    let a = find_app_key(project, app_key);
    if a == project.apps.len() {
        return false;
    }
    let t = find_tab_key(project, a, tab_key);
    if t == project.apps[a].tabs.len() {
        return false;
    }
    assert(project@.apps[a as int] == project.apps@[a as int]@);
    assert(project@.apps[a as int].tabs[t as int] == project.apps@[a as int].tabs@[t as int]@);
    project.apps[a].tabs[t].enabled
}

fn url_included_exec(project: &ProjectRecord, app_key: &str, tab_key: &str, url: &str) -> (res: bool)
    ensures
        res == url_included(project@, app_key@, tab_key@, url@),
{
    let a = find_app_key(project, app_key);
    if a == project.apps.len() {
        return false;
    }
    let t = find_tab_key(project, a, tab_key);
    if t == project.apps[a].tabs.len() {
        return false;
    }
    let k = find_url_addr(project, a, t, url);
    if k == project.apps[a].tabs[t].urls.len() {
        return false;
    }
    assert(project@.apps[a as int] == project.apps@[a as int]@);
    assert(project@.apps[a as int].tabs[t as int] == project.apps@[a as int].tabs@[t as int]@);
    assert(project@.apps[a as int].tabs[t as int].urls[k as int] == project.apps@[a as int].tabs@[t as int].urls@[k as int]@);
    project.apps[a].tabs[t].urls[k].enabled
}

/// Includes or excludes an application in the stage `stage_id` only; it stays excluded
/// there when it is excluded in the project. Returns whether there was such a stage.
pub fn toggle_stage_app(project: &mut ProjectRecord, stage_id: &str, app_key: &str, enabled: bool, now: &str) -> (changed: bool)
    ensures
        ({
            let p = old(project)@;
            let s = stage_index_of(p.stages, stage_id@);
            &&& changed == (s < p.stages.len())
            &&& changed ==> final(project)@ == normalized(ProjectView {
                stages: p.stages.update(s, stage_app_set(p.stages[s], app_key@, enabled && app_included(p, app_key@), now@)),
                updated_at: now@,
                ..p
            })
            &&& !changed ==> final(project)@ == p
        }),
{
    let global = app_included_exec(project, app_key);
    let s = find_stage(project, stage_id);
    if s == project.stages.len() {
        return false;
    }
    let ghost p0 = project@;
    let ghost st0 = p0.stages[s as int];
    assert(st0 == project.stages@[s as int]@);
    let key = owned(app_key);
    proof {
        lemma_with_app(st0.apps, app_key@);
    }
    let i = ensure_stage_app(&mut project.stages[s], &key);
    project.stages[s].apps[i].enabled = enabled && global;
    project.stages[s].updated_at = owned(now);
    proof {
        let target = stage_app_set(st0, app_key@, enabled && global, now@);
        assert(project@.stages[s as int].apps =~= target.apps);
        assert(project@.stages[s as int] =~= target);
        assert(project@.stages =~= p0.stages.update(s as int, target));
    }
    project.updated_at = owned(now);
    assert(project@ =~= (ProjectView {
        stages: p0.stages.update(s as int, stage_app_set(st0, app_key@, enabled && global, now@)),
        updated_at: now@,
        ..p0
    }));
    normalize_project_structure(project);
    true
}

/// Includes or excludes a site in the stage `stage_id` only; it stays excluded there when
/// it is excluded in the project. Returns whether there was such a stage.
pub fn toggle_stage_tab(
    project: &mut ProjectRecord,
    stage_id: &str,
    app_key: &str,
    tab_key: &str,
    enabled: bool,
    now: &str,
) -> (changed: bool)
    ensures
        ({
            let p = old(project)@;
            let s = stage_index_of(p.stages, stage_id@);
            &&& changed == (s < p.stages.len())
            &&& changed ==> final(project)@ == normalized(ProjectView {
                stages: p.stages.update(
                    s,
                    stage_tab_set(p.stages[s], app_key@, tab_key@, enabled && tab_included(p, app_key@, tab_key@), now@),
                ),
                updated_at: now@,
                ..p
            })
            &&& !changed ==> final(project)@ == p
        }),
{
    let global = tab_included_exec(project, app_key, tab_key);
    let s = find_stage(project, stage_id);
    if s == project.stages.len() {
        return false;
    }
    let ghost p0 = project@;
    let ghost st0 = p0.stages[s as int];
    assert(st0 == project.stages@[s as int]@);
    let akey = owned(app_key);
    let tkey = owned(tab_key);
    proof {
        lemma_with_app(st0.apps, app_key@);
    }
    let i = ensure_stage_app(&mut project.stages[s], &akey);
    let ghost apps1 = project@.stages[s as int].apps;
    assert(apps1[i as int] == project.stages@[s as int].apps@[i as int]@);
    proof {
        lemma_with_tab(apps1[i as int].tabs, tab_key@);
    }
    let j = ensure_stage_tab(&mut project.stages[s].apps[i], &tkey);
    project.stages[s].apps[i].tabs[j].enabled = enabled && global;
    project.stages[s].updated_at = owned(now);
    proof {
        let target = stage_tab_set(st0, app_key@, tab_key@, enabled && global, now@);
        assert(project@.stages[s as int].apps[i as int].tabs =~= target.apps[i as int].tabs);
        assert(project@.stages[s as int].apps[i as int] =~= target.apps[i as int]);
        assert(project@.stages[s as int].apps =~= target.apps);
        assert(project@.stages[s as int] =~= target);
        assert(project@.stages =~= p0.stages.update(s as int, target));
    }
    project.updated_at = owned(now);
    assert(project@ =~= (ProjectView {
        stages: p0.stages.update(s as int, stage_tab_set(st0, app_key@, tab_key@, enabled && global, now@)),
        updated_at: now@,
        ..p0
    }));
    normalize_project_structure(project);
    true
}

/// Includes or excludes a link in the stage `stage_id` only; it stays excluded there when
/// it is excluded in the project. Returns whether there was such a stage.
pub fn toggle_stage_url(
    project: &mut ProjectRecord,
    stage_id: &str,
    app_key: &str,
    tab_key: &str,
    url: &str,
    enabled: bool,
    now: &str,
) -> (changed: bool)
    ensures
        ({
            let p = old(project)@;
            let s = stage_index_of(p.stages, stage_id@);
            &&& changed == (s < p.stages.len())
            &&& changed ==> final(project)@ == normalized(ProjectView {
                stages: p.stages.update(
                    s,
                    stage_url_set(
                        p.stages[s],
                        app_key@,
                        tab_key@,
                        url@,
                        enabled && url_included(p, app_key@, tab_key@, url@),
                        now@,
                    ),
                ),
                updated_at: now@,
                ..p
            })
            &&& !changed ==> final(project)@ == p
        }),
{
    let global = url_included_exec(project, app_key, tab_key, url);
    let s = find_stage(project, stage_id);
    if s == project.stages.len() {
        return false;
    }
    let ghost p0 = project@;
    let ghost st0 = p0.stages[s as int];
    assert(st0 == project.stages@[s as int]@);
    let akey = owned(app_key);
    let tkey = owned(tab_key);
    let ukey = owned(url);
    proof {
        lemma_with_app(st0.apps, app_key@);
    }
    let i = ensure_stage_app(&mut project.stages[s], &akey);
    let ghost apps1 = project@.stages[s as int].apps;
    assert(apps1[i as int] == project.stages@[s as int].apps@[i as int]@);
    proof {
        lemma_with_tab(apps1[i as int].tabs, tab_key@);
    }
    let j = ensure_stage_tab(&mut project.stages[s].apps[i], &tkey);
    let ghost tabs1 = project@.stages[s as int].apps[i as int].tabs;
    assert(tabs1[j as int] == project.stages@[s as int].apps@[i as int].tabs@[j as int]@);
    proof {
        lemma_with_url(tabs1[j as int].urls, url@);
    }
    let k = ensure_stage_url(&mut project.stages[s].apps[i].tabs[j], &ukey);
    project.stages[s].apps[i].tabs[j].urls[k].enabled = enabled && global;
    project.stages[s].updated_at = owned(now);
    proof {
        let target = stage_url_set(st0, app_key@, tab_key@, url@, enabled && global, now@);
        assert(project@.stages[s as int].apps[i as int].tabs[j as int].urls =~= target.apps[i as int].tabs[j as int].urls);
        assert(project@.stages[s as int].apps[i as int].tabs[j as int] =~= target.apps[i as int].tabs[j as int]);
        assert(project@.stages[s as int].apps[i as int].tabs =~= target.apps[i as int].tabs);
        assert(project@.stages[s as int].apps[i as int] =~= target.apps[i as int]);
        assert(project@.stages[s as int].apps =~= target.apps);
        assert(project@.stages[s as int] =~= target);
        assert(project@.stages =~= p0.stages.update(s as int, target));
    }
    project.updated_at = owned(now);
    assert(project@ =~= (ProjectView {
        stages: p0.stages.update(s as int, stage_url_set(st0, app_key@, tab_key@, url@, enabled && global, now@)),
        updated_at: now@,
        ..p0
    }));
    normalize_project_structure(project);
    true
}

// ---------------------------------------------------------------- checks before setting times

/// The sum of the values, when it fits in `u64`.
fn checked_sum(times: &Vec<u64>) -> (res: Option<u64>)
    ensures
        res == (if sum(times@) <= u64::MAX { Some(sum(times@) as u64) } else { None }),
{
    let mut total: u64 = 0;
    let mut k: usize = 0;
    while k < times.len()
        invariant
            k <= times.len(),
            total == sum(times@.take(k as int)),
        decreases times.len() - k,
    {
        proof {
            lemma_sum_prefix(times@, k as int);
            lemma_sum_prefix(times@, k + 1);
        }
        match total.checked_add(times[k]) {
            Some(t) => {
                total = t;
            },
            None => {
                proof {
                    lemma_sum_prefix(times@, k + 1);
                }
                return None;
            },
        }
        k = k + 1;
    }
    assert(times@.take(k as int) =~= times@);
    Some(total)
}

fn tab_fits(tab: &TabUsageRecord) -> (res: bool)
    ensures
        res == tab_times_fit(tab@),
{
    let mut times: Vec<u64> = Vec::new();
    let mut k: usize = 0;
    while k < tab.urls.len()
        invariant
            k <= tab.urls.len(),
            times@ == url_times(tab@.urls).take(k as int),
        decreases tab.urls.len() - k,
    {
        times.push(tab.urls[k].time_seconds);
        assert(times@ =~= url_times(tab@.urls).take(k + 1));
        k = k + 1;
    }
    assert(times@ =~= url_times(tab@.urls));
    checked_sum(&times).is_some()
}

/// Whether the time of application `app_key` can be set without a sum overflowing (see
/// `app_time_settable`).
pub fn app_time_can_be_set(project: &ProjectRecord, app_key: &str) -> (res: bool)
    ensures
        res == app_time_settable(project@, app_key@),
{
    let a = find_app_key(project, app_key);
    if a == project.apps.len() {
        return true;
    }
    let app = &project.apps[a];
    let ghost av = app@;
    assert(project@.apps[a as int] == av);
    let mut times: Vec<u64> = Vec::new();
    let mut k: usize = 0;
    while k < app.tabs.len()
        invariant
            k <= app.tabs.len(),
            av == app@,
            a < project.apps.len(),
            a == app_index_of(project@.apps, app_key@),
            project@.apps[a as int] == av,
            times@ == tab_times(av.tabs).take(k as int),
            forall|m: int| 0 <= m < k ==> tab_times_fit(#[trigger] av.tabs[m]),
        decreases app.tabs.len() - k,
    {
        assert(av.tabs[k as int] == app.tabs@[k as int]@);
        if !tab_fits(&app.tabs[k]) {
            assert(!tab_times_fit(av.tabs[k as int]));
            return false;
        }
        times.push(app.tabs[k].time_seconds);
        assert(times@ =~= tab_times(av.tabs).take(k + 1));
        k = k + 1;
    }
    assert(times@ =~= tab_times(av.tabs));
    assert(project@.apps[a as int] == av);
    checked_sum(&times).is_some()
}

/// Whether the time of site `tab_key` of application `app_key` can be set to `seconds`
/// without a sum overflowing (see `tab_time_settable`).
pub fn tab_time_can_be_set(project: &ProjectRecord, app_key: &str, tab_key: &str, seconds: u64) -> (res: bool)
    ensures
        res == tab_time_settable(project@, app_key@, tab_key@, seconds),
{
    let a = find_app_key(project, app_key);
    if a == project.apps.len() {
        return true;
    }
    let t = find_tab_key(project, a, tab_key);
    let app = &project.apps[a];
    assert(project@.apps[a as int] == app@);
    if t == app.tabs.len() {
        return true;
    }
    assert(app@.tabs[t as int] == app.tabs@[t as int]@);
    if !tab_fits(&app.tabs[t]) {
        return false;
    }
    if !str_eq(app.kind.as_str(), "browser") {
        return true;
    }
    let ghost changed = app@.tabs.update(t as int, tab_set_to(app@.tabs[t as int], seconds));
    let mut times: Vec<u64> = Vec::new();
    let mut k: usize = 0;
    while k < app.tabs.len()
        invariant
            k <= app.tabs.len(),
            t < app.tabs.len(),
            changed == app@.tabs.update(t as int, tab_set_to(app@.tabs[t as int], seconds)),
            times@ == tab_times(changed).take(k as int),
        decreases app.tabs.len() - k,
    {
        if k == t {
            times.push(seconds);
        } else {
            times.push(app.tabs[k].time_seconds);
        }
        assert(times@ =~= tab_times(changed).take(k + 1));
        k = k + 1;
    }
    assert(times@ =~= tab_times(changed));
    checked_sum(&times).is_some()
}

// ---------------------------------------------------------------- laws

/// Including or excluding an application changes only its inclusion: every application
/// keeps its key, its time and its sites, and the changed one has the new inclusion.
pub proof fn law_exclusion_keeps_data(p: ProjectView, a: int, enabled: bool, now: Seq<char>)
    requires
        0 <= a < p.apps.len(),
        p.stages.len() <= usize::MAX,
    ensures
        ({
            let q = normalized(app_toggled(p, a, enabled, now));
            &&& q.apps.len() == p.apps.len()
            &&& q.apps[a].enabled == enabled
            &&& forall|j: int|
                0 <= j < p.apps.len() ==> {
                    &&& (#[trigger] q.apps[j]).key == p.apps[j].key
                    &&& q.apps[j].time_seconds == p.apps[j].time_seconds
                    &&& q.apps[j].tabs.len() == p.apps[j].tabs.len()
                    &&& j != a ==> q.apps[j].enabled == p.apps[j].enabled
                }
        }),
{
    let t = app_toggled(p, a, enabled, now);
    law_normalized_layout(t);
    assert forall|j: int| 0 <= j < p.apps.len() implies t.apps[j].key == p.apps[j].key && t.apps[j].time_seconds
        == p.apps[j].time_seconds && t.apps[j].tabs.len() == p.apps[j].tabs.len() && (j != a ==> t.apps[j].enabled
        == p.apps[j].enabled) by {}
    assert(normalized(t).apps[a].enabled == t.apps[a].enabled);
}

/// The ids of the stages, in order.
pub open spec fn stage_ids(s: Seq<StageView>) -> Seq<Seq<char>> {
    s.map_values(|x: StageView| x.id)
}

/// The stages after a move are the swapped stages, in that order.
proof fn lemma_moved_ids(p: ProjectView, i: int, j: int, now: Seq<char>)
    requires
        0 <= i < p.stages.len(),
        0 <= j < p.stages.len(),
        p.stages.len() <= usize::MAX,
    ensures
        normalized(stage_moved(p, i, j, now)).stages.len() == p.stages.len(),
        stage_ids(normalized(stage_moved(p, i, j, now)).stages) == stage_ids(
            p.stages.update(i, p.stages[j]).update(j, p.stages[i]),
        ),
{
    let swapped = p.stages.update(i, p.stages[j]).update(j, p.stages[i]);
    let r = renumbered(swapped, now);
    assert forall|k: int| 0 <= k < r.len() implies #[trigger] r[k].order == k by {}
    lemma_sort_numbered(r);
    let q = normalized(stage_moved(p, i, j, now));
    assert(stage_ids(q.stages) =~= stage_ids(swapped));
}

/// One move of a stage swaps it with its neighbour above (for a negative direction,
/// unless it is first) or below (for a positive one, unless it is last), and numbers the
/// stages by their place; when neither applies the stage stays (and `reorder_stage`
/// changes nothing).
pub proof fn law_reorder_swaps(p: ProjectView, id: Seq<char>, direction: i32, now: Seq<char>)
    requires
        p.stages.len() <= usize::MAX,
        stage_index_of(p.stages, id) < p.stages.len(),
    ensures
        ({
            let n = p.stages.len() as int;
            let i = stage_index_of(p.stages, id);
            let j = moved_index(i, n, direction);
            let q = normalized(stage_moved(p, i, j, now));
            &&& j == (if direction < 0 && i > 0 {
                i - 1
            } else if direction > 0 && i + 1 < n {
                i + 1
            } else {
                i
            })
            &&& q.stages.len() == n
            &&& stage_ids(q.stages) == stage_ids(p.stages).update(i, p.stages[j].id).update(j, p.stages[i].id)
            &&& forall|k: int| 0 <= k < n ==> (#[trigger] q.stages[k]).order == k
        }),
{
    let n = p.stages.len() as int;
    let i = stage_index_of(p.stages, id);
    lemma_first_index_bounds(p.stages, stage_is_id(id));
    let j = moved_index(i, n, direction);
    lemma_moved_ids(p, i, j, now);
    let swapped = p.stages.update(i, p.stages[j]).update(j, p.stages[i]);
    assert(stage_ids(swapped) =~= stage_ids(p.stages).update(i, p.stages[j].id).update(j, p.stages[i].id));
    let r = renumbered(swapped, now);
    assert forall|k: int| 0 <= k < r.len() implies #[trigger] r[k].order == k by {}
    lemma_sort_numbered(r);
}

/// Moving a stage one place up and then one place down again puts every stage back in
/// its place.
pub proof fn law_reorder_undone(p: ProjectView, id: Seq<char>, now1: Seq<char>, now2: Seq<char>)
    requires
        p.stages.len() <= usize::MAX,
        0 < stage_index_of(p.stages, id) < p.stages.len(),
    ensures
        ({
            let n = p.stages.len() as int;
            let i = stage_index_of(p.stages, id);
            let j = moved_index(i, n, -1i32);
            let up = normalized(stage_moved(p, i, j, now1));
            let i2 = stage_index_of(up.stages, id);
            let j2 = moved_index(i2, up.stages.len() as int, 1i32);
            let down = normalized(stage_moved(up, i2, j2, now2));
            &&& j == i - 1
            &&& i2 == i - 1
            &&& j2 == i
            &&& stage_ids(down.stages) == stage_ids(p.stages)
        }),
{
    let n = p.stages.len() as int;
    let i = stage_index_of(p.stages, id);
    lemma_first_index_bounds(p.stages, stage_is_id(id));
    let j = i - 1;
    lemma_moved_ids(p, i, j, now1);
    let up = normalized(stage_moved(p, i, j, now1));
    let swapped = p.stages.update(i, p.stages[j]).update(j, p.stages[i]);
    assert forall|k: int| 0 <= k < j implies !stage_is_id(id)(#[trigger] up.stages[k]) by {
        assert(stage_ids(up.stages)[k] == stage_ids(swapped)[k]);
        assert(!stage_is_id(id)(p.stages[k]));
    }
    assert(stage_ids(up.stages)[j] == stage_ids(swapped)[j]);
    assert(stage_is_id(id)(p.stages[i]));
    lemma_first_index(up.stages, stage_is_id(id), j);
    lemma_moved_ids(up, j, i, now2);
    let down = normalized(stage_moved(up, j, i, now2));
    let back = up.stages.update(j, up.stages[i]).update(i, up.stages[j]);
    assert forall|k: int| 0 <= k < n implies #[trigger] stage_ids(down.stages)[k] == stage_ids(p.stages)[k] by {
        assert(stage_ids(down.stages)[k] == stage_ids(back)[k]);
        assert(stage_ids(up.stages)[i] == stage_ids(swapped)[i]);
        assert(stage_ids(up.stages)[k] == stage_ids(swapped)[k]);
    }
    assert(stage_ids(down.stages) =~= stage_ids(p.stages));
}

/// Every change to a project keeps its applications' keys unique, and each application's
/// site keys: normalising (which every edit ends with, and which is all that a change of
/// stages does to the applications), including or excluding an application, site or
/// link, setting an application's or a site's time, and recording a sample of an
/// application or of a browser site.
pub proof fn law_changes_keep_keys_unique(
    p: ProjectView,
    a: int,
    t: int,
    k: int,
    enabled: bool,
    seconds: u64,
    now: Seq<char>,
    o: ObservationView,
    index: int,
)
    requires
        keys_unique(p.apps),
    ensures
        keys_unique(normalized(p).apps),
        0 <= a < p.apps.len() ==> keys_unique(normalized(app_toggled(p, a, enabled, now)).apps),
        0 <= a < p.apps.len() && 0 <= t < p.apps[a].tabs.len() ==> keys_unique(
            normalized(tab_toggled(p, a, t, enabled, now)).apps,
        ),
        0 <= a < p.apps.len() && 0 <= t < p.apps[a].tabs.len() && 0 <= k < p.apps[a].tabs[t].urls.len() ==> keys_unique(
            normalized(url_toggled(p, a, t, k, enabled, now)).apps,
        ),
        0 <= a < p.apps.len() ==> keys_unique(
            normalized(ProjectView { apps: p.apps.update(a, app_set_to(p.apps[a], seconds)), updated_at: now, ..p }).apps,
        ),
        0 <= a < p.apps.len() && 0 <= t < p.apps[a].tabs.len() ==> keys_unique(
            normalized(ProjectView { apps: p.apps.update(a, app_with_tab_set(p.apps[a], t, seconds)), updated_at: now, ..p }).apps,
        ),
        keys_unique(apps_touched(p.apps, o, seconds)),
        keys_unique(apps_tab_touched(p.apps, index, o, seconds, now)),
{
    lemma_normalized_same_keys(p);
    lemma_same_keys_unique(p.apps, normalized(p).apps);
    if 0 <= a < p.apps.len() {
        let q = app_toggled(p, a, enabled, now);
        assert(same_keys(p.apps, q.apps));
        lemma_same_keys_unique(p.apps, q.apps);
        lemma_normalized_same_keys(q);
        lemma_same_keys_unique(q.apps, normalized(q).apps);
        let s1 = ProjectView { apps: p.apps.update(a, app_set_to(p.apps[a], seconds)), updated_at: now, ..p };
        assert(same_keys(p.apps, s1.apps));
        lemma_same_keys_unique(p.apps, s1.apps);
        lemma_normalized_same_keys(s1);
        lemma_same_keys_unique(s1.apps, normalized(s1).apps);
        if 0 <= t < p.apps[a].tabs.len() {
            let q2 = tab_toggled(p, a, t, enabled, now);
            assert(same_keys(p.apps, q2.apps));
            lemma_same_keys_unique(p.apps, q2.apps);
            lemma_normalized_same_keys(q2);
            lemma_same_keys_unique(q2.apps, normalized(q2).apps);
            let s2 = ProjectView { apps: p.apps.update(a, app_with_tab_set(p.apps[a], t, seconds)), updated_at: now, ..p };
            assert(same_keys(p.apps, s2.apps));
            lemma_same_keys_unique(p.apps, s2.apps);
            lemma_normalized_same_keys(s2);
            lemma_same_keys_unique(s2.apps, normalized(s2).apps);
            if 0 <= k < p.apps[a].tabs[t].urls.len() {
                let q3 = url_toggled(p, a, t, k, enabled, now);
                assert(same_keys(p.apps, q3.apps));
                lemma_same_keys_unique(p.apps, q3.apps);
                lemma_normalized_same_keys(q3);
                lemma_same_keys_unique(q3.apps, normalized(q3).apps);
            }
        }
    }
    // a sample of an application
    law_sample_adds_time_once(p.apps, o, seconds);
    let r = apps_touched(p.apps, o, seconds);
    let i = app_index_of(p.apps, o.process_name);
    lemma_first_index_bounds(p.apps, app_is_key(o.process_name));
    assert forall|j: int| 0 <= j < r.len() implies sites_unique(#[trigger] r[j].tabs) by {
        if j != i {
            assert(j < p.apps.len());
            assert(r[j] == p.apps[j]);
            assert(sites_unique(p.apps[j].tabs));
        } else if i < p.apps.len() {
            assert(r[j].tabs == p.apps[j].tabs);
        } else {
            assert(r[j].tabs.len() == 0);
        }
    }
    // a sample of a browser site
    let r2 = apps_tab_touched(p.apps, index, o, seconds, now);
    if 0 <= index < p.apps.len() {
        law_site_sample_adds_time_once(p.apps[index].tabs, o, seconds, now);
        assert forall|x: int, y: int| #![trigger r2[x], r2[y]] 0 <= x < y < r2.len() implies r2[x].key != r2[y].key by {
            assert(r2[x].key == p.apps[x].key && r2[y].key == p.apps[y].key);
        }
        assert forall|j: int| 0 <= j < r2.len() implies sites_unique(#[trigger] r2[j].tabs) by {
            if j != index {
                assert(r2[j] == p.apps[j]);
            }
        }
    }
}

/// Setting a stage's entry for a site that the project has (the only one with its key,
/// in the only application with its key) to `v`, then normalizing, leaves the stage
/// with that entry set to `v` (for `v` true, when the project includes the site).
proof fn lemma_stage_site_set(
    p: ProjectView,
    stage_id: Seq<char>,
    a: int,
    t: int,
    ak: Seq<char>,
    tk: Seq<char>,
    v: bool,
    now: Seq<char>,
)
    requires
        stage_index_of(p.stages, stage_id) < p.stages.len(),
        0 <= a < p.apps.len(),
        p.apps[a].key == ak,
        forall|m: int| 0 <= m < p.apps.len() && (#[trigger] p.apps[m]).key == ak ==> m == a,
        0 <= t < p.apps[a].tabs.len(),
        p.apps[a].tabs[t].key == tk,
        forall|u: int| 0 <= u < p.apps[a].tabs.len() && (#[trigger] p.apps[a].tabs[u]).key == tk ==> u == t,
        v ==> p.apps[a].tabs[t].enabled,
    ensures
        tab_included(p, ak, tk) == p.apps[a].tabs[t].enabled,
        ({
            let s = stage_index_of(p.stages, stage_id);
            let q = normalized(ProjectView { stages: p.stages.update(s, stage_tab_set(p.stages[s], ak, tk, v, now)), updated_at: now, ..p });
            exists|k: int|
                0 <= k < q.stages.len() && (#[trigger] q.stages[k]).id == stage_id && crate::structure::site_at(
                    q.stages[k].apps,
                    ak,
                    tk,
                    v,
                )
        }),
{
    assert forall|m: int| 0 <= m < a implies !app_is_key(ak)(#[trigger] p.apps[m]) by {}
    lemma_first_index(p.apps, app_is_key(ak), a);
    let tabs0 = p.apps[a].tabs;
    assert forall|u: int| 0 <= u < t implies !tab_is_key(tk)(#[trigger] tabs0[u]) by {}
    lemma_first_index(tabs0, tab_is_key(tk), t);
    // The stage entry is set.
    let s = stage_index_of(p.stages, stage_id);
    lemma_first_index_bounds(p.stages, stage_is_id(stage_id));
    let st = p.stages[s];
    let st2 = stage_tab_set(st, ak, tk, v, now);
    let apps1 = with_app(st.apps, ak);
    lemma_with_app(st.apps, ak);
    let i = app_pos(apps1, ak);
    let tabs1 = with_tab(apps1[i].tabs, tk);
    lemma_with_tab(apps1[i].tabs, tk);
    let j = tab_pos(tabs1, tk);
    lemma_first_index_bounds(apps1, crate::structure::app_is(ak));
    lemma_first_index_bounds(tabs1, crate::structure::tab_is(tk));
    let tabs2 = st2.apps[i].tabs;
    assert forall|m: int| 0 <= m < j implies !crate::structure::tab_is(tk)(#[trigger] tabs2[m]) by {
        assert(tabs2[m] == tabs1[m]);
    }
    lemma_first_index(tabs2, crate::structure::tab_is(tk), j);
    assert forall|m: int| 0 <= m < i implies !crate::structure::app_is(ak)(#[trigger] st2.apps[m]) by {
        assert(st2.apps[m] == apps1[m]);
    }
    lemma_first_index(st2.apps, crate::structure::app_is(ak), i);
    assert(crate::structure::site_at(st2.apps, ak, tk, v));
    // The stage is still there after sorting.
    let stages = p.stages.update(s, st2);
    assert(stages[s] == st2);
    crate::normalize::lemma_sort_keeps(stages);
    let sorted = crate::normalize::sort_stages(stages);
    assert(sorted.contains(st2));
    let k = choose|k: int| 0 <= k < sorted.len() && sorted[k] == st2;
    let fa = crate::normalize::fix_apps(p.apps);
    let q = normalized(ProjectView { stages: stages, updated_at: now, ..p });
    assert(q.stages[k] == crate::normalize::laid_out(sorted, fa)[k]);
    assert(q.stages[k].id == stage_id);
    // Bringing the stage in line with the applications keeps the entry as set.
    let f = crate::structure::app_kept(fa);
    assert(fa[a].key == ak);
    assert(f(st2.apps[i]));
    crate::seqs::lemma_keep_first(st2.apps, f, crate::structure::app_is(ak));
    let kept = keep(st2.apps, f);
    assert(crate::structure::site_at(kept, ak, tk, v));
    assert forall|m: int|
        0 <= m < fa.len() && (#[trigger] fa[m]).key == ak implies crate::structure::tab_listed(fa[m].tabs, tk) && (v
            ==> forall|u: int| 0 <= u < fa[m].tabs.len() && (#[trigger] fa[m].tabs[u]).key == tk ==> fa[m].tabs[u].enabled) by {
        assert(p.apps[m].key == ak);
        assert(m == a);
        assert(fa[a].tabs[t].key == tk);
        assert forall|u: int| 0 <= u < fa[m].tabs.len() && (#[trigger] fa[m].tabs[u]).key == tk implies u == t by {
            assert(p.apps[a].tabs[u].key == tk);
        }
    }
    crate::structure::lemma_sync_apps_keep_on(kept, fa, ak, tk, v);
    assert(q.stages[k].apps == crate::structure::sync_stage_apps(st2.apps, fa));
}

/// Including in a stage a site that the project has and includes leaves the stage's
/// entry for it included: after `toggle_stage_tab` with `enabled` true, for the
/// application at `a` with key `ak` and its site at `t` with key `tk` (each the only one
/// with its key), the stage still carries an included entry for that site. (With two
/// sites or applications of one key the stage follows the last of them.)
pub proof fn law_stage_site_included(
    p: ProjectView,
    stage_id: Seq<char>,
    a: int,
    t: int,
    ak: Seq<char>,
    tk: Seq<char>,
    now: Seq<char>,
)
    requires
        stage_index_of(p.stages, stage_id) < p.stages.len(),
        0 <= a < p.apps.len(),
        p.apps[a].key == ak,
        forall|m: int| 0 <= m < p.apps.len() && (#[trigger] p.apps[m]).key == ak ==> m == a,
        0 <= t < p.apps[a].tabs.len(),
        p.apps[a].tabs[t].key == tk,
        forall|u: int| 0 <= u < p.apps[a].tabs.len() && (#[trigger] p.apps[a].tabs[u]).key == tk ==> u == t,
        p.apps[a].tabs[t].enabled,
    ensures
        ({
            let s = stage_index_of(p.stages, stage_id);
            let q = normalized(ProjectView {
                stages: p.stages.update(s, stage_tab_set(p.stages[s], ak, tk, true && tab_included(p, ak, tk), now)),
                updated_at: now,
                ..p
            });
            exists|k: int|
                0 <= k < q.stages.len() && (#[trigger] q.stages[k]).id == stage_id && crate::structure::site_on(
                    q.stages[k].apps,
                    ak,
                    tk,
                )
        }),
{
    lemma_stage_site_set(p, stage_id, a, t, ak, tk, true, now);
}

/// Excluding from a stage a site that the project has leaves the stage's entry for it
/// excluded: after `toggle_stage_tab` with `enabled` false, for the application at `a`
/// with key `ak` and its site at `t` with key `tk` (each the only one with its key), the
/// stage carries an excluded entry for that site, whether the project includes it or not.
pub proof fn law_stage_site_excluded(
    p: ProjectView,
    stage_id: Seq<char>,
    a: int,
    t: int,
    ak: Seq<char>,
    tk: Seq<char>,
    now: Seq<char>,
)
    requires
        stage_index_of(p.stages, stage_id) < p.stages.len(),
        0 <= a < p.apps.len(),
        p.apps[a].key == ak,
        forall|m: int| 0 <= m < p.apps.len() && (#[trigger] p.apps[m]).key == ak ==> m == a,
        0 <= t < p.apps[a].tabs.len(),
        p.apps[a].tabs[t].key == tk,
        forall|u: int| 0 <= u < p.apps[a].tabs.len() && (#[trigger] p.apps[a].tabs[u]).key == tk ==> u == t,
    ensures
        ({
            let s = stage_index_of(p.stages, stage_id);
            let q = normalized(ProjectView {
                stages: p.stages.update(s, stage_tab_set(p.stages[s], ak, tk, false && tab_included(p, ak, tk), now)),
                updated_at: now,
                ..p
            });
            exists|k: int|
                0 <= k < q.stages.len() && (#[trigger] q.stages[k]).id == stage_id && crate::structure::site_at(
                    q.stages[k].apps,
                    ak,
                    tk,
                    false,
                )
        }),
{
    lemma_stage_site_set(p, stage_id, a, t, ak, tk, false, now);
}

} // verus!
