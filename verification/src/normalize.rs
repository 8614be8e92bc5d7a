//! Normalisation of a project's structure, done after every change: links get a
//! usable address and title, stages are ordered and numbered, the selection only
//! names existing stages, and every stage mirrors the project's applications.
use vstd::prelude::*;
use crate::models::{
    app_views, stage_views, strings_view, tab_views, url_views, AppUsageRecord, AppView,
    ProjectRecord, ProjectStageRecord, ProjectView, StageView, TabUsageRecord, TabView, UrlView,
    VisitedUrlRecord,
};
use crate::seqs::{dedup, first_index, keep, lemma_first_index, lemma_keep_step};
use crate::structure::{app_kept, same_keys, keys_unique, lemma_same_keys_unique, lemma_sync_stage_apps_twice, lemma_sync_apps_mirror, mirrors_app, mirrors_app_fully, sites_unique, sync_stage_apps, sync_stage_layout};
use crate::text::{blank, is_blank, seq_lt, str_lt};

verus! {

// ---------------------------------------------------------------- links

/// A link with an empty address takes its title as address; then one with an empty
/// title takes its address as title.
pub open spec fn fix_url(u: UrlView) -> UrlView {
    let url = if is_blank(u.url) { u.title } else { u.url };
    let title = if is_blank(u.title) { url } else { u.title };
    UrlView { url: url, title: title, ..u }
}

pub open spec fn fix_tab(t: TabView) -> TabView {
    TabView { urls: t.urls.map_values(|u: UrlView| fix_url(u)), ..t }
}

pub open spec fn fix_app(a: AppView) -> AppView {
    AppView { tabs: a.tabs.map_values(|t: TabView| fix_tab(t)), ..a }
}

pub open spec fn fix_apps(apps: Seq<AppView>) -> Seq<AppView> {
    apps.map_values(|a: AppView| fix_app(a))
}

fn fix_url_record(u: &mut VisitedUrlRecord)
    ensures
        final(u)@ == fix_url(old(u)@),
{
    if blank(u.url.as_str()) {
        u.url = u.title.clone();
    }
    if blank(u.title.as_str()) {
        u.title = u.url.clone();
    }
}

fn fix_tab_record(t: &mut TabUsageRecord)
    ensures
        final(t)@ == fix_tab(old(t)@),
{
    let mut k: usize = 0;
    while k < t.urls.len()
        invariant
            k <= t.urls.len(),
            t.urls.len() == old(t).urls.len(),
            t@ == (TabView { urls: t@.urls, ..old(t)@ }),
            forall|m: int| 0 <= m < k ==> #[trigger] t@.urls[m] == fix_url(old(t)@.urls[m]),
            forall|m: int| k <= m < t.urls.len() ==> #[trigger] t@.urls[m] == old(t)@.urls[m],
        decreases t.urls.len() - k,
    {
        let ghost before = url_views(t.urls@);
        let ghost e = t.urls@[k as int]@;
        assert(t@.urls[k as int] == e);
        assert(e == old(t)@.urls[k as int]);
        fix_url_record(&mut t.urls[k]);
        assert(t.urls@[k as int]@ == fix_url(e));
        assert(t@.urls[k as int] == fix_url(old(t)@.urls[k as int]));
        assert forall|m: int| 0 <= m < t.urls.len() && m != k implies #[trigger] url_views(
            t.urls@,
        )[m] == before[m] by {}
        k = k + 1;
    }
    assert(t@.urls =~= fix_tab(old(t)@).urls);
}

fn fix_app_record(a: &mut AppUsageRecord)
    ensures
        final(a)@ == fix_app(old(a)@),
{
    let mut k: usize = 0;
    while k < a.tabs.len()
        invariant
            k <= a.tabs.len(),
            a.tabs.len() == old(a).tabs.len(),
            a@ == (AppView { tabs: a@.tabs, ..old(a)@ }),
            forall|m: int| 0 <= m < k ==> #[trigger] a@.tabs[m] == fix_tab(old(a)@.tabs[m]),
            forall|m: int| k <= m < a.tabs.len() ==> #[trigger] a@.tabs[m] == old(a)@.tabs[m],
        decreases a.tabs.len() - k,
    {
        let ghost before = tab_views(a.tabs@);
        let ghost e = a.tabs@[k as int]@;
        assert(a@.tabs[k as int] == e);
        assert(e == old(a)@.tabs[k as int]);
        fix_tab_record(&mut a.tabs[k]);
        assert(a.tabs@[k as int]@ == fix_tab(e));
        assert(a@.tabs[k as int] == fix_tab(old(a)@.tabs[k as int]));
        assert forall|m: int| 0 <= m < a.tabs.len() && m != k implies #[trigger] tab_views(
            a.tabs@,
        )[m] == before[m] by {}
        k = k + 1;
    }
    assert(a@.tabs =~= fix_app(old(a)@).tabs);
}

fn fix_all_apps(apps: &mut Vec<AppUsageRecord>)
    ensures
        app_views(final(apps)@) == fix_apps(app_views(old(apps)@)),
{
    let mut k: usize = 0;
    while k < apps.len()
        invariant
            k <= apps.len(),
            apps.len() == old(apps).len(),
            forall|m: int| 0 <= m < k ==> #[trigger] app_views(apps@)[m] == fix_app(app_views(old(apps)@)[m]),
            forall|m: int| k <= m < apps.len() ==> #[trigger] app_views(apps@)[m] == app_views(old(apps)@)[m],
        decreases apps.len() - k,
    {
        let ghost before = app_views(apps@);
        let ghost e = apps@[k as int]@;
        assert(app_views(apps@)[k as int] == e);
        assert(e == app_views(old(apps)@)[k as int]);
        fix_app_record(&mut apps[k]);
        assert(apps@[k as int]@ == fix_app(e));
        assert(app_views(apps@)[k as int] == fix_app(app_views(old(apps)@)[k as int]));
        assert forall|m: int| 0 <= m < apps.len() && m != k implies #[trigger] app_views(
            apps@,
        )[m] == before[m] by {}
        k = k + 1;
    }
    assert(app_views(apps@) =~= fix_apps(app_views(old(apps)@)));
}

// ---------------------------------------------------------------- stage order

/// Stages are ordered by their number, and stages of equal number by creation time.
pub open spec fn stage_lt(a: StageView, b: StageView) -> bool {
    a.order < b.order || (a.order == b.order && seq_lt(a.created_at, b.created_at))
}

pub open spec fn placed_after(x: StageView) -> spec_fn(StageView) -> bool {
    |e: StageView| stage_lt(x, e)
}

/// `x` inserted into `s` before the first stage that comes strictly after it.
pub open spec fn insert_stage(s: Seq<StageView>, x: StageView) -> Seq<StageView> {
    s.insert(first_index(s, placed_after(x)), x)
}

/// The stable sort of stages by number, then creation time (`sort_by` with that key).
pub open spec fn sort_stages(s: Seq<StageView>) -> Seq<StageView>
    decreases s.len(),
{
    if s.len() == 0 {
        s
    } else {
        insert_stage(sort_stages(s.drop_last()), s.last())
    }
}

fn stage_lt_exec(a: &ProjectStageRecord, b: &ProjectStageRecord) -> (res: bool)
    ensures
        res == stage_lt(a@, b@),
{
    a.order < b.order || (a.order == b.order && str_lt(a.created_at.as_str(), b.created_at.as_str()))
}

fn sort_stage_records(v: &mut Vec<ProjectStageRecord>)
    ensures
        stage_views(final(v)@) == sort_stages(stage_views(old(v)@)),
{
    let ghost orig = stage_views(v@);
    let mut sorted: Vec<ProjectStageRecord> = Vec::new();
    let ghost mut j: int = 0;
    assert(orig.take(0) =~= Seq::<StageView>::empty());
    assert(orig.skip(0) =~= orig);
    assert(stage_views(sorted@) =~= Seq::<StageView>::empty());
    while v.len() > 0
        invariant
            0 <= j <= orig.len(),
            v.len() == orig.len() - j,
            stage_views(sorted@) == sort_stages(orig.take(j)),
            stage_views(v@) == orig.skip(j),
        decreases v.len(),
    {
        let ghost rest = stage_views(v@);
        let x = v.remove(0);
        proof {
            assert(x@ == rest[0]);
            assert(rest[0] == orig[j]);
            assert(stage_views(v@) =~= rest.drop_first());
            assert(orig.skip(j + 1) =~= orig.skip(j).drop_first());
            assert(orig.take(j + 1).drop_last() =~= orig.take(j));
            assert(orig.take(j + 1).last() == orig[j]);
        }
        let ghost sv = stage_views(sorted@);
        let mut pos: usize = 0;
        while pos < sorted.len() && !stage_lt_exec(&x, &sorted[pos])
            invariant
                pos <= sorted.len(),
                sv == stage_views(sorted@),
                forall|m: int| 0 <= m < pos ==> !placed_after(x@)(#[trigger] sv[m]),
            decreases sorted.len() - pos,
        {
            pos = pos + 1;
        }
        proof {
            lemma_first_index(sv, placed_after(x@), pos as int);
        }
        sorted.insert(pos, x);
        assert(stage_views(sorted@) =~= insert_stage(sv, x@));
        proof {
            j = j + 1;
        }
    }
    assert(orig.take(j) =~= orig);
    *v = sorted;
}

// ---------------------------------------------------------------- selection

/// Whether a stage with this id exists.
pub open spec fn stage_listed(stages: Seq<StageView>, id: Seq<char>) -> bool {
    exists|k: int| 0 <= k < stages.len() && stages[k].id == id
}

pub open spec fn id_kept(stages: Seq<StageView>) -> spec_fn(Seq<char>) -> bool {
    |id: Seq<char>| stage_listed(stages, id)
}

fn stage_listed_exec(stages: &Vec<ProjectStageRecord>, id: &String) -> (res: bool)
    ensures
        res == stage_listed(stage_views(stages@), id@),
{
    let mut k: usize = 0;
    while k < stages.len()
        invariant
            k <= stages.len(),
            forall|m: int| 0 <= m < k ==> stage_views(stages@)[m].id != id@,
        decreases stages.len() - k,
    {
        if stages[k].id == *id {
            assert(stage_views(stages@)[k as int].id == id@);
            return true;
        }
        k = k + 1;
    }
    false
}

pub fn retain_listed_ids(ids: &Vec<String>, stages: &Vec<ProjectStageRecord>) -> (res: Vec<String>)
    ensures
        strings_view(res@) == keep(strings_view(ids@), id_kept(stage_views(stages@))),
{
    let ghost s = strings_view(ids@);
    let ghost p = id_kept(stage_views(stages@));
    let mut out: Vec<String> = Vec::new();
    let mut k: usize = 0;
    assert(strings_view(out@) =~= keep(s.take(0), p));
    while k < ids.len()
        invariant
            k <= ids.len(),
            s == strings_view(ids@),
            p == id_kept(stage_views(stages@)),
            strings_view(out@) == keep(s.take(k as int), p),
        decreases ids.len() - k,
    {
        proof {
            lemma_keep_step(s, p, k as int);
        }
        if stage_listed_exec(stages, &ids[k]) {
            out.push(ids[k].clone());
            assert(strings_view(out@) =~= keep(s.take(k as int), p).push(s[k as int]));
        }
        k = k + 1;
    }
    assert(s.take(k as int) =~= s);
    out
}

proof fn lemma_dedup_step(s: Seq<Seq<char>>, k: int)
    requires
        0 <= k < s.len(),
    ensures
        dedup(s.take(k + 1)) == if k > 0 && s[k] == s[k - 1] {
            dedup(s.take(k))
        } else {
            dedup(s.take(k)).push(s[k])
        },
{
    let t = s.take(k + 1);
    assert(t.drop_last() =~= s.take(k));
    assert(t.last() == s[k]);
    if k > 0 {
        assert(t[t.len() - 2] == s[k - 1]);
    } else {
        assert(s.take(0) =~= Seq::<Seq<char>>::empty());
    }
}

fn dedup_ids(ids: &Vec<String>) -> (res: Vec<String>)
    ensures
        strings_view(res@) == dedup(strings_view(ids@)),
{
    let ghost s = strings_view(ids@);
    let mut out: Vec<String> = Vec::new();
    let mut k: usize = 0;
    assert(strings_view(out@) =~= dedup(s.take(0)));
    while k < ids.len()
        invariant
            k <= ids.len(),
            s == strings_view(ids@),
            strings_view(out@) == dedup(s.take(k as int)),
        decreases ids.len() - k,
    {
        proof {
            lemma_dedup_step(s, k as int);
        }
        if k == 0 || ids[k] != ids[k - 1] {
            out.push(ids[k].clone());
            assert(strings_view(out@) =~= dedup(s.take(k as int)).push(s[k as int]));
        }
        k = k + 1;
    }
    assert(s.take(k as int) =~= s);
    out
}

// ---------------------------------------------------------------- the whole project

/// Each stage numbered by its place and mirroring `apps`.
pub open spec fn laid_out(stages: Seq<StageView>, apps: Seq<AppView>) -> Seq<StageView> {
    Seq::new(
        stages.len(),
        |i: int| StageView { order: i as usize, apps: sync_stage_apps(stages[i].apps, apps), ..stages[i] },
    )
}

/// The normal form of a project.
pub open spec fn normalized(p: ProjectView) -> ProjectView {
    let apps = fix_apps(p.apps);
    let sorted = sort_stages(p.stages);
    ProjectView {
        apps: apps,
        stages: laid_out(sorted, apps),
        selected_stage_ids: dedup(keep(p.selected_stage_ids, id_kept(sorted))),
        ..p
    }
}

/// Brings a project into its normal form (see `normalized`).
pub fn normalize_project_structure(project: &mut ProjectRecord)
    ensures
        final(project)@ == normalized(old(project)@),
{
    fix_all_apps(&mut project.apps);
    sort_stage_records(&mut project.stages);
    let kept = retain_listed_ids(&project.selected_stage_ids, &project.stages);
    project.selected_stage_ids = dedup_ids(&kept);
    let ghost sorted = stage_views(project.stages@);
    let ghost apps = app_views(project.apps@);
    let mut i: usize = 0;
    while i < project.stages.len()
        invariant
            i <= project.stages.len(),
            project.stages.len() == sorted.len(),
            apps == app_views(project.apps@),
            forall|m: int| 0 <= m < i ==> #[trigger] stage_views(project.stages@)[m] == laid_out(sorted, apps)[m],
            forall|m: int| i <= m < project.stages.len() ==> #[trigger] stage_views(project.stages@)[m] == sorted[m],
            project@ == (ProjectView { stages: project@.stages, ..project@ }),
            app_views(project.apps@) == fix_apps(app_views(old(project).apps@)),
            strings_view(project.selected_stage_ids@) == dedup(keep(old(project)@.selected_stage_ids, id_kept(sorted))),
            sorted == sort_stages(old(project)@.stages),
            project.id@ == old(project).id@,
            project.name@ == old(project).name@,
            project.client@ == old(project).client@,
            project.note@ == old(project).note@,
            project.created_at@ == old(project).created_at@,
            project.updated_at@ == old(project).updated_at@,
            project@.sessions == old(project)@.sessions,
            project@.category_id == old(project)@.category_id,
            project@.color == old(project)@.color,
        decreases project.stages.len() - i,
    {
        let ghost before = stage_views(project.stages@);
        let ghost e = project.stages@[i as int]@;
        assert(stage_views(project.stages@)[i as int] == e);
        assert(e == sorted[i as int]);
        project.stages[i].order = i;
        assert(project.stages@[i as int]@ == (StageView { order: i, ..e }));
        sync_stage_layout(&mut project.stages[i], &project.apps);
        assert(stage_views(project.stages@)[i as int] == laid_out(sorted, apps)[i as int]);
        assert forall|m: int| 0 <= m < project.stages.len() && m != i implies #[trigger] stage_views(
            project.stages@,
        )[m] == before[m] by {}
        i = i + 1;
    }
    assert(stage_views(project.stages@) =~= laid_out(sorted, apps));
}

// ---------------------------------------------------------------- laws

proof fn lemma_dedup(s: Seq<Seq<char>>)
    ensures
        s.len() > 0 ==> dedup(s).len() > 0 && dedup(s).last() == s.last(),
        forall|k: int| 0 <= k < dedup(s).len() ==> s.contains(#[trigger] dedup(s)[k]),
        forall|k: int| 0 <= k < dedup(s).len() - 1 ==> #[trigger] dedup(s)[k] != dedup(s)[k + 1],
    decreases s.len(),
{
    if s.len() > 1 {
        let t = s.drop_last();
        lemma_dedup(t);
        let d = dedup(t);
        assert forall|k: int| 0 <= k < dedup(s).len() implies s.contains(#[trigger] dedup(s)[k]) by {
            if k < d.len() {
                assert(t.contains(d[k]));
                let j = choose|j: int| 0 <= j < t.len() && t[j] == d[k];
                assert(s[j] == t[j]);
            } else {
                assert(dedup(s)[k] == s[s.len() - 1]);
            }
        }
        assert forall|k: int| 0 <= k < dedup(s).len() - 1 implies #[trigger] dedup(s)[k] != dedup(s)[k + 1] by {
            if k + 1 < d.len() {
                assert(dedup(s)[k] == d[k] && dedup(s)[k + 1] == d[k + 1]);
            } else {
                assert(dedup(s)[k] == d.last());
                assert(t.last() == s[s.len() - 2]);
            }
        }
    } else if s.len() == 1 {
        assert(dedup(s)[0] == s[0]);
    }
}

proof fn lemma_sort_stages_len(s: Seq<StageView>)
    ensures
        sort_stages(s).len() == s.len(),
        forall|x: StageView| #[trigger] sort_stages(s).contains(x) ==> s.contains(x),
    decreases s.len(),
{
    if s.len() > 0 {
        let t = s.drop_last();
        lemma_sort_stages_len(t);
        let r = sort_stages(t);
        crate::seqs::lemma_first_index_bounds(r, placed_after(s.last()));
        let p = first_index(r, placed_after(s.last()));
        assert forall|x: StageView| #[trigger] sort_stages(s).contains(x) implies s.contains(x) by {
            let q = sort_stages(s);
            let m = choose|m: int| 0 <= m < q.len() && q[m] == x;
            if m == p {
                assert(s[s.len() - 1] == x);
            } else {
                let rm = if m < p { m } else { m - 1 };
                assert(r[rm] == x);
                assert(r.contains(x));
                assert(t.contains(x));
                let j = choose|j: int| 0 <= j < t.len() && t[j] == x;
                assert(s[j] == x);
            }
        }
    }
}

/// Sorting the stages loses none of them.
pub proof fn lemma_sort_keeps(s: Seq<StageView>)
    ensures
        forall|i: int| 0 <= i < s.len() ==> #[trigger] sort_stages(s).contains(s[i]),
    decreases s.len(),
{
    if s.len() > 0 {
        let t = s.drop_last();
        lemma_sort_keeps(t);
        let r = sort_stages(t);
        crate::seqs::lemma_first_index_bounds(r, placed_after(s.last()));
        let p = first_index(r, placed_after(s.last()));
        let q = sort_stages(s);
        assert(q == r.insert(p, s.last()));
        assert forall|i: int| 0 <= i < s.len() implies #[trigger] q.contains(s[i]) by {
            if i == s.len() - 1 {
                assert(q[p] == s[i]);
            } else {
                assert(s[i] == t[i]);
                assert(r.contains(t[i]));
                let m = choose|m: int| 0 <= m < r.len() && r[m] == t[i];
                if m < p {
                    assert(q[m] == r[m]);
                } else {
                    assert(q[m + 1] == r[m]);
                }
            }
        }
    }
}

/// After normalisation the stages are numbered by their place, the selection names only
/// existing stages and never the same one twice in a row, and every application keeps
/// its key, inclusion, time and sites.
pub proof fn law_normalized_layout(p: ProjectView)
    requires
        p.stages.len() <= usize::MAX,
    ensures
        normalized(p).stages.len() == p.stages.len(),
        forall|i: int| 0 <= i < normalized(p).stages.len() ==> (#[trigger] normalized(p).stages[i]).order == i,
        forall|k: int|
            0 <= k < normalized(p).selected_stage_ids.len() ==> stage_listed(
                normalized(p).stages,
                #[trigger] normalized(p).selected_stage_ids[k],
            ),
        forall|k: int|
            0 <= k < normalized(p).selected_stage_ids.len() - 1 ==> #[trigger] normalized(p).selected_stage_ids[k]
                != normalized(p).selected_stage_ids[k + 1],
        normalized(p).apps.len() == p.apps.len(),
        forall|j: int|
            0 <= j < p.apps.len() ==> {
                &&& (#[trigger] normalized(p).apps[j]).key == p.apps[j].key
                &&& normalized(p).apps[j].enabled == p.apps[j].enabled
                &&& normalized(p).apps[j].time_seconds == p.apps[j].time_seconds
                &&& normalized(p).apps[j].tabs.len() == p.apps[j].tabs.len()
            },
{
    let sorted = sort_stages(p.stages);
    lemma_sort_stages_len(p.stages);
    let kept = keep(p.selected_stage_ids, id_kept(sorted));
    crate::seqs::lemma_keep_all(p.selected_stage_ids, id_kept(sorted));
    lemma_dedup(kept);
    let q = normalized(p);
    assert forall|i: int| 0 <= i < q.stages.len() implies (#[trigger] q.stages[i]).order == i by {
        assert(q.stages[i].order == i as usize);
    }
    assert forall|k: int| 0 <= k < q.selected_stage_ids.len() implies stage_listed(
        q.stages,
        #[trigger] q.selected_stage_ids[k],
    ) by {
        let id = q.selected_stage_ids[k];
        assert(kept.contains(id));
        let m = choose|m: int| 0 <= m < kept.len() && kept[m] == id;
        assert(id_kept(sorted)(kept[m]));
        let i = choose|i: int| 0 <= i < sorted.len() && sorted[i].id == id;
        assert(q.stages[i].id == sorted[i].id);
    }
}

/// After normalisation every stage mirrors the project: it has an entry for each of the
/// project's applications, excluded when the application is; and, when the applications
/// have unique keys and so have each one's sites (which every change keeps: see
/// `law_changes_keep_keys_unique`), an entry for each site and link,
/// excluded when the site or the link is.
pub proof fn law_stages_mirror_project(p: ProjectView)
    ensures
        forall|i: int, j: int|
            0 <= i < normalized(p).stages.len() && 0 <= j < normalized(p).apps.len() ==> mirrors_app(
                #[trigger] normalized(p).stages[i].apps,
                #[trigger] normalized(p).apps[j],
            ),
        keys_unique(p.apps) ==> forall|i: int, j: int|
            0 <= i < normalized(p).stages.len() && 0 <= j < normalized(p).apps.len() ==> mirrors_app_fully(
                #[trigger] normalized(p).stages[i].apps,
                #[trigger] normalized(p).apps[j],
            ),
{
    let apps = fix_apps(p.apps);
    let sorted = sort_stages(p.stages);
    let unique = keys_unique(p.apps);
    if unique {
        assert forall|x: int, y: int| #![trigger apps[x], apps[y]] 0 <= x < y < apps.len() implies apps[x].key
            != apps[y].key by {
            assert(p.apps[x].key != p.apps[y].key);
        }
        assert forall|j: int| 0 <= j < apps.len() implies sites_unique(#[trigger] apps[j].tabs) by {
            assert(sites_unique(p.apps[j].tabs));
            let ts = apps[j].tabs;
            assert forall|x: int, y: int| #![trigger ts[x], ts[y]] 0 <= x < y < ts.len() implies ts[x].key != ts[y].key by {
                assert(ts[x].key == p.apps[j].tabs[x].key && ts[y].key == p.apps[j].tabs[y].key);
            }
        }
    }
    assert forall|i: int, j: int|
        0 <= i < normalized(p).stages.len() && 0 <= j < normalized(p).apps.len() implies mirrors_app(
        #[trigger] normalized(p).stages[i].apps,
        #[trigger] normalized(p).apps[j],
    ) && (unique ==> mirrors_app_fully(normalized(p).stages[i].apps, normalized(p).apps[j])) by {
        let start = keep(sorted[i].apps, app_kept(apps));
        lemma_sync_apps_mirror(start, apps);
        assert(normalized(p).stages[i].apps == sync_stage_apps(sorted[i].apps, apps));
        assert(normalized(p).apps[j] == apps[j]);
    }
}

/// Normalising keeps the keys of the applications and of their sites.
pub proof fn lemma_normalized_same_keys(p: ProjectView)
    ensures
        same_keys(p.apps, normalized(p).apps),
{
}

/// Stages numbered by their place are already sorted.
pub proof fn lemma_sort_numbered(s: Seq<StageView>)
    requires
        forall|k: int| 0 <= k < s.len() ==> #[trigger] s[k].order == k,
    ensures
        sort_stages(s) == s,
    decreases s.len(),
{
    if s.len() > 0 {
        let t = s.drop_last();
        let x = s.last();
        assert forall|k: int| 0 <= k < t.len() implies #[trigger] t[k].order == k by {
            assert(t[k] == s[k]);
        }
        lemma_sort_numbered(t);
        assert forall|k: int| 0 <= k < t.len() implies !placed_after(x)(#[trigger] t[k]) by {
            assert(t[k] == s[k]);
        }
        lemma_first_index(t, placed_after(x), t.len() as int);
        assert(t.insert(t.len() as int, x) =~= s);
    }
}

proof fn lemma_fix_apps_twice(apps: Seq<AppView>)
    ensures
        fix_apps(fix_apps(apps)) == fix_apps(apps),
{
    let f = fix_apps(apps);
    assert forall|j: int| 0 <= j < f.len() implies #[trigger] fix_app(f[j]) == f[j] by {
        let a = f[j];
        assert forall|t: int| 0 <= t < a.tabs.len() implies #[trigger] fix_tab(a.tabs[t]) == a.tabs[t] by {
            let tb = a.tabs[t];
            assert forall|k: int| 0 <= k < tb.urls.len() implies #[trigger] fix_url(tb.urls[k]) == tb.urls[k] by {}
            assert(tb.urls.map_values(|u: UrlView| fix_url(u)) =~= tb.urls);
        }
        assert(a.tabs.map_values(|t: TabView| fix_tab(t)) =~= a.tabs);
    }
    assert(fix_apps(f) =~= f);
}

proof fn lemma_dedup_settled(s: Seq<Seq<char>>)
    requires
        forall|k: int| 0 <= k < s.len() - 1 ==> #[trigger] s[k] != s[k + 1],
    ensures
        dedup(s) == s,
    decreases s.len(),
{
    if s.len() > 1 {
        let t = s.drop_last();
        assert forall|k: int| 0 <= k < t.len() - 1 implies #[trigger] t[k] != t[k + 1] by {
            assert(t[k] == s[k] && t[k + 1] == s[k + 1]);
        }
        lemma_dedup_settled(t);
        assert(s[s.len() - 2] != s[s.len() - 1]);
        assert(t.push(s.last()) =~= s);
    }
}

/// Normalising a normalised project changes nothing, when its applications have unique
/// keys and so have each one's sites (which every change keeps: see
/// `law_changes_keep_keys_unique`).
pub proof fn law_normalize_idempotent(p: ProjectView)
    requires
        p.stages.len() <= usize::MAX,
        keys_unique(p.apps),
    ensures
        normalized(normalized(p)) == normalized(p),
{
    let q = normalized(p);
    let apps = fix_apps(p.apps);
    let sorted = sort_stages(p.stages);
    lemma_sort_stages_len(p.stages);
    lemma_fix_apps_twice(p.apps);
    lemma_normalized_same_keys(p);
    lemma_same_keys_unique(p.apps, apps);
    assert forall|k: int| 0 <= k < q.stages.len() implies #[trigger] q.stages[k].order == k by {}
    lemma_sort_numbered(q.stages);
    assert forall|i: int| 0 <= i < q.stages.len() implies #[trigger] laid_out(q.stages, apps)[i] == q.stages[i] by {
        lemma_sync_stage_apps_twice(sorted[i].apps, apps);
    }
    assert(laid_out(q.stages, apps) =~= q.stages);
    // the selection
    let ids = keep(p.selected_stage_ids, id_kept(sorted));
    let d = dedup(ids);
    assert(id_kept(q.stages) =~= id_kept(sorted)) by {
        assert forall|id: Seq<char>| stage_listed(q.stages, id) == stage_listed(sorted, id) by {
            if stage_listed(sorted, id) {
                let k = choose|k: int| 0 <= k < sorted.len() && sorted[k].id == id;
                assert(q.stages[k].id == id);
            }
            if stage_listed(q.stages, id) {
                let k = choose|k: int| 0 <= k < q.stages.len() && q.stages[k].id == id;
                assert(sorted[k].id == id);
            }
        }
    }
    lemma_dedup(ids);
    crate::seqs::lemma_keep_all(p.selected_stage_ids, id_kept(sorted));
    assert forall|k: int| 0 <= k < d.len() implies id_kept(sorted)(#[trigger] d[k]) by {
        assert(ids.contains(d[k]));
        let m = choose|m: int| 0 <= m < ids.len() && ids[m] == d[k];
    }
    lemma_keep_all_kept(d, id_kept(sorted));
    lemma_dedup_settled(d);
    assert(normalized(q) =~= q);
}

proof fn lemma_keep_all_kept(s: Seq<Seq<char>>, p: spec_fn(Seq<char>) -> bool)
    requires
        forall|i: int| 0 <= i < s.len() ==> p(#[trigger] s[i]),
    ensures
        keep(s, p) == s,
    decreases s.len(),
{
    if s.len() > 0 {
        let t = s.drop_last();
        assert forall|i: int| 0 <= i < t.len() implies p(#[trigger] t[i]) by {
            assert(t[i] == s[i]);
        }
        lemma_keep_all_kept(t, p);
        assert(t.push(s.last()) =~= s);
    } else {
        assert(s =~= Seq::<Seq<char>>::empty());
    }
}

} // verus!
