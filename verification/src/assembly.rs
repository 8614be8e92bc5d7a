//! Records put together from stored rows: the sites and links of a stage under its
//! application entries, and the links and sites of a project under its sites and
//! applications. Rows are read in order; each goes under the first record it names, and
//! a row that names none is dropped.
use vstd::prelude::*;
use crate::models::{
    app_views, stage_app_views, AppUsageRecord, AppView, StageAppRecord, StageAppView, StageTabRecord, StageTabView,
    StageUrlRecord, StageUrlView, TabUsageRecord, TabView, UrlView, VisitedUrlRecord,
};
use crate::seqs::{first_index, lemma_first_index};
use crate::structure::{app_is, app_pos, tab_is, tab_pos};

verus! {

// ---------------------------------------------------------------- a stage's layout

pub open spec fn keyed_tab_views(s: Seq<(String, StageTabRecord)>) -> Seq<(Seq<char>, StageTabView)> {
    s.map_values(|p: (String, StageTabRecord)| (p.0@, p.1@))
}

pub open spec fn keyed_url_views(s: Seq<(String, String, StageUrlRecord)>) -> Seq<(Seq<char>, Seq<char>, StageUrlView)> {
    s.map_values(|p: (String, String, StageUrlRecord)| (p.0@, p.1@, p.2@))
}

/// The stage's application entries with the site rows `(application key, site entry)`
/// added, in order, each to the first entry of its application.
pub open spec fn stage_tabs_placed(apps: Seq<StageAppView>, tabs: Seq<(Seq<char>, StageTabView)>) -> Seq<StageAppView>
    decreases tabs.len(),
{
    if tabs.len() == 0 {
        apps
    } else {
        let r = stage_tabs_placed(apps, tabs.drop_last());
        let row = tabs.last();
        let i = app_pos(r, row.0);
        if i < r.len() {
            r.update(i, StageAppView { tabs: r[i].tabs.push(row.1), ..r[i] })
        } else {
            r
        }
    }
}

/// The stage's application entries with the link rows `(application key, site key, link
/// entry)` added, in order, each to the first site entry of its site under the first
/// entry of its application.
pub open spec fn stage_urls_placed(
    apps: Seq<StageAppView>,
    urls: Seq<(Seq<char>, Seq<char>, StageUrlView)>,
) -> Seq<StageAppView>
    decreases urls.len(),
{
    if urls.len() == 0 {
        apps
    } else {
        let r = stage_urls_placed(apps, urls.drop_last());
        let row = urls.last();
        let i = app_pos(r, row.0);
        if i < r.len() {
            let j = tab_pos(r[i].tabs, row.1);
            if j < r[i].tabs.len() {
                r.update(
                    i,
                    StageAppView {
                        tabs: r[i].tabs.update(j, StageTabView { urls: r[i].tabs[j].urls.push(row.2), ..r[i].tabs[j] }),
                        ..r[i]
                    },
                )
            } else {
                r
            }
        } else {
            r
        }
    }
}

fn find_stage_app(apps: &Vec<StageAppRecord>, key: &String) -> (i: usize)
    ensures
        i == app_pos(stage_app_views(apps@), key@),
        i <= apps.len(),
{
    let ghost s = stage_app_views(apps@);
    let mut k: usize = 0;
    while k < apps.len()
        invariant
            k <= apps.len(),
            s == stage_app_views(apps@),
            forall|m: int| 0 <= m < k ==> !app_is(key@)(#[trigger] s[m]),
        decreases apps.len() - k,
    {
        assert(s[k as int] == apps@[k as int]@);
        if apps[k].app_key == *key {
            proof {
                lemma_first_index(s, app_is(key@), k as int);
            }
            return k;
        }
        k = k + 1;
    }
    proof {
        lemma_first_index(s, app_is(key@), k as int);
    }
    k
}

fn find_stage_tab(tabs: &Vec<StageTabRecord>, key: &String) -> (j: usize)
    ensures
        j == tab_pos(tabs@.map_values(|t: StageTabRecord| t@), key@),
        j <= tabs.len(),
{
    let ghost s = tabs@.map_values(|t: StageTabRecord| t@);
    let mut k: usize = 0;
    while k < tabs.len()
        invariant
            k <= tabs.len(),
            s == tabs@.map_values(|t: StageTabRecord| t@),
            forall|m: int| 0 <= m < k ==> !tab_is(key@)(#[trigger] s[m]),
        decreases tabs.len() - k,
    {
        assert(s[k as int] == tabs@[k as int]@);
        if tabs[k].tab_key == *key {
            proof {
                lemma_first_index(s, tab_is(key@), k as int);
            }
            return k;
        }
        k = k + 1;
    }
    proof {
        lemma_first_index(s, tab_is(key@), k as int);
    }
    k
}

/// A stage's application entries with its stored site and link rows put under them (see
/// `stage_tabs_placed` and `stage_urls_placed`).
pub fn assemble_stage_layout(
    apps: Vec<StageAppRecord>,
    tabs: Vec<(String, StageTabRecord)>,
    urls: Vec<(String, String, StageUrlRecord)>,
) -> (res: Vec<StageAppRecord>)
    ensures
        stage_app_views(res@) == stage_urls_placed(
            stage_tabs_placed(stage_app_views(apps@), keyed_tab_views(tabs@)),
            keyed_url_views(urls@),
        ),
{
    let ghost a0 = stage_app_views(apps@);
    let ghost tv = keyed_tab_views(tabs@);
    let ghost uv = keyed_url_views(urls@);
    let mut out = apps;
    let mut k: usize = 0;
    assert(tv.take(0) =~= Seq::<(Seq<char>, StageTabView)>::empty());
    while k < tabs.len()
        invariant
            k <= tabs.len(),
            tv == keyed_tab_views(tabs@),
            stage_app_views(out@) == stage_tabs_placed(a0, tv.take(k as int)),
        decreases tabs.len() - k,
    {
        let ghost before = stage_app_views(out@);
        assert(tv.take(k + 1).drop_last() =~= tv.take(k as int));
        assert(tv.take(k + 1).last() == tv[k as int]);
        let i = find_stage_app(&out, &tabs[k].0);
        if i < out.len() {
            let t = tabs[k].1.duplicate();
            out[i].tabs.push(t);
            proof {
                assert(stage_app_views(out@)[i as int].tabs =~= before[i as int].tabs.push(tv[k as int].1));
                assert(stage_app_views(out@) =~= before.update(
                    i as int,
                    StageAppView { tabs: before[i as int].tabs.push(tv[k as int].1), ..before[i as int] },
                ));
            }
        }
        k = k + 1;
    }
    assert(tv.take(k as int) =~= tv);
    let ghost a1 = stage_app_views(out@);
    let mut k: usize = 0;
    assert(uv.take(0) =~= Seq::<(Seq<char>, Seq<char>, StageUrlView)>::empty());
    while k < urls.len()
        invariant
            k <= urls.len(),
            uv == keyed_url_views(urls@),
            stage_app_views(out@) == stage_urls_placed(a1, uv.take(k as int)),
        decreases urls.len() - k,
    {
        let ghost before = stage_app_views(out@);
        assert(uv.take(k + 1).drop_last() =~= uv.take(k as int));
        assert(uv.take(k + 1).last() == uv[k as int]);
        let i = find_stage_app(&out, &urls[k].0);
        if i < out.len() {
            assert(before[i as int].tabs =~= out@[i as int].tabs@.map_values(|t: StageTabRecord| t@));
            let j = find_stage_tab(&out[i].tabs, &urls[k].1);
            if j < out[i].tabs.len() {
                let u = urls[k].2.duplicate();
                out[i].tabs[j].urls.push(u);
                proof {
                    let e = before[i as int];
                    let te = e.tabs[j as int];
                    assert(stage_app_views(out@)[i as int].tabs[j as int].urls =~= te.urls.push(uv[k as int].2));
                    assert(stage_app_views(out@)[i as int].tabs =~= e.tabs.update(
                        j as int,
                        StageTabView { urls: te.urls.push(uv[k as int].2), ..te },
                    ));
                    assert(stage_app_views(out@) =~= before.update(
                        i as int,
                        StageAppView { tabs: e.tabs.update(j as int, StageTabView { urls: te.urls.push(uv[k as int].2), ..te }), ..e },
                    ));
                }
            }
        }
        k = k + 1;
    }
    assert(uv.take(k as int) =~= uv);
    out
}

// ---------------------------------------------------------------- a project's applications

pub open spec fn id_app_views(s: Seq<(i64, AppUsageRecord)>) -> Seq<(i64, AppView)> {
    s.map_values(|p: (i64, AppUsageRecord)| (p.0, p.1@))
}

pub open spec fn id_tab_views(s: Seq<(i64, i64, TabUsageRecord)>) -> Seq<(i64, i64, TabView)> {
    s.map_values(|p: (i64, i64, TabUsageRecord)| (p.0, p.1, p.2@))
}

pub open spec fn id_url_views(s: Seq<(i64, VisitedUrlRecord)>) -> Seq<(i64, UrlView)> {
    s.map_values(|p: (i64, VisitedUrlRecord)| (p.0, p.1@))
}

pub open spec fn site_row_is(id: i64) -> spec_fn((i64, i64, TabView)) -> bool {
    |t: (i64, i64, TabView)| t.1 == id
}

pub open spec fn app_row_is(id: i64) -> spec_fn((i64, AppView)) -> bool {
    |a: (i64, AppView)| a.0 == id
}

/// The site rows `(application id, site id, site)` with the link rows `(site id, link)`
/// added, in order, each to the first site with its id.
pub open spec fn links_placed(tabs: Seq<(i64, i64, TabView)>, urls: Seq<(i64, UrlView)>) -> Seq<(i64, i64, TabView)>
    decreases urls.len(),
{
    if urls.len() == 0 {
        tabs
    } else {
        let r = links_placed(tabs, urls.drop_last());
        let row = urls.last();
        let j = first_index(r, site_row_is(row.0));
        if j < r.len() {
            r.update(j, (r[j].0, r[j].1, TabView { urls: r[j].2.urls.push(row.1), ..r[j].2 }))
        } else {
            r
        }
    }
}

/// The application rows `(id, application)` with the site rows added, in order, each to
/// the first application with its id.
pub open spec fn sites_placed(apps: Seq<(i64, AppView)>, tabs: Seq<(i64, i64, TabView)>) -> Seq<(i64, AppView)>
    decreases tabs.len(),
{
    if tabs.len() == 0 {
        apps
    } else {
        let r = sites_placed(apps, tabs.drop_last());
        let row = tabs.last();
        let i = first_index(r, app_row_is(row.0));
        if i < r.len() {
            r.update(i, (r[i].0, AppView { tabs: r[i].1.tabs.push(row.2), ..r[i].1 }))
        } else {
            r
        }
    }
}

/// A project's applications put together from its stored rows: links under their sites,
/// then sites under their applications.
pub open spec fn apps_assembled(
    apps: Seq<(i64, AppView)>,
    tabs: Seq<(i64, i64, TabView)>,
    urls: Seq<(i64, UrlView)>,
) -> Seq<AppView> {
    sites_placed(apps, links_placed(tabs, urls)).map_values(|a: (i64, AppView)| a.1)
}

fn find_site_row(tabs: &Vec<(i64, i64, TabUsageRecord)>, id: i64) -> (j: usize)
    ensures
        j == first_index(id_tab_views(tabs@), site_row_is(id)),
        j <= tabs.len(),
{
    let ghost s = id_tab_views(tabs@);
    let mut k: usize = 0;
    while k < tabs.len()
        invariant
            k <= tabs.len(),
            s == id_tab_views(tabs@),
            forall|m: int| 0 <= m < k ==> !site_row_is(id)(#[trigger] s[m]),
        decreases tabs.len() - k,
    {
        if tabs[k].1 == id {
            proof {
                lemma_first_index(s, site_row_is(id), k as int);
            }
            return k;
        }
        k = k + 1;
    }
    proof {
        lemma_first_index(s, site_row_is(id), k as int);
    }
    k
}

fn find_app_row(apps: &Vec<(i64, AppUsageRecord)>, id: i64) -> (i: usize)
    ensures
        i == first_index(id_app_views(apps@), app_row_is(id)),
        i <= apps.len(),
{
    let ghost s = id_app_views(apps@);
    let mut k: usize = 0;
    while k < apps.len()
        invariant
            k <= apps.len(),
            s == id_app_views(apps@),
            forall|m: int| 0 <= m < k ==> !app_row_is(id)(#[trigger] s[m]),
        decreases apps.len() - k,
    {
        if apps[k].0 == id {
            proof {
                lemma_first_index(s, app_row_is(id), k as int);
            }
            return k;
        }
        k = k + 1;
    }
    proof {
        lemma_first_index(s, app_row_is(id), k as int);
    }
    k
}

/// A project's applications put together from its stored application, site and link rows
/// (see `apps_assembled`).
pub fn assemble_apps(
    apps: Vec<(i64, AppUsageRecord)>,
    tabs: Vec<(i64, i64, TabUsageRecord)>,
    urls: Vec<(i64, VisitedUrlRecord)>,
) -> (res: Vec<AppUsageRecord>)
    ensures
        app_views(res@) == apps_assembled(id_app_views(apps@), id_tab_views(tabs@), id_url_views(urls@)),
{
    let ghost t0 = id_tab_views(tabs@);
    let ghost uv = id_url_views(urls@);
    let mut ts = tabs;
    let mut k: usize = 0;
    assert(uv.take(0) =~= Seq::<(i64, UrlView)>::empty());
    while k < urls.len()
        invariant
            k <= urls.len(),
            uv == id_url_views(urls@),
            id_tab_views(ts@) == links_placed(t0, uv.take(k as int)),
        decreases urls.len() - k,
    {
        let ghost before = id_tab_views(ts@);
        assert(uv.take(k + 1).drop_last() =~= uv.take(k as int));
        assert(uv.take(k + 1).last() == uv[k as int]);
        let j = find_site_row(&ts, urls[k].0);
        if j < ts.len() {
            let u = urls[k].1.duplicate();
            ts[j].2.urls.push(u);
            proof {
                let e = before[j as int];
                assert(id_tab_views(ts@)[j as int].2.urls =~= e.2.urls.push(uv[k as int].1));
                assert(id_tab_views(ts@) =~= before.update(
                    j as int,
                    (e.0, e.1, TabView { urls: e.2.urls.push(uv[k as int].1), ..e.2 }),
                ));
            }
        }
        k = k + 1;
    }
    assert(uv.take(k as int) =~= uv);
    let ghost t1 = id_tab_views(ts@);
    let ghost a0 = id_app_views(apps@);
    let mut rows = apps;
    let mut k: usize = 0;
    assert(t1.take(0) =~= Seq::<(i64, i64, TabView)>::empty());
    while k < ts.len()
        invariant
            k <= ts.len(),
            t1 == id_tab_views(ts@),
            id_app_views(rows@) == sites_placed(a0, t1.take(k as int)),
        decreases ts.len() - k,
    {
        let ghost before = id_app_views(rows@);
        assert(t1.take(k + 1).drop_last() =~= t1.take(k as int));
        assert(t1.take(k + 1).last() == t1[k as int]);
        let i = find_app_row(&rows, ts[k].0);
        if i < rows.len() {
            let t = ts[k].2.duplicate();
            rows[i].1.tabs.push(t);
            proof {
                let e = before[i as int];
                assert(id_app_views(rows@)[i as int].1.tabs =~= e.1.tabs.push(t1[k as int].2));
                assert(id_app_views(rows@) =~= before.update(i as int, (e.0, AppView { tabs: e.1.tabs.push(t1[k as int].2), ..e.1 })));
            }
        }
        k = k + 1;
    }
    assert(t1.take(k as int) =~= t1);
    let ghost a1 = id_app_views(rows@);
    let mut out: Vec<AppUsageRecord> = Vec::new();
    let mut k: usize = 0;
    while k < rows.len()
        invariant
            k <= rows.len(),
            a1 == id_app_views(rows@),
            app_views(out@) == a1.take(k as int).map_values(|a: (i64, AppView)| a.1),
        decreases rows.len() - k,
    {
        let ghost before = app_views(out@);
        assert(a1[k as int].1 == rows@[k as int].1@);
        out.push(rows[k].1.duplicate());
        assert(app_views(out@) =~= before.push(a1[k as int].1));
        assert(a1.take(k + 1).map_values(|a: (i64, AppView)| a.1) =~= a1.take(k as int).map_values(
            |a: (i64, AppView)| a.1,
        ).push(a1[k as int].1));
        k = k + 1;
    }
    assert(a1.take(k as int) =~= a1);
    out
}

} // verus!
