//! The per-stage layout of a project: every stage mirrors the project's
//! applications, tabs and links, and anything excluded globally is excluded
//! in every stage too.
use vstd::prelude::*;
use crate::models::{
    app_views, stage_app_views, stage_tab_views, stage_url_views, tab_views, url_views,
    AppUsageRecord, AppView, ProjectStageRecord, StageAppRecord, StageAppView, StageTabRecord,
    StageTabView, StageUrlRecord, StageUrlView, StageView, TabUsageRecord, TabView, UrlView,
    VisitedUrlRecord,
};
use crate::seqs::{first_index, keep, lemma_first_index, lemma_first_index_bounds, lemma_keep_all, lemma_keep_step};

verus! {

// ---------------------------------------------------------------- links

/// Whether `urls` records the link `u`.
pub open spec fn url_listed(urls: Seq<UrlView>, u: Seq<char>) -> bool {
    exists|k: int| 0 <= k < urls.len() && urls[k].url == u
}

pub open spec fn url_kept(urls: Seq<UrlView>) -> spec_fn(StageUrlView) -> bool {
    |x: StageUrlView| url_listed(urls, x.url)
}

pub open spec fn url_is(u: Seq<char>) -> spec_fn(StageUrlView) -> bool {
    |x: StageUrlView| x.url == u
}

/// Where the stage entry for link `u` stands (`s.len()` when there is none).
pub open spec fn url_pos(s: Seq<StageUrlView>, u: Seq<char>) -> int {
    first_index(s, url_is(u))
}

/// `s` with an entry for link `u`, appended (included) when it was missing.
pub open spec fn with_url(s: Seq<StageUrlView>, u: Seq<char>) -> Seq<StageUrlView> {
    if url_pos(s, u) < s.len() {
        s
    } else {
        s.push(StageUrlView { url: u, enabled: true })
    }
}

/// One link of the tab applied to the stage's link entries.
pub open spec fn sync_url(s: Seq<StageUrlView>, u: UrlView) -> Seq<StageUrlView> {
    let t = with_url(s, u.url);
    let i = url_pos(t, u.url);
    if u.enabled {
        t
    } else {
        t.update(i, StageUrlView { enabled: false, ..t[i] })
    }
}

/// All links of the tab, in order, applied to the stage's link entries.
pub open spec fn sync_urls(s: Seq<StageUrlView>, urls: Seq<UrlView>) -> Seq<StageUrlView>
    decreases urls.len(),
{
    if urls.len() == 0 {
        s
    } else {
        sync_url(sync_urls(s, urls.drop_last()), urls.last())
    }
}

/// A stage's entry for one tab brought in line with the tab.
pub open spec fn sync_tab_entry(st: StageTabView, tab: TabView) -> StageTabView {
    StageTabView {
        tab_key: st.tab_key,
        enabled: st.enabled && tab.enabled,
        urls: sync_urls(keep(st.urls, url_kept(tab.urls)), tab.urls),
    }
}

pub proof fn lemma_with_url(s: Seq<StageUrlView>, u: Seq<char>)
    ensures
        url_pos(with_url(s, u), u) == url_pos(s, u),
        url_pos(with_url(s, u), u) < with_url(s, u).len(),
        with_url(s, u)[url_pos(s, u)].url == u,
{
    lemma_first_index_bounds(s, url_is(u));
    let t = with_url(s, u);
    let i = url_pos(s, u);
    if i == s.len() {
        assert forall|k: int| 0 <= k < i implies !url_is(u)(#[trigger] t[k]) by {
            assert(t[k] == s[k]);
        }
        lemma_first_index(t, url_is(u), i);
    }
}

fn url_listed_exec(urls: &Vec<VisitedUrlRecord>, u: &String) -> (res: bool)
    ensures
        res == url_listed(url_views(urls@), u@),
{
    let mut k: usize = 0;
    while k < urls.len()
        invariant
            k <= urls.len(),
            forall|m: int| 0 <= m < k ==> url_views(urls@)[m].url != u@,
        decreases urls.len() - k,
    {
        if urls[k].url == *u {
            assert(url_views(urls@)[k as int].url == u@);
            return true;
        }
        k = k + 1;
    }
    false
}

fn stage_url_pos(v: &Vec<StageUrlRecord>, u: &String) -> (i: usize)
    ensures
        i == url_pos(stage_url_views(v@), u@),
{
    let ghost s = stage_url_views(v@);
    let mut k: usize = 0;
    while k < v.len()
        invariant
            k <= v.len(),
            s == stage_url_views(v@),
            forall|m: int| 0 <= m < k ==> !url_is(u@)(#[trigger] s[m]),
        decreases v.len() - k,
    {
        if v[k].url == *u {
            proof {
                lemma_first_index(s, url_is(u@), k as int);
            }
            return k;
        }
        k = k + 1;
    }
    proof {
        lemma_first_index(s, url_is(u@), k as int);
    }
    k
}

/// Finds the stage entry for link `u`, appending an included one when it is missing.
pub fn ensure_stage_url(tab: &mut StageTabRecord, u: &String) -> (i: usize)
    ensures
        final(tab)@ == (StageTabView { urls: with_url(old(tab)@.urls, u@), ..old(tab)@ }),
        i == url_pos(old(tab)@.urls, u@),
        i < final(tab).urls.len(),
{
    proof {
        lemma_with_url(old(tab)@.urls, u@);
    }
    let i = stage_url_pos(&tab.urls, u);
    if i == tab.urls.len() {
        tab.urls.push(StageUrlRecord { url: u.clone(), enabled: true });
        assert(stage_url_views(tab.urls@) =~= with_url(old(tab)@.urls, u@));
    }
    i
}

fn retain_listed_urls(v: &mut Vec<StageUrlRecord>, urls: &Vec<VisitedUrlRecord>)
    ensures
        stage_url_views(final(v)@) == keep(stage_url_views(old(v)@), url_kept(url_views(urls@))),
{
    let ghost orig = stage_url_views(v@);
    let ghost p = url_kept(url_views(urls@));
    let mut i: usize = 0;
    let ghost mut j: int = 0;
    assert(orig.take(0) =~= Seq::<StageUrlView>::empty());
    assert(orig.skip(0) =~= orig);
    while i < v.len()
        invariant
            0 <= j <= orig.len(),
            p == url_kept(url_views(urls@)),
            i <= v.len(),
            v.len() - i == orig.len() - j,
            stage_url_views(v@).take(i as int) == keep(orig.take(j), p),
            stage_url_views(v@).skip(i as int) == orig.skip(j),
        decreases v.len() - i,
    {
        proof {
            lemma_keep_step(orig, p, j);
            assert(orig[j] == stage_url_views(v@).skip(i as int)[0]);
            assert(stage_url_views(v@)[i as int] == v@[i as int]@);
        }
        let listed = url_listed_exec(urls, &v[i].url);
        assert(p(orig[j]) == listed);
        if listed {
            let ghost before = stage_url_views(v@);
            i = i + 1;
            proof {
                assert(before.take(i as int) =~= before.take(i - 1).push(before[i - 1]));
                assert(before.skip(i as int) =~= before.skip(i - 1).drop_first());
                assert(orig.skip(j + 1) =~= orig.skip(j).drop_first());
            }
        } else {
            let ghost before = stage_url_views(v@);
            v.remove(i);
            proof {
                assert(stage_url_views(v@).take(i as int) =~= before.take(i as int));
                assert(stage_url_views(v@).skip(i as int) =~= before.skip(i as int).drop_first());
                assert(orig.skip(j + 1) =~= orig.skip(j).drop_first());
            }
        }
        proof {
            j = j + 1;
        }
    }
    assert(orig.take(j) =~= orig);
    assert(stage_url_views(v@).take(i as int) =~= stage_url_views(v@));
}

/// Brings a stage's entry for one tab in line with the tab: excluded when the tab is,
/// with an entry for each of the tab's links and none for links the tab no longer has.
pub fn sync_stage_tab(st: &mut StageTabRecord, tab: &TabUsageRecord)
    ensures
        final(st)@ == sync_tab_entry(old(st)@, tab@),
{
    if !tab.enabled {
        st.enabled = false;
    }
    retain_listed_urls(&mut st.urls, &tab.urls);
    let ghost base = st@.urls;
    let ghost urls = url_views(tab.urls@);
    let mut k: usize = 0;
    assert(urls.take(0) =~= Seq::<UrlView>::empty());
    while k < tab.urls.len()
        invariant
            k <= tab.urls.len(),
            urls == url_views(tab.urls@),
            st@.tab_key == old(st)@.tab_key,
            st@.enabled == (old(st)@.enabled && tab@.enabled),
            st@.urls == sync_urls(base, urls.take(k as int)),
        decreases tab.urls.len() - k,
    {
        let u = &tab.urls[k];
        let ghost prev = st@.urls;
        let i = ensure_stage_url(st, &u.url);
        proof {
            lemma_with_url(prev, u.url@);
        }
        if !u.enabled {
            st.urls[i].enabled = false;
        }
        proof {
            assert(urls.take(k + 1).drop_last() =~= urls.take(k as int));
            assert(urls.take(k + 1).last() == u@);
            assert(stage_url_views(st.urls@) =~= sync_url(prev, u@));
        }
        k = k + 1;
    }
    assert(urls.take(k as int) =~= urls);
}


// ---------------------------------------------------------------- tabs

/// Whether `tabs` records the tab `key`.
pub open spec fn tab_listed(tabs: Seq<TabView>, key: Seq<char>) -> bool {
    exists|k: int| 0 <= k < tabs.len() && tabs[k].key == key
}

pub open spec fn tab_kept(tabs: Seq<TabView>) -> spec_fn(StageTabView) -> bool {
    |x: StageTabView| tab_listed(tabs, x.tab_key)
}

pub open spec fn tab_is(key: Seq<char>) -> spec_fn(StageTabView) -> bool {
    |x: StageTabView| x.tab_key == key
}

/// Where the stage entry for tab `key` stands (`s.len()` when there is none).
pub open spec fn tab_pos(s: Seq<StageTabView>, key: Seq<char>) -> int {
    first_index(s, tab_is(key))
}

/// `s` with an entry for tab `key`, appended (included, without links) when it was missing.
pub open spec fn with_tab(s: Seq<StageTabView>, key: Seq<char>) -> Seq<StageTabView> {
    if tab_pos(s, key) < s.len() {
        s
    } else {
        s.push(StageTabView { tab_key: key, enabled: true, urls: Seq::empty() })
    }
}

/// One tab of the application applied to the stage's tab entries.
pub open spec fn sync_tab(s: Seq<StageTabView>, tab: TabView) -> Seq<StageTabView> {
    let t = with_tab(s, tab.key);
    let i = tab_pos(t, tab.key);
    t.update(i, sync_tab_entry(t[i], tab))
}

/// All tabs of the application, in order, applied to the stage's tab entries.
pub open spec fn sync_tabs(s: Seq<StageTabView>, tabs: Seq<TabView>) -> Seq<StageTabView>
    decreases tabs.len(),
{
    if tabs.len() == 0 {
        s
    } else {
        sync_tab(sync_tabs(s, tabs.drop_last()), tabs.last())
    }
}

/// A stage's entry for one application brought in line with the application.
pub open spec fn sync_app_entry(sa: StageAppView, app: AppView) -> StageAppView {
    StageAppView {
        app_key: sa.app_key,
        enabled: sa.enabled && app.enabled,
        tabs: sync_tabs(keep(sa.tabs, tab_kept(app.tabs)), app.tabs),
    }
}

pub proof fn lemma_with_tab(s: Seq<StageTabView>, key: Seq<char>)
    ensures
        tab_pos(with_tab(s, key), key) == tab_pos(s, key),
        tab_pos(with_tab(s, key), key) < with_tab(s, key).len(),
        with_tab(s, key)[tab_pos(s, key)].tab_key == key,
{
    lemma_first_index_bounds(s, tab_is(key));
    let t = with_tab(s, key);
    let i = tab_pos(s, key);
    if i == s.len() {
        assert forall|k: int| 0 <= k < i implies !tab_is(key)(#[trigger] t[k]) by {
            assert(t[k] == s[k]);
        }
        lemma_first_index(t, tab_is(key), i);
    }
}

fn tab_listed_exec(tabs: &Vec<TabUsageRecord>, key: &String) -> (res: bool)
    ensures
        res == tab_listed(tab_views(tabs@), key@),
{
    let mut k: usize = 0;
    while k < tabs.len()
        invariant
            k <= tabs.len(),
            forall|m: int| 0 <= m < k ==> tab_views(tabs@)[m].key != key@,
        decreases tabs.len() - k,
    {
        if tabs[k].key == *key {
            assert(tab_views(tabs@)[k as int].key == key@);
            return true;
        }
        k = k + 1;
    }
    false
}

fn stage_tab_pos(v: &Vec<StageTabRecord>, key: &String) -> (i: usize)
    ensures
        i == tab_pos(stage_tab_views(v@), key@),
{
    let ghost s = stage_tab_views(v@);
    let mut k: usize = 0;
    while k < v.len()
        invariant
            k <= v.len(),
            s == stage_tab_views(v@),
            forall|m: int| 0 <= m < k ==> !tab_is(key@)(#[trigger] s[m]),
        decreases v.len() - k,
    {
        if v[k].tab_key == *key {
            proof {
                lemma_first_index(s, tab_is(key@), k as int);
            }
            return k;
        }
        k = k + 1;
    }
    proof {
        lemma_first_index(s, tab_is(key@), k as int);
    }
    k
}

/// Finds the stage entry for tab `key`, appending an included one when it is missing.
pub fn ensure_stage_tab(app: &mut StageAppRecord, key: &String) -> (i: usize)
    ensures
        final(app)@ == (StageAppView { tabs: with_tab(old(app)@.tabs, key@), ..old(app)@ }),
        i == tab_pos(old(app)@.tabs, key@),
        i < final(app).tabs.len(),
{
    proof {
        lemma_with_tab(old(app)@.tabs, key@);
    }
    let i = stage_tab_pos(&app.tabs, key);
    if i == app.tabs.len() {
        app.tabs.push(StageTabRecord { tab_key: key.clone(), enabled: true, urls: Vec::new() });
        assert(stage_url_views(app.tabs@[i as int].urls@) =~= Seq::<StageUrlView>::empty());
        assert(stage_tab_views(app.tabs@) =~= with_tab(old(app)@.tabs, key@));
    }
    i
}

fn retain_listed_tabs(v: &mut Vec<StageTabRecord>, tabs: &Vec<TabUsageRecord>)
    ensures
        stage_tab_views(final(v)@) == keep(stage_tab_views(old(v)@), tab_kept(tab_views(tabs@))),
{
    let ghost orig = stage_tab_views(v@);
    let ghost p = tab_kept(tab_views(tabs@));
    let mut i: usize = 0;
    let ghost mut j: int = 0;
    assert(orig.take(0) =~= Seq::<StageTabView>::empty());
    assert(orig.skip(0) =~= orig);
    while i < v.len()
        invariant
            0 <= j <= orig.len(),
            p == tab_kept(tab_views(tabs@)),
            i <= v.len(),
            v.len() - i == orig.len() - j,
            stage_tab_views(v@).take(i as int) == keep(orig.take(j), p),
            stage_tab_views(v@).skip(i as int) == orig.skip(j),
        decreases v.len() - i,
    {
        proof {
            lemma_keep_step(orig, p, j);
            assert(orig[j] == stage_tab_views(v@).skip(i as int)[0]);
            assert(stage_tab_views(v@)[i as int] == v@[i as int]@);
        }
        let listed = tab_listed_exec(tabs, &v[i].tab_key);
        assert(p(orig[j]) == listed);
        if listed {
            let ghost before = stage_tab_views(v@);
            i = i + 1;
            proof {
                assert(before.take(i as int) =~= before.take(i - 1).push(before[i - 1]));
                assert(before.skip(i as int) =~= before.skip(i - 1).drop_first());
                assert(orig.skip(j + 1) =~= orig.skip(j).drop_first());
            }
        } else {
            let ghost before = stage_tab_views(v@);
            v.remove(i);
            proof {
                assert(stage_tab_views(v@).take(i as int) =~= before.take(i as int));
                assert(stage_tab_views(v@).skip(i as int) =~= before.skip(i as int).drop_first());
                assert(orig.skip(j + 1) =~= orig.skip(j).drop_first());
            }
        }
        proof {
            j = j + 1;
        }
    }
    assert(orig.take(j) =~= orig);
    assert(stage_tab_views(v@).take(i as int) =~= stage_tab_views(v@));
}

/// Brings a stage's entry for one application in line with it: excluded when the
/// application is, with an entry for each of its tabs and none for tabs it no longer has.
pub fn sync_stage_app(sa: &mut StageAppRecord, app: &AppUsageRecord)
    ensures
        final(sa)@ == sync_app_entry(old(sa)@, app@),
{
    if !app.enabled {
        sa.enabled = false;
    }
    retain_listed_tabs(&mut sa.tabs, &app.tabs);
    let ghost base = sa@.tabs;
    let ghost tabs = tab_views(app.tabs@);
    let mut k: usize = 0;
    assert(tabs.take(0) =~= Seq::<TabView>::empty());
    while k < app.tabs.len()
        invariant
            k <= app.tabs.len(),
            tabs == tab_views(app.tabs@),
            sa@.app_key == old(sa)@.app_key,
            sa@.enabled == (old(sa)@.enabled && app@.enabled),
            sa@.tabs == sync_tabs(base, tabs.take(k as int)),
        decreases app.tabs.len() - k,
    {
        let t = &app.tabs[k];
        let ghost prev = sa@.tabs;
        let i = ensure_stage_tab(sa, &t.key);
        proof {
            lemma_with_tab(prev, t.key@);
        }
        sync_stage_tab(&mut sa.tabs[i], t);
        proof {
            assert(tabs.take(k + 1).drop_last() =~= tabs.take(k as int));
            assert(tabs.take(k + 1).last() == t@);
            assert(stage_tab_views(sa.tabs@) =~= sync_tab(prev, t@));
        }
        k = k + 1;
    }
    assert(tabs.take(k as int) =~= tabs);
}

// ---------------------------------------------------------------- applications

/// Whether `apps` records the application `key`.
pub open spec fn app_listed(apps: Seq<AppView>, key: Seq<char>) -> bool {
    exists|k: int| 0 <= k < apps.len() && apps[k].key == key
}

pub open spec fn app_kept(apps: Seq<AppView>) -> spec_fn(StageAppView) -> bool {
    |x: StageAppView| app_listed(apps, x.app_key)
}

pub open spec fn app_is(key: Seq<char>) -> spec_fn(StageAppView) -> bool {
    |x: StageAppView| x.app_key == key
}

/// Where the stage entry for application `key` stands (`s.len()` when there is none).
pub open spec fn app_pos(s: Seq<StageAppView>, key: Seq<char>) -> int {
    first_index(s, app_is(key))
}

/// `s` with an entry for application `key`, appended (included, without tabs) when missing.
pub open spec fn with_app(s: Seq<StageAppView>, key: Seq<char>) -> Seq<StageAppView> {
    if app_pos(s, key) < s.len() {
        s
    } else {
        s.push(StageAppView { app_key: key, enabled: true, tabs: Seq::empty() })
    }
}

/// One application of the project applied to the stage's application entries.
pub open spec fn sync_app(s: Seq<StageAppView>, app: AppView) -> Seq<StageAppView> {
    let t = with_app(s, app.key);
    let i = app_pos(t, app.key);
    t.update(i, sync_app_entry(t[i], app))
}

/// All applications of the project, in order, applied to the stage's application entries.
pub open spec fn sync_apps(s: Seq<StageAppView>, apps: Seq<AppView>) -> Seq<StageAppView>
    decreases apps.len(),
{
    if apps.len() == 0 {
        s
    } else {
        sync_app(sync_apps(s, apps.drop_last()), apps.last())
    }
}

/// A stage's application entries brought in line with the project's applications.
pub open spec fn sync_stage_apps(s: Seq<StageAppView>, apps: Seq<AppView>) -> Seq<StageAppView> {
    sync_apps(keep(s, app_kept(apps)), apps)
}

pub proof fn lemma_with_app(s: Seq<StageAppView>, key: Seq<char>)
    ensures
        app_pos(with_app(s, key), key) == app_pos(s, key),
        app_pos(with_app(s, key), key) < with_app(s, key).len(),
        with_app(s, key)[app_pos(s, key)].app_key == key,
{
    lemma_first_index_bounds(s, app_is(key));
    let t = with_app(s, key);
    let i = app_pos(s, key);
    if i == s.len() {
        assert forall|k: int| 0 <= k < i implies !app_is(key)(#[trigger] t[k]) by {
            assert(t[k] == s[k]);
        }
        lemma_first_index(t, app_is(key), i);
    }
}

fn app_listed_exec(apps: &Vec<AppUsageRecord>, key: &String) -> (res: bool)
    ensures
        res == app_listed(app_views(apps@), key@),
{
    let mut k: usize = 0;
    while k < apps.len()
        invariant
            k <= apps.len(),
            forall|m: int| 0 <= m < k ==> app_views(apps@)[m].key != key@,
        decreases apps.len() - k,
    {
        if apps[k].key == *key {
            assert(app_views(apps@)[k as int].key == key@);
            return true;
        }
        k = k + 1;
    }
    false
}

fn stage_app_pos(v: &Vec<StageAppRecord>, key: &String) -> (i: usize)
    ensures
        i == app_pos(stage_app_views(v@), key@),
{
    let ghost s = stage_app_views(v@);
    let mut k: usize = 0;
    while k < v.len()
        invariant
            k <= v.len(),
            s == stage_app_views(v@),
            forall|m: int| 0 <= m < k ==> !app_is(key@)(#[trigger] s[m]),
        decreases v.len() - k,
    {
        if v[k].app_key == *key {
            proof {
                lemma_first_index(s, app_is(key@), k as int);
            }
            return k;
        }
        k = k + 1;
    }
    proof {
        lemma_first_index(s, app_is(key@), k as int);
    }
    k
}

/// Finds the stage entry for application `key`, appending an included one when missing.
pub fn ensure_stage_app(stage: &mut ProjectStageRecord, key: &String) -> (i: usize)
    ensures
        final(stage)@ == (StageView { apps: with_app(old(stage)@.apps, key@), ..old(stage)@ }),
        i == app_pos(old(stage)@.apps, key@),
        i < final(stage).apps.len(),
{
    proof {
        lemma_with_app(old(stage)@.apps, key@);
    }
    let i = stage_app_pos(&stage.apps, key);
    if i == stage.apps.len() {
        stage.apps.push(StageAppRecord { app_key: key.clone(), enabled: true, tabs: Vec::new() });
        assert(stage_tab_views(stage.apps@[i as int].tabs@) =~= Seq::<StageTabView>::empty());
        assert(stage_app_views(stage.apps@) =~= with_app(old(stage)@.apps, key@));
    }
    i
}

fn retain_listed_apps(v: &mut Vec<StageAppRecord>, apps: &Vec<AppUsageRecord>)
    ensures
        stage_app_views(final(v)@) == keep(stage_app_views(old(v)@), app_kept(app_views(apps@))),
{
    let ghost orig = stage_app_views(v@);
    let ghost p = app_kept(app_views(apps@));
    let mut i: usize = 0;
    let ghost mut j: int = 0;
    assert(orig.take(0) =~= Seq::<StageAppView>::empty());
    assert(orig.skip(0) =~= orig);
    while i < v.len()
        invariant
            0 <= j <= orig.len(),
            p == app_kept(app_views(apps@)),
            i <= v.len(),
            v.len() - i == orig.len() - j,
            stage_app_views(v@).take(i as int) == keep(orig.take(j), p),
            stage_app_views(v@).skip(i as int) == orig.skip(j),
        decreases v.len() - i,
    {
        proof {
            lemma_keep_step(orig, p, j);
            assert(orig[j] == stage_app_views(v@).skip(i as int)[0]);
            assert(stage_app_views(v@)[i as int] == v@[i as int]@);
        }
        let listed = app_listed_exec(apps, &v[i].app_key);
        assert(p(orig[j]) == listed);
        if listed {
            let ghost before = stage_app_views(v@);
            i = i + 1;
            proof {
                assert(before.take(i as int) =~= before.take(i - 1).push(before[i - 1]));
                assert(before.skip(i as int) =~= before.skip(i - 1).drop_first());
                assert(orig.skip(j + 1) =~= orig.skip(j).drop_first());
            }
        } else {
            let ghost before = stage_app_views(v@);
            v.remove(i);
            proof {
                assert(stage_app_views(v@).take(i as int) =~= before.take(i as int));
                assert(stage_app_views(v@).skip(i as int) =~= before.skip(i as int).drop_first());
                assert(orig.skip(j + 1) =~= orig.skip(j).drop_first());
            }
        }
        proof {
            j = j + 1;
        }
    }
    assert(orig.take(j) =~= orig);
    assert(stage_app_views(v@).take(i as int) =~= stage_app_views(v@));
}

/// Brings one stage's layout in line with the project's applications: entries for
/// applications the project no longer has are dropped, each application gets an entry,
/// and whatever is excluded in the project is excluded in the stage.
pub fn sync_stage_layout(stage: &mut ProjectStageRecord, apps: &Vec<AppUsageRecord>)
    ensures
        final(stage)@ == (StageView {
            apps: sync_stage_apps(old(stage)@.apps, app_views(apps@)),
            ..old(stage)@
        }),
{
    retain_listed_apps(&mut stage.apps, apps);
    let ghost base = stage@.apps;
    let ghost views = app_views(apps@);
    let mut k: usize = 0;
    assert(views.take(0) =~= Seq::<AppView>::empty());
    while k < apps.len()
        invariant
            k <= apps.len(),
            views == app_views(apps@),
            base == keep(old(stage)@.apps, app_kept(views)),
            stage@ == (StageView { apps: stage@.apps, ..old(stage)@ }),
            stage@.apps == sync_apps(base, views.take(k as int)),
        decreases apps.len() - k,
    {
        let a = &apps[k];
        let ghost prev = stage@.apps;
        let i = ensure_stage_app(stage, &a.key);
        proof {
            lemma_with_app(prev, a.key@);
        }
        sync_stage_app(&mut stage.apps[i], a);
        proof {
            assert(views.take(k + 1).drop_last() =~= views.take(k as int));
            assert(views.take(k + 1).last() == a@);
            assert(stage_app_views(stage.apps@) =~= sync_app(prev, a@));
        }
        k = k + 1;
    }
    assert(views.take(k as int) =~= views);
}

// ---------------------------------------------------------------- mirroring

/// Whether the stage's link entries have an entry for the link, excluded when the link is.
pub open spec fn mirrors_url(entries: Seq<StageUrlView>, u: UrlView) -> bool {
    &&& url_pos(entries, u.url) < entries.len()
    &&& (!u.enabled ==> !entries[url_pos(entries, u.url)].enabled)
}

/// Whether the stage's site entries have an entry for the site, excluded when the site
/// is, whose link entries mirror each of the site's links.
pub open spec fn mirrors_tab(entries: Seq<StageTabView>, t: TabView) -> bool {
    &&& tab_pos(entries, t.key) < entries.len()
    &&& (!t.enabled ==> !entries[tab_pos(entries, t.key)].enabled)
    &&& forall|k: int| 0 <= k < t.urls.len() ==> mirrors_url(entries[tab_pos(entries, t.key)].urls, #[trigger] t.urls[k])
}

/// Whether the stage's application entries have an entry for the application, excluded
/// when the application is.
pub open spec fn mirrors_app(entries: Seq<StageAppView>, app: AppView) -> bool {
    &&& app_pos(entries, app.key) < entries.len()
    &&& (!app.enabled ==> !entries[app_pos(entries, app.key)].enabled)
}

/// Whether the stage's application entries mirror the application and, in its entry,
/// each of its sites.
pub open spec fn mirrors_app_fully(entries: Seq<StageAppView>, app: AppView) -> bool {
    &&& mirrors_app(entries, app)
    &&& forall|t: int| 0 <= t < app.tabs.len() ==> mirrors_tab(entries[app_pos(entries, app.key)].tabs, #[trigger] app.tabs[t])
}

/// Whether no two sites of the application have the same key.
pub open spec fn sites_unique(tabs: Seq<TabView>) -> bool {
    forall|i: int, j: int| #![trigger tabs[i], tabs[j]] 0 <= i < j < tabs.len() ==> tabs[i].key != tabs[j].key
}

/// Whether no two applications have the same key.
pub open spec fn apps_unique(apps: Seq<AppView>) -> bool {
    forall|i: int, j: int| #![trigger apps[i], apps[j]] 0 <= i < j < apps.len() ==> apps[i].key != apps[j].key
}

/// Sequences that agree on the predicate, place by place, have it first at the same place.
proof fn lemma_same_first<A>(a: Seq<A>, b: Seq<A>, p: spec_fn(A) -> bool)
    requires
        a.len() == b.len(),
        forall|m: int| 0 <= m < a.len() ==> p(#[trigger] a[m]) == p(b[m]),
    ensures
        first_index(a, p) == first_index(b, p),
{
    lemma_first_index_bounds(a, p);
    let i = first_index(a, p);
    assert forall|m: int| 0 <= m < i implies !p(#[trigger] b[m]) by {
        assert(!p(a[m]));
    }
    if i < a.len() {
        assert(p(a[i]));
    }
    lemma_first_index(b, p, i);
}

/// A sequence that extends `a` has the first element of `a` that satisfies the predicate
/// at the same place.
proof fn lemma_extended_first<A>(a: Seq<A>, b: Seq<A>, p: spec_fn(A) -> bool)
    requires
        a.len() <= b.len(),
        forall|m: int| 0 <= m < a.len() ==> #[trigger] a[m] == b[m],
        first_index(a, p) < a.len(),
    ensures
        first_index(b, p) == first_index(a, p),
{
    lemma_first_index_bounds(a, p);
    let i = first_index(a, p);
    assert forall|m: int| 0 <= m < i implies !p(#[trigger] b[m]) by {
        assert(!p(a[m]));
    }
    assert(a[i] == b[i]);
    lemma_first_index(b, p, i);
}

/// After the links are applied to a site's link entries, the entries mirror every one of
/// them.
proof fn lemma_sync_urls_mirror(s0: Seq<StageUrlView>, urls: Seq<UrlView>)
    ensures
        forall|k: int| 0 <= k < urls.len() ==> mirrors_url(sync_urls(s0, urls), #[trigger] urls[k]),
    decreases urls.len(),
{
    if urls.len() > 0 {
        let prev = urls.drop_last();
        lemma_sync_urls_mirror(s0, prev);
        let t = sync_urls(s0, prev);
        let u = urls.last();
        lemma_with_url(t, u.url);
        let w = with_url(t, u.url);
        let i = url_pos(w, u.url);
        lemma_first_index_bounds(w, url_is(u.url));
        let r = sync_urls(s0, urls);
        assert(r == sync_url(t, u));
        assert forall|m: int| 0 <= m < t.len() implies #[trigger] t[m] == w[m] by {}
        assert(r.len() == w.len());
        assert forall|k: int| 0 <= k < urls.len() implies mirrors_url(r, #[trigger] urls[k]) by {
            let a = urls[k].url;
            assert forall|m: int| 0 <= m < w.len() implies url_is(a)(#[trigger] w[m]) == url_is(a)(r[m]) by {}
            lemma_same_first(w, r, url_is(a));
            if k < urls.len() - 1 {
                assert(prev[k] == urls[k]);
                assert(mirrors_url(t, prev[k]));
                lemma_first_index_bounds(t, url_is(a));
                lemma_extended_first(t, w, url_is(a));
                let pos = url_pos(t, a);
                assert(w[pos] == t[pos]);
                if pos != i || u.enabled {
                    assert(r[pos] == w[pos]);
                }
            } else {
                assert(urls[k] == u);
            }
        }
    }
}

/// After the sites (with unique keys) are applied to an application's site entries, the
/// entries mirror every one of them, links included.
proof fn lemma_sync_tabs_mirror(s0: Seq<StageTabView>, tabs: Seq<TabView>)
    requires
        sites_unique(tabs),
    ensures
        forall|k: int| 0 <= k < tabs.len() ==> mirrors_tab(sync_tabs(s0, tabs), #[trigger] tabs[k]),
    decreases tabs.len(),
{
    if tabs.len() > 0 {
        let prev = tabs.drop_last();
        assert forall|i: int, j: int| #![trigger prev[i], prev[j]] 0 <= i < j < prev.len() implies prev[i].key
            != prev[j].key by {
            assert(prev[i] == tabs[i] && prev[j] == tabs[j]);
        }
        lemma_sync_tabs_mirror(s0, prev);
        let t = sync_tabs(s0, prev);
        let tab = tabs.last();
        lemma_with_tab(t, tab.key);
        let w = with_tab(t, tab.key);
        let i = tab_pos(w, tab.key);
        lemma_first_index_bounds(w, tab_is(tab.key));
        let r = w.update(i, sync_tab_entry(w[i], tab));
        assert(r == sync_tabs(s0, tabs));
        assert forall|m: int| 0 <= m < t.len() implies #[trigger] t[m] == w[m] by {}
        assert forall|k: int| 0 <= k < tabs.len() implies mirrors_tab(r, #[trigger] tabs[k]) by {
            let key = tabs[k].key;
            assert forall|m: int| 0 <= m < w.len() implies tab_is(key)(#[trigger] w[m]) == tab_is(key)(r[m]) by {}
            lemma_same_first(w, r, tab_is(key));
            if k < tabs.len() - 1 {
                assert(prev[k] == tabs[k]);
                assert(mirrors_tab(t, prev[k]));
                lemma_first_index_bounds(t, tab_is(key));
                lemma_extended_first(t, w, tab_is(key));
                let pos = tab_pos(t, key);
                assert(w[pos] == t[pos]);
                assert(tabs[k].key != tab.key);
                assert(pos != i);
                assert(r[pos] == t[pos]);
            } else {
                assert(tabs[k] == tab);
                lemma_sync_urls_mirror(keep(w[i].urls, url_kept(tab.urls)), tab.urls);
                assert(r[i].urls == sync_urls(keep(w[i].urls, url_kept(tab.urls)), tab.urls));
            }
        }
    }
}

/// After the applications are applied to a stage's entries, the entries mirror every one
/// of them; with unique keys of applications and of each one's sites, the sites and
/// links too.
pub proof fn lemma_sync_apps_mirror(t0: Seq<StageAppView>, apps: Seq<AppView>)
    ensures
        forall|j: int| 0 <= j < apps.len() ==> mirrors_app(sync_apps(t0, apps), #[trigger] apps[j]),
        apps_unique(apps) && (forall|j: int| 0 <= j < apps.len() ==> sites_unique(#[trigger] apps[j].tabs)) ==> forall|j: int|
            0 <= j < apps.len() ==> mirrors_app_fully(sync_apps(t0, apps), #[trigger] apps[j]),
    decreases apps.len(),
{
    if apps.len() > 0 {
        let prev = apps.drop_last();
        lemma_sync_apps_mirror(t0, prev);
        let t = sync_apps(t0, prev);
        let a = apps.last();
        lemma_with_app(t, a.key);
        let w = with_app(t, a.key);
        let i = app_pos(w, a.key);
        lemma_first_index_bounds(w, app_is(a.key));
        let r = w.update(i, sync_app_entry(w[i], a));
        assert(r == sync_apps(t0, apps));
        assert forall|m: int| 0 <= m < t.len() implies #[trigger] t[m] == w[m] by {}
        let unique = apps_unique(apps) && (forall|j: int| 0 <= j < apps.len() ==> sites_unique(#[trigger] apps[j].tabs));
        if unique {
            assert forall|x: int, y: int| #![trigger prev[x], prev[y]] 0 <= x < y < prev.len() implies prev[x].key
                != prev[y].key by {
                assert(prev[x] == apps[x] && prev[y] == apps[y]);
            }
            assert forall|j: int| 0 <= j < prev.len() implies sites_unique(#[trigger] prev[j].tabs) by {
                assert(prev[j] == apps[j]);
            }
        }
        assert forall|j: int| 0 <= j < apps.len() implies mirrors_app(r, #[trigger] apps[j]) && (unique
            ==> mirrors_app_fully(r, apps[j])) by {
            let k = apps[j].key;
            assert forall|m: int| 0 <= m < w.len() implies app_is(k)(#[trigger] w[m]) == app_is(k)(r[m]) by {}
            lemma_same_first(w, r, app_is(k));
            if j < apps.len() - 1 {
                assert(prev[j] == apps[j]);
                assert(mirrors_app(t, prev[j]));
                lemma_first_index_bounds(t, app_is(k));
                lemma_extended_first(t, w, app_is(k));
                let pos = app_pos(t, k);
                assert(w[pos] == t[pos]);
                if pos == i {
                    assert(r[pos].enabled == (w[i].enabled && a.enabled));
                } else {
                    assert(r[pos] == w[pos]);
                }
                if unique {
                    assert(apps[j].key != a.key);
                    assert(pos != i);
                    assert(mirrors_app_fully(t, prev[j]));
                }
            } else {
                assert(apps[j] == a);
                assert(app_pos(r, k) == i);
                assert(r[i].enabled == (w[i].enabled && a.enabled));
                if unique {
                    lemma_sync_tabs_mirror(keep(w[i].tabs, tab_kept(a.tabs)), a.tabs);
                    assert(r[i].tabs == sync_tabs(keep(w[i].tabs, tab_kept(a.tabs)), a.tabs));
                }
            }
        }
    }
}

/// Whether the applications have unique keys, and so have each one's sites.
pub open spec fn keys_unique(apps: Seq<AppView>) -> bool {
    apps_unique(apps) && forall|j: int| 0 <= j < apps.len() ==> sites_unique(#[trigger] apps[j].tabs)
}

/// Whether two lists of applications have the same keys, and the same site keys, place by
/// place.
pub open spec fn same_keys(a: Seq<AppView>, b: Seq<AppView>) -> bool {
    &&& a.len() == b.len()
    &&& forall|j: int| 0 <= j < a.len() ==> {
        &&& (#[trigger] a[j]).key == b[j].key
        &&& a[j].tabs.len() == b[j].tabs.len()
        &&& forall|t: int| 0 <= t < a[j].tabs.len() ==> (#[trigger] a[j].tabs[t]).key == b[j].tabs[t].key
    }
}

pub proof fn lemma_same_keys_unique(a: Seq<AppView>, b: Seq<AppView>)
    requires
        same_keys(a, b),
        keys_unique(a),
    ensures
        keys_unique(b),
{
    assert forall|x: int, y: int| #![trigger b[x], b[y]] 0 <= x < y < b.len() implies b[x].key != b[y].key by {
        assert(a[x].key != a[y].key);
        assert(a[x].key == b[x].key && a[y].key == b[y].key);
    }
    assert forall|j: int| 0 <= j < b.len() implies sites_unique(#[trigger] b[j].tabs) by {
        assert(sites_unique(a[j].tabs));
        let ts = b[j].tabs;
        assert forall|x: int, y: int| #![trigger ts[x], ts[y]] 0 <= x < y < ts.len() implies ts[x].key != ts[y].key by {
            assert(a[j].tabs[x].key != a[j].tabs[y].key);
            assert(a[j].tabs[x].key == ts[x].key && a[j].tabs[y].key == ts[y].key);
        }
    }
}

// ---------------------------------------------------------------- syncing twice

/// `keep` keeps everything when everything qualifies.
proof fn lemma_keep_everything<A>(s: Seq<A>, p: spec_fn(A) -> bool)
    requires
        forall|i: int| 0 <= i < s.len() ==> p(#[trigger] s[i]),
    ensures
        keep(s, p) == s,
    decreases s.len(),
{
    if s.len() > 0 {
        let t = s.drop_last();
        assert forall|i: int| 0 <= i < t.len() implies p(#[trigger] t[i]) by {
            assert(t[i] == s[i]);
        }
        lemma_keep_everything(t, p);
        assert(t.push(s.last()) =~= s);
    } else {
        assert(s =~= Seq::<A>::empty());
    }
}

proof fn lemma_keep_qualifies<A>(s: Seq<A>, p: spec_fn(A) -> bool)
    ensures
        forall|i: int| 0 <= i < keep(s, p).len() ==> p(#[trigger] keep(s, p)[i]),
{
    lemma_keep_all(s, p);
}

/// Link entries whose links are all among `l` stay so after links of `l` are applied.
proof fn lemma_sync_urls_listed(s0: Seq<StageUrlView>, us: Seq<UrlView>, l: Seq<UrlView>)
    requires
        forall|i: int| 0 <= i < s0.len() ==> url_kept(l)(#[trigger] s0[i]),
        forall|k: int| 0 <= k < us.len() ==> url_listed(l, (#[trigger] us[k]).url),
    ensures
        forall|i: int| 0 <= i < sync_urls(s0, us).len() ==> url_kept(l)(#[trigger] sync_urls(s0, us)[i]),
    decreases us.len(),
{
    if us.len() > 0 {
        let prev = us.drop_last();
        assert forall|k: int| 0 <= k < prev.len() implies url_listed(l, (#[trigger] prev[k]).url) by {
            assert(prev[k] == us[k]);
        }
        lemma_sync_urls_listed(s0, prev, l);
        let t = sync_urls(s0, prev);
        let u = us.last();
        assert(url_listed(l, us[us.len() - 1].url));
        lemma_with_url(t, u.url);
        lemma_first_index_bounds(with_url(t, u.url), url_is(u.url));
    }
}

/// Applying to link entries links whose entries are already there, excluded where the
/// link is, changes nothing.
proof fn lemma_sync_urls_fixed(r: Seq<StageUrlView>, us: Seq<UrlView>)
    requires
        forall|k: int| 0 <= k < us.len() ==> mirrors_url(r, #[trigger] us[k]),
    ensures
        sync_urls(r, us) == r,
    decreases us.len(),
{
    if us.len() > 0 {
        let prev = us.drop_last();
        assert forall|k: int| 0 <= k < prev.len() implies mirrors_url(r, #[trigger] prev[k]) by {
            assert(prev[k] == us[k]);
        }
        lemma_sync_urls_fixed(r, prev);
        let u = us.last();
        assert(mirrors_url(r, us[us.len() - 1]));
        lemma_first_index_bounds(r, url_is(u.url));
        let i = url_pos(r, u.url);
        if !u.enabled {
            assert(r.update(i, StageUrlView { enabled: false, ..r[i] }) =~= r);
        }
    }
}

/// A site's entry brought in line with the site twice is the entry brought in line once.
proof fn lemma_sync_tab_entry_twice(x: StageTabView, tab: TabView)
    ensures
        sync_tab_entry(sync_tab_entry(x, tab), tab) == sync_tab_entry(x, tab),
{
    let k = url_kept(tab.urls);
    let s0 = keep(x.urls, k);
    let u = sync_urls(s0, tab.urls);
    lemma_keep_qualifies(x.urls, k);
    assert forall|j: int| 0 <= j < tab.urls.len() implies url_listed(tab.urls, (#[trigger] tab.urls[j]).url) by {}
    lemma_sync_urls_listed(s0, tab.urls, tab.urls);
    lemma_keep_everything(u, k);
    lemma_sync_urls_mirror(s0, tab.urls);
    lemma_sync_urls_fixed(u, tab.urls);
}

/// The site entries after sites with unique keys are applied: each site's entry is there
/// and stays as it is when the site is applied again.
proof fn lemma_sync_tabs_settled(s0: Seq<StageTabView>, tabs: Seq<TabView>)
    requires
        sites_unique(tabs),
    ensures
        forall|k: int| 0 <= k < tabs.len() ==> {
            let r = sync_tabs(s0, tabs);
            let pos = tab_pos(r, (#[trigger] tabs[k]).key);
            &&& pos < r.len()
            &&& sync_tab_entry(r[pos], tabs[k]) == r[pos]
        },
    decreases tabs.len(),
{
    if tabs.len() > 0 {
        let prev = tabs.drop_last();
        assert forall|i: int, j: int| #![trigger prev[i], prev[j]] 0 <= i < j < prev.len() implies prev[i].key
            != prev[j].key by {
            assert(prev[i] == tabs[i] && prev[j] == tabs[j]);
        }
        lemma_sync_tabs_settled(s0, prev);
        let t = sync_tabs(s0, prev);
        let tab = tabs.last();
        lemma_with_tab(t, tab.key);
        let w = with_tab(t, tab.key);
        let i = tab_pos(w, tab.key);
        lemma_first_index_bounds(w, tab_is(tab.key));
        let r = w.update(i, sync_tab_entry(w[i], tab));
        assert(r == sync_tabs(s0, tabs));
        lemma_sync_tab_entry_twice(w[i], tab);
        assert forall|m: int| 0 <= m < t.len() implies #[trigger] t[m] == w[m] by {}
        assert forall|k: int| 0 <= k < tabs.len() implies ({
            let pos = tab_pos(r, (#[trigger] tabs[k]).key);
            &&& pos < r.len()
            &&& sync_tab_entry(r[pos], tabs[k]) == r[pos]
        }) by {
            let key = tabs[k].key;
            assert forall|m: int| 0 <= m < w.len() implies tab_is(key)(#[trigger] w[m]) == tab_is(key)(r[m]) by {}
            lemma_same_first(w, r, tab_is(key));
            if k < tabs.len() - 1 {
                assert(prev[k] == tabs[k]);
                lemma_first_index_bounds(t, tab_is(key));
                lemma_extended_first(t, w, tab_is(key));
                let pos = tab_pos(t, key);
                assert(tabs[k].key != tab.key);
                assert(w[pos] == t[pos]);
                assert(pos != i);
                assert(r[pos] == t[pos]);
            } else {
                assert(tabs[k] == tab);
            }
        }
    }
}

/// Site entries whose sites are all among `l` stay so after sites of `l` are applied.
proof fn lemma_sync_tabs_listed(s0: Seq<StageTabView>, ts: Seq<TabView>, l: Seq<TabView>)
    requires
        forall|i: int| 0 <= i < s0.len() ==> tab_kept(l)(#[trigger] s0[i]),
        forall|k: int| 0 <= k < ts.len() ==> tab_listed(l, (#[trigger] ts[k]).key),
    ensures
        forall|i: int| 0 <= i < sync_tabs(s0, ts).len() ==> tab_kept(l)(#[trigger] sync_tabs(s0, ts)[i]),
    decreases ts.len(),
{
    if ts.len() > 0 {
        let prev = ts.drop_last();
        assert forall|k: int| 0 <= k < prev.len() implies tab_listed(l, (#[trigger] prev[k]).key) by {
            assert(prev[k] == ts[k]);
        }
        lemma_sync_tabs_listed(s0, prev, l);
        let t = sync_tabs(s0, prev);
        let tab = ts.last();
        assert(tab_listed(l, ts[ts.len() - 1].key));
        lemma_with_tab(t, tab.key);
        lemma_first_index_bounds(with_tab(t, tab.key), tab_is(tab.key));
    }
}

/// Applying to site entries sites whose entries are there and settled changes nothing.
proof fn lemma_sync_tabs_fixed(r: Seq<StageTabView>, ts: Seq<TabView>)
    requires
        forall|k: int| 0 <= k < ts.len() ==> {
            let pos = tab_pos(r, (#[trigger] ts[k]).key);
            &&& pos < r.len()
            &&& sync_tab_entry(r[pos], ts[k]) == r[pos]
        },
    ensures
        sync_tabs(r, ts) == r,
    decreases ts.len(),
{
    if ts.len() > 0 {
        let prev = ts.drop_last();
        assert forall|k: int| 0 <= k < prev.len() implies ({
            let pos = tab_pos(r, (#[trigger] prev[k]).key);
            &&& pos < r.len()
            &&& sync_tab_entry(r[pos], prev[k]) == r[pos]
        }) by {
            assert(prev[k] == ts[k]);
        }
        lemma_sync_tabs_fixed(r, prev);
        let tab = ts.last();
        assert(tab == ts[ts.len() - 1]);
        lemma_first_index_bounds(r, tab_is(tab.key));
        let i = tab_pos(r, tab.key);
        assert(r.update(i, sync_tab_entry(r[i], tab)) =~= r);
    }
}

/// An application's entry brought in line with the application twice is the entry
/// brought in line once, when its sites have unique keys.
proof fn lemma_sync_app_entry_twice(x: StageAppView, app: AppView)
    requires
        sites_unique(app.tabs),
    ensures
        sync_app_entry(sync_app_entry(x, app), app) == sync_app_entry(x, app),
{
    let k = tab_kept(app.tabs);
    let s0 = keep(x.tabs, k);
    let t = sync_tabs(s0, app.tabs);
    lemma_keep_qualifies(x.tabs, k);
    assert forall|j: int| 0 <= j < app.tabs.len() implies tab_listed(app.tabs, (#[trigger] app.tabs[j]).key) by {}
    lemma_sync_tabs_listed(s0, app.tabs, app.tabs);
    lemma_keep_everything(t, k);
    lemma_sync_tabs_settled(s0, app.tabs);
    lemma_sync_tabs_fixed(t, app.tabs);
}

proof fn lemma_sync_apps_settled(s0: Seq<StageAppView>, apps: Seq<AppView>)
    requires
        keys_unique(apps),
    ensures
        forall|k: int| 0 <= k < apps.len() ==> {
            let r = sync_apps(s0, apps);
            let pos = app_pos(r, (#[trigger] apps[k]).key);
            &&& pos < r.len()
            &&& sync_app_entry(r[pos], apps[k]) == r[pos]
        },
    decreases apps.len(),
{
    if apps.len() > 0 {
        let prev = apps.drop_last();
        assert forall|i: int, j: int| #![trigger prev[i], prev[j]] 0 <= i < j < prev.len() implies prev[i].key
            != prev[j].key by {
            assert(prev[i] == apps[i] && prev[j] == apps[j]);
        }
        assert forall|j: int| 0 <= j < prev.len() implies sites_unique(#[trigger] prev[j].tabs) by {
            assert(prev[j] == apps[j]);
        }
        lemma_sync_apps_settled(s0, prev);
        let t = sync_apps(s0, prev);
        let a = apps.last();
        lemma_with_app(t, a.key);
        let w = with_app(t, a.key);
        let i = app_pos(w, a.key);
        lemma_first_index_bounds(w, app_is(a.key));
        let r = w.update(i, sync_app_entry(w[i], a));
        assert(r == sync_apps(s0, apps));
        assert(sites_unique(apps[apps.len() - 1].tabs));
        lemma_sync_app_entry_twice(w[i], a);
        assert forall|m: int| 0 <= m < t.len() implies #[trigger] t[m] == w[m] by {}
        assert forall|k: int| 0 <= k < apps.len() implies ({
            let pos = app_pos(r, (#[trigger] apps[k]).key);
            &&& pos < r.len()
            &&& sync_app_entry(r[pos], apps[k]) == r[pos]
        }) by {
            let key = apps[k].key;
            assert forall|m: int| 0 <= m < w.len() implies app_is(key)(#[trigger] w[m]) == app_is(key)(r[m]) by {}
            lemma_same_first(w, r, app_is(key));
            if k < apps.len() - 1 {
                assert(prev[k] == apps[k]);
                lemma_first_index_bounds(t, app_is(key));
                lemma_extended_first(t, w, app_is(key));
                let pos = app_pos(t, key);
                assert(apps[k].key != a.key);
                assert(w[pos] == t[pos]);
                assert(pos != i);
                assert(r[pos] == t[pos]);
            } else {
                assert(apps[k] == a);
            }
        }
    }
}

proof fn lemma_sync_apps_listed(s0: Seq<StageAppView>, as_: Seq<AppView>, l: Seq<AppView>)
    requires
        forall|i: int| 0 <= i < s0.len() ==> app_kept(l)(#[trigger] s0[i]),
        forall|k: int| 0 <= k < as_.len() ==> app_listed(l, (#[trigger] as_[k]).key),
    ensures
        forall|i: int| 0 <= i < sync_apps(s0, as_).len() ==> app_kept(l)(#[trigger] sync_apps(s0, as_)[i]),
    decreases as_.len(),
{
    if as_.len() > 0 {
        let prev = as_.drop_last();
        assert forall|k: int| 0 <= k < prev.len() implies app_listed(l, (#[trigger] prev[k]).key) by {
            assert(prev[k] == as_[k]);
        }
        lemma_sync_apps_listed(s0, prev, l);
        let t = sync_apps(s0, prev);
        let a = as_.last();
        assert(app_listed(l, as_[as_.len() - 1].key));
        lemma_with_app(t, a.key);
        lemma_first_index_bounds(with_app(t, a.key), app_is(a.key));
    }
}

proof fn lemma_sync_apps_fixed(r: Seq<StageAppView>, as_: Seq<AppView>)
    requires
        forall|k: int| 0 <= k < as_.len() ==> {
            let pos = app_pos(r, (#[trigger] as_[k]).key);
            &&& pos < r.len()
            &&& sync_app_entry(r[pos], as_[k]) == r[pos]
        },
    ensures
        sync_apps(r, as_) == r,
    decreases as_.len(),
{
    if as_.len() > 0 {
        let prev = as_.drop_last();
        assert forall|k: int| 0 <= k < prev.len() implies ({
            let pos = app_pos(r, (#[trigger] prev[k]).key);
            &&& pos < r.len()
            &&& sync_app_entry(r[pos], prev[k]) == r[pos]
        }) by {
            assert(prev[k] == as_[k]);
        }
        lemma_sync_apps_fixed(r, prev);
        let a = as_.last();
        assert(a == as_[as_.len() - 1]);
        lemma_first_index_bounds(r, app_is(a.key));
        let i = app_pos(r, a.key);
        assert(r.update(i, sync_app_entry(r[i], a)) =~= r);
    }
}

/// A stage's application entries brought in line with applications of unique keys
/// (and unique site keys) twice are the entries brought in line once.
pub proof fn lemma_sync_stage_apps_twice(s: Seq<StageAppView>, apps: Seq<AppView>)
    requires
        keys_unique(apps),
    ensures
        sync_stage_apps(sync_stage_apps(s, apps), apps) == sync_stage_apps(s, apps),
{
    let k = app_kept(apps);
    let s0 = keep(s, k);
    let r = sync_apps(s0, apps);
    lemma_keep_qualifies(s, k);
    assert forall|j: int| 0 <= j < apps.len() implies app_listed(apps, (#[trigger] apps[j]).key) by {}
    lemma_sync_apps_listed(s0, apps, apps);
    lemma_keep_everything(r, k);
    lemma_sync_apps_settled(s0, apps);
    lemma_sync_apps_fixed(r, apps);
}

/// Whether the first entry for site `tk` is there and included (`v`) or excluded.
pub open spec fn tab_at(x: Seq<StageTabView>, tk: Seq<char>, v: bool) -> bool {
    tab_pos(x, tk) < x.len() && x[tab_pos(x, tk)].enabled == v
}

/// Whether the first entry for application `ak` is there and its entry for site `tk`
/// is there and included (`v`) or excluded.
pub open spec fn site_at(entries: Seq<StageAppView>, ak: Seq<char>, tk: Seq<char>, v: bool) -> bool {
    app_pos(entries, ak) < entries.len() && tab_at(entries[app_pos(entries, ak)].tabs, tk, v)
}

/// Whether the stage carries an included entry for site `tk` of application `ak`.
pub open spec fn site_on(entries: Seq<StageAppView>, ak: Seq<char>, tk: Seq<char>) -> bool {
    site_at(entries, ak, tk, true)
}

/// Applying sites to site entries leaves an excluded entry excluded, and an included
/// entry included when every site with its key is included.
pub proof fn lemma_sync_tabs_keep_on(x: Seq<StageTabView>, tabs: Seq<TabView>, tk: Seq<char>, v: bool)
    requires
        tab_at(x, tk, v),
        v ==> forall|m: int| 0 <= m < tabs.len() && (#[trigger] tabs[m]).key == tk ==> tabs[m].enabled,
    ensures
        tab_at(sync_tabs(x, tabs), tk, v),
    decreases tabs.len(),
{
    if tabs.len() > 0 {
        let prev = tabs.drop_last();
        if v {
            assert forall|m: int| 0 <= m < prev.len() && (#[trigger] prev[m]).key == tk implies prev[m].enabled by {
                assert(prev[m] == tabs[m]);
            }
        }
        lemma_sync_tabs_keep_on(x, prev, tk, v);
        let s1 = sync_tabs(x, prev);
        let tab = tabs.last();
        assert(tab == tabs[tabs.len() - 1]);
        lemma_with_tab(s1, tab.key);
        let w = with_tab(s1, tab.key);
        let i = tab_pos(w, tab.key);
        lemma_first_index_bounds(w, tab_is(tab.key));
        let r = w.update(i, sync_tab_entry(w[i], tab));
        assert(r == sync_tabs(x, tabs));
        let p = tab_pos(s1, tk);
        assert(tab_at(s1, tk, v));
        assert(p < s1.len());
        lemma_first_index_bounds(s1, tab_is(tk));
        if w.len() > s1.len() {
            assert forall|m: int| 0 <= m < s1.len() implies #[trigger] s1[m] == w[m] by {}
            lemma_extended_first(s1, w, tab_is(tk));
        }
        assert(tab_pos(w, tk) == p);
        assert(w[p] == s1[p]);
        assert forall|m: int| 0 <= m < w.len() implies tab_is(tk)(#[trigger] w[m]) == tab_is(tk)(r[m]) by {}
        lemma_same_first(w, r, tab_is(tk));
        if tab.key != tk {
            assert(w[i].tab_key == tab.key);
            assert(i != p);
        } else {
            assert(i == p);
        }
    }
}

/// Applying applications to application entries leaves an application's entry for a
/// site as it is, excluded or included, when every application with that key lists the
/// site and, for an included entry, includes every site with its key.
pub proof fn lemma_sync_apps_keep_on(s: Seq<StageAppView>, apps: Seq<AppView>, ak: Seq<char>, tk: Seq<char>, v: bool)
    requires
        site_at(s, ak, tk, v),
        forall|m: int|
            0 <= m < apps.len() && (#[trigger] apps[m]).key == ak ==> tab_listed(apps[m].tabs, tk) && (v ==> forall|u: int|
                0 <= u < apps[m].tabs.len() && (#[trigger] apps[m].tabs[u]).key == tk ==> apps[m].tabs[u].enabled),
    ensures
        site_at(sync_apps(s, apps), ak, tk, v),
    decreases apps.len(),
{
    if apps.len() > 0 {
        let prev = apps.drop_last();
        assert forall|m: int| 0 <= m < prev.len() && (#[trigger] prev[m]).key == ak implies tab_listed(prev[m].tabs, tk)
            && (v ==> forall|u: int| 0 <= u < prev[m].tabs.len() && (#[trigger] prev[m].tabs[u]).key == tk ==> prev[m].tabs[u].enabled) by {
            assert(prev[m] == apps[m]);
        }
        lemma_sync_apps_keep_on(s, prev, ak, tk, v);
        let s1 = sync_apps(s, prev);
        let a = apps.last();
        assert(a == apps[apps.len() - 1]);
        lemma_with_app(s1, a.key);
        let w = with_app(s1, a.key);
        let i = app_pos(w, a.key);
        lemma_first_index_bounds(w, app_is(a.key));
        let r = w.update(i, sync_app_entry(w[i], a));
        assert(r == sync_apps(s, apps));
        let p = app_pos(s1, ak);
        assert(site_at(s1, ak, tk, v));
        assert(p < s1.len());
        lemma_first_index_bounds(s1, app_is(ak));
        if w.len() > s1.len() {
            assert forall|m: int| 0 <= m < s1.len() implies #[trigger] s1[m] == w[m] by {}
            lemma_extended_first(s1, w, app_is(ak));
        }
        assert(app_pos(w, ak) == p);
        assert(w[p] == s1[p]);
        assert forall|m: int| 0 <= m < w.len() implies app_is(ak)(#[trigger] w[m]) == app_is(ak)(r[m]) by {}
        lemma_same_first(w, r, app_is(ak));
        if a.key != ak {
            assert(w[i].app_key == a.key);
            assert(i != p);
            assert(r[p] == s1[p]);
        } else {
            assert(i == p);
            let e = s1[p];
            let f = tab_kept(a.tabs);
            lemma_first_index_bounds(e.tabs, tab_is(tk));
            assert(f(e.tabs[tab_pos(e.tabs, tk)]));
            crate::seqs::lemma_keep_first(e.tabs, f, tab_is(tk));
            let kt = keep(e.tabs, f);
            assert(tab_at(kt, tk, v));
            if v {
                assert forall|u: int| 0 <= u < a.tabs.len() && (#[trigger] a.tabs[u]).key == tk implies a.tabs[u].enabled by {}
            }
            lemma_sync_tabs_keep_on(kt, a.tabs, tk, v);
        }
    }
}

} // verus!
