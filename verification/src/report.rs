//! What the reports count: only included applications, sites and links, with the time
//! that is left once excluded parts are taken out; and how durations are written.
use vstd::prelude::*;
use crate::models::{AppUsageRecord, AppView, ProjectRecord, TabUsageRecord, TabView, UrlView, opt_view, clone_opt};
use crate::seqs::{first_index, lemma_first_index, lemma_first_index_bounds};
use crate::text::{owned, str_eq};

verus! {

/// Which time a report gives a site: the site's own time (the spreadsheet), or the time
/// of its included links when it has links (the printable report).
#[derive(Debug, Clone, Copy, PartialEq, Eq, Structural)]
pub enum TimeBasis {
    SiteTimes,
    LinkTimes,
}

/// The time of a site's included links.
pub open spec fn links_total(urls: Seq<UrlView>) -> int
    decreases urls.len(),
{
    if urls.len() == 0 {
        0
    } else {
        links_total(urls.drop_last()) + if urls.last().enabled { urls.last().time_seconds as int } else { 0 }
    }
}

/// The time a report gives a site.
pub open spec fn tab_seconds(t: TabView, basis: TimeBasis) -> int {
    match basis {
        TimeBasis::SiteTimes => t.time_seconds as int,
        TimeBasis::LinkTimes => if t.urls.len() == 0 { t.time_seconds as int } else { links_total(t.urls) },
    }
}

/// The time of a browser's included sites.
pub open spec fn tabs_total(tabs: Seq<TabView>, basis: TimeBasis) -> int
    decreases tabs.len(),
{
    if tabs.len() == 0 {
        0
    } else {
        tabs_total(tabs.drop_last(), basis) + if tabs.last().enabled { tab_seconds(tabs.last(), basis) } else { 0 }
    }
}

/// The time a report gives an application: none when it is excluded; for a browser with
/// sites, the time of its included sites; else its own time.
pub open spec fn app_seconds(a: AppView, basis: TimeBasis) -> int {
    if !a.enabled {
        0
    } else if a.kind == "browser"@ && a.tabs.len() > 0 {
        tabs_total(a.tabs, basis)
    } else {
        a.time_seconds as int
    }
}

/// The time of all the applications of a project, as the report counts it.
pub open spec fn apps_total(apps: Seq<AppView>, basis: TimeBasis) -> int
    decreases apps.len(),
{
    if apps.len() == 0 {
        0
    } else {
        apps_total(apps.drop_last(), basis) + app_seconds(apps.last(), basis)
    }
}

/// Whether every sum that a report takes of a project fits in `u64` (the report adds
/// without overflow checks, so a larger sum would overflow).
pub open spec fn report_fits(apps: Seq<AppView>, basis: TimeBasis) -> bool {
    &&& forall|i: int| 0 <= i < apps.len() && (#[trigger] apps[i]).enabled ==> {
        &&& app_seconds(apps[i], basis) <= u64::MAX
        &&& forall|k: int| 0 <= k < apps[i].tabs.len() ==> tab_seconds(#[trigger] apps[i].tabs[k], basis) <= u64::MAX
    }
    &&& apps_total(apps, basis) <= u64::MAX
}

proof fn lemma_links_total_bounds(urls: Seq<UrlView>)
    ensures
        links_total(urls) >= 0,
    decreases urls.len(),
{
    if urls.len() > 0 {
        lemma_links_total_bounds(urls.drop_last());
    }
}

proof fn lemma_tabs_total_bounds(tabs: Seq<TabView>, basis: TimeBasis)
    ensures
        tabs_total(tabs, basis) >= 0,
    decreases tabs.len(),
{
    if tabs.len() > 0 {
        lemma_tabs_total_bounds(tabs.drop_last(), basis);
        lemma_links_total_bounds(tabs.last().urls);
    }
}

proof fn lemma_apps_total_bounds(apps: Seq<AppView>, basis: TimeBasis)
    ensures
        apps_total(apps, basis) >= 0,
        forall|i: int| 0 <= i < apps.len() ==> 0 <= app_seconds(#[trigger] apps[i], basis) <= apps_total(apps, basis),
    decreases apps.len(),
{
    if apps.len() > 0 {
        let t = apps.drop_last();
        lemma_apps_total_bounds(t, basis);
        lemma_tabs_total_bounds(apps.last().tabs, basis);
        assert forall|i: int| 0 <= i < apps.len() implies 0 <= app_seconds(#[trigger] apps[i], basis) <= apps_total(apps, basis) by {
            if i < t.len() {
                assert(apps[i] == t[i]);
            }
        }
    }
}

/// The time of a site's included links (`sum` over the links that are included).
fn links_seconds(tab: &TabUsageRecord) -> (res: u64)
    requires
        links_total(tab@.urls) <= u64::MAX,
    ensures
        res == links_total(tab@.urls),
{
    let ghost us = tab@.urls;
    let mut total: u64 = 0;
    let mut k: usize = 0;
    while k < tab.urls.len()
        invariant
            k <= tab.urls.len(),
            us == tab@.urls,
            us.len() == tab.urls.len(),
            links_total(us) <= u64::MAX,
            total == links_total(us.take(k as int)),
        decreases tab.urls.len() - k,
    {
        proof {
            assert(us.take(k + 1).drop_last() =~= us.take(k as int));
            lemma_links_prefix(us, k as int + 1);
            assert(us[k as int] == tab.urls@[k as int]@);
        }
        if tab.urls[k].enabled {
            total = total + tab.urls[k].time_seconds;
        }
        k = k + 1;
    }
    assert(us.take(k as int) =~= us);
    total
}

proof fn lemma_links_prefix(us: Seq<UrlView>, n: int)
    requires
        0 <= n <= us.len(),
    ensures
        0 <= links_total(us.take(n)) <= links_total(us),
    decreases us.len(),
{
    lemma_links_total_bounds(us.take(n));
    if n < us.len() {
        assert(us.drop_last().take(n) =~= us.take(n));
        lemma_links_prefix(us.drop_last(), n);
        lemma_links_total_bounds(us.drop_last());
    } else {
        assert(us.take(n) =~= us);
    }
}

proof fn lemma_tabs_prefix(ts: Seq<TabView>, n: int, basis: TimeBasis)
    requires
        0 <= n <= ts.len(),
    ensures
        0 <= tabs_total(ts.take(n), basis) <= tabs_total(ts, basis),
    decreases ts.len(),
{
    lemma_tabs_total_bounds(ts.take(n), basis);
    if n < ts.len() {
        assert(ts.drop_last().take(n) =~= ts.take(n));
        lemma_tabs_prefix(ts.drop_last(), n, basis);
        lemma_tabs_total_bounds(ts.drop_last(), basis);
        lemma_links_total_bounds(ts.last().urls);
    } else {
        assert(ts.take(n) =~= ts);
    }
}

/// The time a report gives a site (see `tab_seconds`).
pub fn included_tab_seconds(tab: &TabUsageRecord, basis: TimeBasis) -> (res: u64)
    requires
        tab_seconds(tab@, basis) <= u64::MAX,
    ensures
        res == tab_seconds(tab@, basis),
{
    match basis {
        TimeBasis::SiteTimes => tab.time_seconds,
        TimeBasis::LinkTimes => if tab.urls.len() == 0 {
            tab.time_seconds
        } else {
            links_seconds(tab)
        },
    }
}

/// The time a report gives an application (see `app_seconds`).
pub fn included_app_seconds(app: &AppUsageRecord, basis: TimeBasis) -> (res: u64)
    requires
        app@.enabled ==> app_seconds(app@, basis) <= u64::MAX,
        app@.enabled ==> forall|k: int| 0 <= k < app@.tabs.len() ==> tab_seconds(#[trigger] app@.tabs[k], basis) <= u64::MAX,
    ensures
        res == app_seconds(app@, basis),
{
    if !app.enabled {
        return 0;
    }
    if str_eq(app.kind.as_str(), "browser") && app.tabs.len() > 0 {
        let ghost ts = app@.tabs;
        let mut total: u64 = 0;
        let mut k: usize = 0;
        while k < app.tabs.len()
            invariant
                k <= app.tabs.len(),
                ts == app@.tabs,
                ts.len() == app.tabs.len(),
                tabs_total(ts, basis) <= u64::MAX,
                forall|m: int| 0 <= m < ts.len() ==> tab_seconds(#[trigger] ts[m], basis) <= u64::MAX,
                total == tabs_total(ts.take(k as int), basis),
            decreases app.tabs.len() - k,
        {
            proof {
                assert(ts.take(k + 1).drop_last() =~= ts.take(k as int));
                lemma_tabs_prefix(ts, k as int + 1, basis);
                assert(ts[k as int] == app.tabs@[k as int]@);
            }
            if app.tabs[k].enabled {
                let s = included_tab_seconds(&app.tabs[k], basis);
                total = total + s;
            }
            k = k + 1;
        }
        assert(ts.take(k as int) =~= ts);
        return total;
    }
    app.time_seconds
}

proof fn lemma_apps_prefix(apps: Seq<AppView>, n: int, basis: TimeBasis)
    requires
        0 <= n <= apps.len(),
    ensures
        0 <= apps_total(apps.take(n), basis) <= apps_total(apps, basis),
    decreases apps.len(),
{
    lemma_apps_total_bounds(apps.take(n), basis);
    if n < apps.len() {
        assert(apps.drop_last().take(n) =~= apps.take(n));
        lemma_apps_prefix(apps.drop_last(), n, basis);
        lemma_apps_total_bounds(apps, basis);
    } else {
        assert(apps.take(n) =~= apps);
    }
}

/// The time of a site's included links, when it fits in `u64`.
fn links_checked(tab: &TabUsageRecord) -> (res: Option<u64>)
    ensures
        res == (if links_total(tab@.urls) <= u64::MAX { Some(links_total(tab@.urls) as u64) } else { None }),
{
    let ghost us = tab@.urls;
    let mut total: u64 = 0;
    let mut k: usize = 0;
    while k < tab.urls.len()
        invariant
            k <= tab.urls.len(),
            us == tab@.urls,
            us.len() == tab.urls.len(),
            total == links_total(us.take(k as int)),
        decreases tab.urls.len() - k,
    {
        proof {
            assert(us.take(k + 1).drop_last() =~= us.take(k as int));
            assert(us[k as int] == tab.urls@[k as int]@);
        }
        if tab.urls[k].enabled {
            match total.checked_add(tab.urls[k].time_seconds) {
                Some(t) => {
                    total = t;
                },
                None => {
                    proof {
                        lemma_links_prefix(us, k as int + 1);
                    }
                    return None;
                },
            }
        }
        k = k + 1;
    }
    assert(us.take(k as int) =~= us);
    Some(total)
}

/// The time a report gives a site, when it fits in `u64`.
fn tab_checked(tab: &TabUsageRecord, basis: TimeBasis) -> (res: Option<u64>)
    ensures
        res == (if tab_seconds(tab@, basis) <= u64::MAX { Some(tab_seconds(tab@, basis) as u64) } else { None }),
{
    match basis {
        TimeBasis::SiteTimes => Some(tab.time_seconds),
        TimeBasis::LinkTimes => if tab.urls.len() == 0 {
            Some(tab.time_seconds)
        } else {
            links_checked(tab)
        },
    }
}

/// Whether the sums a report takes of one application fit (see `report_fits`), and
/// its time when they do.
fn app_checked(app: &AppUsageRecord, basis: TimeBasis) -> (res: Option<u64>)
    ensures
        res is Some <==> (app@.enabled ==> {
            &&& app_seconds(app@, basis) <= u64::MAX
            &&& forall|k: int| 0 <= k < app@.tabs.len() ==> tab_seconds(#[trigger] app@.tabs[k], basis) <= u64::MAX
        }),
        res matches Some(s) ==> s == app_seconds(app@, basis),
{
    if !app.enabled {
        return Some(0);
    }
    let ghost ts = app@.tabs;
    let browser = str_eq(app.kind.as_str(), "browser") && app.tabs.len() > 0;
    let mut total: u64 = 0;
    let mut over = false;
    let mut k: usize = 0;
    while k < app.tabs.len()
        invariant
            k <= app.tabs.len(),
            app@.enabled,
            ts == app@.tabs,
            ts.len() == app.tabs.len(),
            forall|m: int| 0 <= m < k ==> tab_seconds(#[trigger] ts[m], basis) <= u64::MAX,
            !over ==> total == tabs_total(ts.take(k as int), basis),
            over ==> tabs_total(ts.take(k as int), basis) > u64::MAX,
        decreases app.tabs.len() - k,
    {
        proof {
            assert(ts.take(k + 1).drop_last() =~= ts.take(k as int));
            assert(ts[k as int] == app.tabs@[k as int]@);
            lemma_tabs_total_bounds(ts.take(k as int), basis);
            lemma_links_total_bounds(ts[k as int].urls);
        }
        let t = &app.tabs[k];
        match tab_checked(t, basis) {
            None => {
                assert(tab_seconds(app@.tabs[k as int], basis) > u64::MAX);
                return None;
            },
            Some(s) => {
                if t.enabled && !over {
                    match total.checked_add(s) {
                        Some(n) => {
                            total = n;
                        },
                        None => {
                            over = true;
                        },
                    }
                }
            },
        }
        k = k + 1;
    }
    assert(ts.take(k as int) =~= ts);
    if browser {
        if over {
            None
        } else {
            Some(total)
        }
    } else {
        Some(app.time_seconds)
    }
}

/// Whether every sum that a report takes of the project fits (see `report_fits`).
pub fn report_totals_fit(project: &ProjectRecord, basis: TimeBasis) -> (res: bool)
    ensures
        res == report_fits(project@.apps, basis),
{
    let ghost av = project@.apps;
    let mut total: u64 = 0;
    let mut i: usize = 0;
    while i < project.apps.len()
        invariant
            i <= project.apps.len(),
            av == project@.apps,
            av.len() == project.apps.len(),
            forall|m: int| 0 <= m < i && (#[trigger] av[m]).enabled ==> {
                &&& app_seconds(av[m], basis) <= u64::MAX
                &&& forall|k: int| 0 <= k < av[m].tabs.len() ==> tab_seconds(#[trigger] av[m].tabs[k], basis) <= u64::MAX
            },
            total == apps_total(av.take(i as int), basis),
        decreases project.apps.len() - i,
    {
        proof {
            assert(av.take(i + 1).drop_last() =~= av.take(i as int));
            assert(av[i as int] == project.apps@[i as int]@);
        }
        match app_checked(&project.apps[i], basis) {
            None => {
                return false;
            },
            Some(s) => {
                match total.checked_add(s) {
                    Some(n) => {
                        total = n;
                    },
                    None => {
                        proof {
                            lemma_apps_prefix(av, i as int + 1, basis);
                        }
                        return false;
                    },
                }
            },
        }
        i = i + 1;
    }
    assert(av.take(i as int) =~= av);
    true
}

// ---------------------------------------------------------------- what a report lists

/// An application as a report lists it.
#[derive(Debug)]
pub struct IncludedApp {
    pub name: String,
    pub process_name: String,
    pub kind: String,
    pub seconds: u64,
}

#[verifier::ext_equal]
pub struct IncludedAppView {
    pub name: Seq<char>,
    pub process_name: Seq<char>,
    pub kind: Seq<char>,
    pub seconds: u64,
}

impl View for IncludedApp {
    type V = IncludedAppView;

    open spec fn view(&self) -> IncludedAppView {
        IncludedAppView { name: self.name@, process_name: self.process_name@, kind: self.kind@, seconds: self.seconds }
    }
}

pub open spec fn included_app_views(s: Seq<IncludedApp>) -> Seq<IncludedAppView> {
    s.map_values(|a: IncludedApp| a@)
}

/// A site as a report lists it.
#[derive(Debug)]
pub struct IncludedTab {
    pub browser: String,
    pub title: String,
    pub url: Option<String>,
    pub url_count: usize,
    pub seconds: u64,
}

#[verifier::ext_equal]
pub struct IncludedTabView {
    pub browser: Seq<char>,
    pub title: Seq<char>,
    pub url: Option<Seq<char>>,
    pub url_count: usize,
    pub seconds: u64,
}

impl View for IncludedTab {
    type V = IncludedTabView;

    open spec fn view(&self) -> IncludedTabView {
        IncludedTabView {
            browser: self.browser@,
            title: self.title@,
            url: opt_view(self.url),
            url_count: self.url_count,
            seconds: self.seconds,
        }
    }
}

pub open spec fn included_tab_views(s: Seq<IncludedTab>) -> Seq<IncludedTabView> {
    s.map_values(|t: IncludedTab| t@)
}

pub open spec fn app_row(a: AppView, basis: TimeBasis) -> IncludedAppView {
    IncludedAppView { name: a.name, process_name: a.process_name, kind: a.kind, seconds: app_seconds(a, basis) as u64 }
}

/// The applications with time in the report, in their order.
pub open spec fn apps_with_time(apps: Seq<AppView>, basis: TimeBasis) -> Seq<IncludedAppView>
    decreases apps.len(),
{
    if apps.len() == 0 {
        Seq::empty()
    } else if app_seconds(apps.last(), basis) > 0 {
        apps_with_time(apps.drop_last(), basis).push(app_row(apps.last(), basis))
    } else {
        apps_with_time(apps.drop_last(), basis)
    }
}

pub open spec fn more_app_time(x: IncludedAppView) -> spec_fn(IncludedAppView) -> bool {
    |e: IncludedAppView| e.seconds < x.seconds
}

/// The stable sort by time, the longest first.
pub open spec fn sort_apps_by_time(s: Seq<IncludedAppView>) -> Seq<IncludedAppView>
    decreases s.len(),
{
    if s.len() == 0 {
        s
    } else {
        let r = sort_apps_by_time(s.drop_last());
        r.insert(first_index(r, more_app_time(s.last())), s.last())
    }
}

/// The applications a report lists: those with time, the longest first.
pub open spec fn report_apps(apps: Seq<AppView>, basis: TimeBasis) -> Seq<IncludedAppView> {
    sort_apps_by_time(apps_with_time(apps, basis))
}

fn sort_app_rows(v: &mut Vec<IncludedApp>)
    ensures
        included_app_views(final(v)@) == sort_apps_by_time(included_app_views(old(v)@)),
{
    let ghost orig = included_app_views(v@);
    let mut sorted: Vec<IncludedApp> = Vec::new();
    let ghost mut j: int = 0;
    assert(orig.take(0) =~= Seq::<IncludedAppView>::empty());
    assert(orig.skip(0) =~= orig);
    assert(included_app_views(sorted@) =~= Seq::<IncludedAppView>::empty());
    while v.len() > 0
        invariant
            0 <= j <= orig.len(),
            v.len() == orig.len() - j,
            included_app_views(sorted@) == sort_apps_by_time(orig.take(j)),
            included_app_views(v@) == orig.skip(j),
        decreases v.len(),
    {
        let ghost rest = included_app_views(v@);
        let x = v.remove(0);
        proof {
            assert(x@ == rest[0]);
            assert(included_app_views(v@) =~= rest.drop_first());
            assert(orig.skip(j + 1) =~= orig.skip(j).drop_first());
            assert(orig.take(j + 1).drop_last() =~= orig.take(j));
        }
        let ghost sv = included_app_views(sorted@);
        let mut pos: usize = 0;
        while pos < sorted.len() && !(sorted[pos].seconds < x.seconds)
            invariant
                pos <= sorted.len(),
                sv == included_app_views(sorted@),
                forall|m: int| 0 <= m < pos ==> !more_app_time(x@)(#[trigger] sv[m]),
            decreases sorted.len() - pos,
        {
            pos = pos + 1;
        }
        proof {
            lemma_first_index(sv, more_app_time(x@), pos as int);
        }
        sorted.insert(pos, x);
        assert(included_app_views(sorted@) =~= sv.insert(pos as int, x@));
        proof {
            j = j + 1;
        }
    }
    assert(orig.take(j) =~= orig);
    *v = sorted;
}

/// The applications a report lists (see `report_apps`).
pub fn included_apps(project: &ProjectRecord, basis: TimeBasis) -> (res: Vec<IncludedApp>)
    requires
        report_fits(project@.apps, basis),
    ensures
        included_app_views(res@) == report_apps(project@.apps, basis),
{
    let ghost av = project@.apps;
    let mut out: Vec<IncludedApp> = Vec::new();
    let mut i: usize = 0;
    while i < project.apps.len()
        invariant
            i <= project.apps.len(),
            av == project@.apps,
            av.len() == project.apps.len(),
            report_fits(av, basis),
            included_app_views(out@) == apps_with_time(av.take(i as int), basis),
        decreases project.apps.len() - i,
    {
        let app = &project.apps[i];
        proof {
            assert(av[i as int] == app@);
            assert(av.take(i + 1).drop_last() =~= av.take(i as int));
        }
        let secs = included_app_seconds(app, basis);
        if secs > 0 {
            let ghost before = included_app_views(out@);
            out.push(IncludedApp {
                name: app.name.clone(),
                process_name: app.process_name.clone(),
                kind: app.kind.clone(),
                seconds: secs,
            });
            assert(included_app_views(out@) =~= before.push(app_row(av[i as int], basis)));
        }
        i = i + 1;
    }
    assert(av.take(i as int) =~= av);
    sort_app_rows(&mut out);
    out
}

pub open spec fn url_count_of(t: TabView) -> usize {
    if t.urls.len() == 0 {
        if t.url is Some { 1 } else { 0 }
    } else {
        t.urls.len() as usize
    }
}

pub open spec fn tab_row(a: AppView, t: TabView, basis: TimeBasis) -> IncludedTabView {
    IncludedTabView {
        browser: a.name,
        title: t.title,
        url: t.url,
        url_count: url_count_of(t),
        seconds: tab_seconds(t, basis) as u64,
    }
}

/// The included sites of one application with time in the report, in their order.
pub open spec fn tabs_with_time(a: AppView, tabs: Seq<TabView>, basis: TimeBasis) -> Seq<IncludedTabView>
    decreases tabs.len(),
{
    if tabs.len() == 0 {
        Seq::empty()
    } else if tabs.last().enabled && tab_seconds(tabs.last(), basis) > 0 {
        tabs_with_time(a, tabs.drop_last(), basis).push(tab_row(a, tabs.last(), basis))
    } else {
        tabs_with_time(a, tabs.drop_last(), basis)
    }
}

/// The sites with time of all included applications, application by application.
pub open spec fn all_tabs_with_time(apps: Seq<AppView>, basis: TimeBasis) -> Seq<IncludedTabView>
    decreases apps.len(),
{
    if apps.len() == 0 {
        Seq::empty()
    } else if apps.last().enabled {
        all_tabs_with_time(apps.drop_last(), basis) + tabs_with_time(apps.last(), apps.last().tabs, basis)
    } else {
        all_tabs_with_time(apps.drop_last(), basis)
    }
}

pub open spec fn more_tab_time(x: IncludedTabView) -> spec_fn(IncludedTabView) -> bool {
    |e: IncludedTabView| e.seconds < x.seconds
}

/// The stable sort by time, the longest first.
pub open spec fn sort_tabs_by_time(s: Seq<IncludedTabView>) -> Seq<IncludedTabView>
    decreases s.len(),
{
    if s.len() == 0 {
        s
    } else {
        let r = sort_tabs_by_time(s.drop_last());
        r.insert(first_index(r, more_tab_time(s.last())), s.last())
    }
}

/// The sites a report lists: the included sites with time of the included applications,
/// the longest first.
pub open spec fn report_tabs(apps: Seq<AppView>, basis: TimeBasis) -> Seq<IncludedTabView> {
    sort_tabs_by_time(all_tabs_with_time(apps, basis))
}

fn sort_tab_rows(v: &mut Vec<IncludedTab>)
    ensures
        included_tab_views(final(v)@) == sort_tabs_by_time(included_tab_views(old(v)@)),
{
    let ghost orig = included_tab_views(v@);
    let mut sorted: Vec<IncludedTab> = Vec::new();
    let ghost mut j: int = 0;
    assert(orig.take(0) =~= Seq::<IncludedTabView>::empty());
    assert(orig.skip(0) =~= orig);
    assert(included_tab_views(sorted@) =~= Seq::<IncludedTabView>::empty());
    while v.len() > 0
        invariant
            0 <= j <= orig.len(),
            v.len() == orig.len() - j,
            included_tab_views(sorted@) == sort_tabs_by_time(orig.take(j)),
            included_tab_views(v@) == orig.skip(j),
        decreases v.len(),
    {
        let ghost rest = included_tab_views(v@);
        let x = v.remove(0);
        proof {
            assert(x@ == rest[0]);
            assert(included_tab_views(v@) =~= rest.drop_first());
            assert(orig.skip(j + 1) =~= orig.skip(j).drop_first());
            assert(orig.take(j + 1).drop_last() =~= orig.take(j));
        }
        let ghost sv = included_tab_views(sorted@);
        let mut pos: usize = 0;
        while pos < sorted.len() && !(sorted[pos].seconds < x.seconds)
            invariant
                pos <= sorted.len(),
                sv == included_tab_views(sorted@),
                forall|m: int| 0 <= m < pos ==> !more_tab_time(x@)(#[trigger] sv[m]),
            decreases sorted.len() - pos,
        {
            pos = pos + 1;
        }
        proof {
            lemma_first_index(sv, more_tab_time(x@), pos as int);
        }
        sorted.insert(pos, x);
        assert(included_tab_views(sorted@) =~= sv.insert(pos as int, x@));
        proof {
            j = j + 1;
        }
    }
    assert(orig.take(j) =~= orig);
    *v = sorted;
}

/// The sites a report lists (see `report_tabs`).
pub fn included_tabs(project: &ProjectRecord, basis: TimeBasis) -> (res: Vec<IncludedTab>)
    requires
        report_fits(project@.apps, basis),
    ensures
        included_tab_views(res@) == report_tabs(project@.apps, basis),
{
    let ghost av = project@.apps;
    let mut out: Vec<IncludedTab> = Vec::new();
    let mut i: usize = 0;
    while i < project.apps.len()
        invariant
            i <= project.apps.len(),
            av == project@.apps,
            av.len() == project.apps.len(),
            report_fits(av, basis),
            included_tab_views(out@) == all_tabs_with_time(av.take(i as int), basis),
        decreases project.apps.len() - i,
    {
        let app = &project.apps[i];
        proof {
            assert(av[i as int] == app@);
            assert(av.take(i + 1).drop_last() =~= av.take(i as int));
        }
        if app.enabled {
            let ghost start = included_tab_views(out@);
            let ghost ts = app@.tabs;
            let mut k: usize = 0;
            while k < app.tabs.len()
                invariant
                    k <= app.tabs.len(),
                    app@.enabled,
                    ts == app@.tabs,
                    ts.len() == app.tabs.len(),
                    forall|m: int| 0 <= m < ts.len() ==> tab_seconds(#[trigger] ts[m], basis) <= u64::MAX,
                    included_tab_views(out@) == start + tabs_with_time(app@, ts.take(k as int), basis),
                decreases app.tabs.len() - k,
            {
                let tab = &app.tabs[k];
                proof {
                    assert(ts[k as int] == tab@);
                    assert(ts.take(k + 1).drop_last() =~= ts.take(k as int));
                }
                let secs = included_tab_seconds(tab, basis);
                if tab.enabled && secs > 0 {
                    let ghost before = included_tab_views(out@);
                    let count = if tab.urls.len() == 0 {
                        if tab.url.is_some() { 1 } else { 0 }
                    } else {
                        tab.urls.len()
                    };
                    out.push(IncludedTab {
                        browser: app.name.clone(),
                        title: tab.title.clone(),
                        url: clone_opt(&tab.url),
                        url_count: count,
                        seconds: secs,
                    });
                    assert(included_tab_views(out@) =~= before.push(tab_row(app@, ts[k as int], basis)));
                }
                k = k + 1;
            }
            assert(ts.take(k as int) =~= ts);
        }
        i = i + 1;
    }
    assert(av.take(i as int) =~= av);
    sort_tab_rows(&mut out);
    out
}

// ---------------------------------------------------------------- the total

/// The time of the listed applications.
pub open spec fn rows_total(s: Seq<IncludedAppView>) -> int
    decreases s.len(),
{
    if s.len() == 0 {
        0
    } else {
        rows_total(s.drop_last()) + s.last().seconds
    }
}

proof fn lemma_rows_total_concat(a: Seq<IncludedAppView>, b: Seq<IncludedAppView>)
    ensures
        rows_total(a + b) == rows_total(a) + rows_total(b),
    decreases b.len(),
{
    if b.len() == 0 {
        assert(a + b =~= a);
    } else {
        lemma_rows_total_concat(a, b.drop_last());
        assert((a + b).drop_last() =~= a + b.drop_last());
    }
}

proof fn lemma_rows_total_sorted(s: Seq<IncludedAppView>)
    ensures
        rows_total(sort_apps_by_time(s)) == rows_total(s),
    decreases s.len(),
{
    if s.len() > 0 {
        let r = sort_apps_by_time(s.drop_last());
        lemma_rows_total_sorted(s.drop_last());
        lemma_first_index_bounds(r, more_app_time(s.last()));
        let p = first_index(r, more_app_time(s.last()));
        assert(r.insert(p, s.last()) =~= r.take(p) + seq![s.last()] + r.skip(p));
        assert(r =~= r.take(p) + r.skip(p));
        lemma_rows_total_concat(r.take(p) + seq![s.last()], r.skip(p));
        lemma_rows_total_concat(r.take(p), seq![s.last()]);
        lemma_rows_total_concat(r.take(p), r.skip(p));
        assert(seq![s.last()].drop_last() =~= Seq::<IncludedAppView>::empty());
        assert(rows_total(seq![s.last()]) == s.last().seconds) by {
            reveal_with_fuel(rows_total, 2);
        }
        assert(sort_apps_by_time(s) == r.insert(p, s.last()));
        assert(rows_total(s) == rows_total(s.drop_last()) + s.last().seconds);
    }
}

proof fn lemma_rows_total_listed(apps: Seq<AppView>, basis: TimeBasis)
    requires
        forall|i: int| 0 <= i < apps.len() && (#[trigger] apps[i]).enabled ==> app_seconds(apps[i], basis) <= u64::MAX,
    ensures
        rows_total(apps_with_time(apps, basis)) == apps_total(apps, basis),
    decreases apps.len(),
{
    if apps.len() > 0 {
        let t = apps.drop_last();
        assert forall|i: int| 0 <= i < t.len() && (#[trigger] t[i]).enabled implies app_seconds(t[i], basis) <= u64::MAX by {
            assert(t[i] == apps[i]);
        }
        lemma_rows_total_listed(t, basis);
        let a = apps.last();
        assert(apps[apps.len() - 1] == a);
        assert(a.enabled ==> app_seconds(a, basis) <= u64::MAX);
        lemma_tabs_total_bounds(a.tabs, basis);
        assert(app_seconds(a, basis) >= 0);
        if app_seconds(a, basis) > 0 {
            assert(apps_with_time(apps, basis) == apps_with_time(t, basis).push(app_row(a, basis)));
            assert(app_row(a, basis).seconds == app_seconds(a, basis));
            assert(apps_with_time(apps, basis).drop_last() =~= apps_with_time(t, basis));
        } else {
            assert(apps_with_time(apps, basis) == apps_with_time(t, basis));
        }
        assert(apps_total(apps, basis) == apps_total(t, basis) + app_seconds(a, basis));
    }
}

/// The time of the applications a report lists is the time of all the project's
/// applications as the report counts it.
pub proof fn law_listed_total(apps: Seq<AppView>, basis: TimeBasis)
    requires
        report_fits(apps, basis),
    ensures
        rows_total(report_apps(apps, basis)) == apps_total(apps, basis),
{
    lemma_rows_total_listed(apps, basis);
    lemma_rows_total_sorted(apps_with_time(apps, basis));
}

/// The time of the listed applications (`sum` of their seconds).
pub fn included_total(apps: &Vec<IncludedApp>) -> (res: u64)
    requires
        rows_total(included_app_views(apps@)) <= u64::MAX,
    ensures
        res == rows_total(included_app_views(apps@)),
{
    let ghost s = included_app_views(apps@);
    let mut total: u64 = 0;
    let mut k: usize = 0;
    while k < apps.len()
        invariant
            k <= apps.len(),
            s == included_app_views(apps@),
            rows_total(s) <= u64::MAX,
            total == rows_total(s.take(k as int)),
        decreases apps.len() - k,
    {
        proof {
            assert(s.take(k + 1).drop_last() =~= s.take(k as int));
            lemma_rows_prefix(s, k as int + 1);
        }
        assert(s[k as int] == apps@[k as int]@);
        total = total + apps[k].seconds;
        k = k + 1;
    }
    assert(s.take(k as int) =~= s);
    total
}

proof fn lemma_rows_prefix(s: Seq<IncludedAppView>, n: int)
    requires
        0 <= n <= s.len(),
    ensures
        0 <= rows_total(s.take(n)) <= rows_total(s),
    decreases s.len(),
{
    lemma_rows_nonneg(s.take(n));
    if n < s.len() {
        assert(s.drop_last().take(n) =~= s.take(n));
        lemma_rows_prefix(s.drop_last(), n);
    } else {
        assert(s.take(n) =~= s);
    }
}

proof fn lemma_rows_nonneg(s: Seq<IncludedAppView>)
    ensures
        rows_total(s) >= 0,
    decreases s.len(),
{
    if s.len() > 0 {
        lemma_rows_nonneg(s.drop_last());
    }
}

// ---------------------------------------------------------------- laws

proof fn lemma_links_excluded(urls: Seq<UrlView>, k: int)
    requires
        0 <= k < urls.len(),
    ensures
        links_total(urls.update(k, UrlView { enabled: false, ..urls[k] })) == links_total(urls) - (if urls[k].enabled {
            urls[k].time_seconds as int
        } else {
            0
        }),
    decreases urls.len(),
{
    let v = urls.update(k, UrlView { enabled: false, ..urls[k] });
    if k < urls.len() - 1 {
        lemma_links_excluded(urls.drop_last(), k);
        assert(v.drop_last() =~= urls.drop_last().update(k, UrlView { enabled: false, ..urls[k] }));
        assert(v.last() == urls.last());
    } else {
        assert(v.drop_last() =~= urls.drop_last());
    }
}

proof fn lemma_tabs_excluded(tabs: Seq<TabView>, k: int, basis: TimeBasis)
    requires
        0 <= k < tabs.len(),
    ensures
        tabs_total(tabs.update(k, TabView { enabled: false, ..tabs[k] }), basis) == tabs_total(tabs, basis) - (
        if tabs[k].enabled {
            tab_seconds(tabs[k], basis)
        } else {
            0
        }),
    decreases tabs.len(),
{
    let v = tabs.update(k, TabView { enabled: false, ..tabs[k] });
    if k < tabs.len() - 1 {
        lemma_tabs_excluded(tabs.drop_last(), k, basis);
        assert(v.drop_last() =~= tabs.drop_last().update(k, TabView { enabled: false, ..tabs[k] }));
        assert(v.last() == tabs.last());
    } else {
        assert(v.drop_last() =~= tabs.drop_last());
    }
}

/// Excluded parts count for nothing, and excluding takes nothing else away: an excluded
/// application has no time in a report; excluding a site takes exactly its time out of
/// its browser's total, and excluding a link exactly its time out of its site's.
pub proof fn law_excluded_not_counted(a: AppView, tabs: Seq<TabView>, t: int, urls: Seq<UrlView>, u: int, basis: TimeBasis)
    requires
        0 <= t < tabs.len(),
        0 <= u < urls.len(),
    ensures
        app_seconds(AppView { enabled: false, ..a }, basis) == 0,
        tabs_total(tabs.update(t, TabView { enabled: false, ..tabs[t] }), basis) == tabs_total(tabs, basis) - (
        if tabs[t].enabled {
            tab_seconds(tabs[t], basis)
        } else {
            0
        }),
        links_total(urls.update(u, UrlView { enabled: false, ..urls[u] })) == links_total(urls) - (if urls[u].enabled {
            urls[u].time_seconds as int
        } else {
            0
        }),
{
    lemma_tabs_excluded(tabs, t, basis);
    lemma_links_excluded(urls, u);
}

/// Whether no application row has less time than a later one.
pub open spec fn apps_longest_first(s: Seq<IncludedAppView>) -> bool {
    forall|i: int, j: int| #![trigger s[i], s[j]] 0 <= i < j < s.len() ==> s[j].seconds <= s[i].seconds
}

/// Whether no site row has less time than a later one.
pub open spec fn tabs_longest_first(s: Seq<IncludedTabView>) -> bool {
    forall|i: int, j: int| #![trigger s[i], s[j]] 0 <= i < j < s.len() ==> s[j].seconds <= s[i].seconds
}

proof fn lemma_sort_apps_ordered(s: Seq<IncludedAppView>)
    ensures
        apps_longest_first(sort_apps_by_time(s)),
    decreases s.len(),
{
    if s.len() > 0 {
        let x = s.last();
        lemma_sort_apps_ordered(s.drop_last());
        let r = sort_apps_by_time(s.drop_last());
        lemma_first_index_bounds(r, more_app_time(x));
        let p = first_index(r, more_app_time(x));
        let q = r.insert(p, x);
        assert forall|i: int, j: int| #![trigger q[i], q[j]] 0 <= i < j < q.len() implies q[j].seconds <= q[i].seconds by {
            if j < p {
                assert(q[i] == r[i] && q[j] == r[j]);
            } else if j == p {
                assert(q[i] == r[i]);
                assert(!more_app_time(x)(r[i]));
            } else if i < p {
                assert(q[i] == r[i] && q[j] == r[j - 1]);
                if i < j - 1 {
                    assert(r[j - 1].seconds <= r[i].seconds);
                }
            } else if i == p {
                assert(q[j] == r[j - 1]);
                assert(more_app_time(x)(r[p]));
                if p < j - 1 {
                    assert(r[j - 1].seconds <= r[p].seconds);
                }
            } else {
                assert(q[i] == r[i - 1] && q[j] == r[j - 1]);
                assert(r[j - 1].seconds <= r[i - 1].seconds);
            }
        }
    }
}

proof fn lemma_sort_tabs_ordered(s: Seq<IncludedTabView>)
    ensures
        tabs_longest_first(sort_tabs_by_time(s)),
    decreases s.len(),
{
    if s.len() > 0 {
        let x = s.last();
        lemma_sort_tabs_ordered(s.drop_last());
        let r = sort_tabs_by_time(s.drop_last());
        lemma_first_index_bounds(r, more_tab_time(x));
        let p = first_index(r, more_tab_time(x));
        let q = r.insert(p, x);
        assert forall|i: int, j: int| #![trigger q[i], q[j]] 0 <= i < j < q.len() implies q[j].seconds <= q[i].seconds by {
            if j < p {
                assert(q[i] == r[i] && q[j] == r[j]);
            } else if j == p {
                assert(q[i] == r[i]);
                assert(!more_tab_time(x)(r[i]));
            } else if i < p {
                assert(q[i] == r[i] && q[j] == r[j - 1]);
                if i < j - 1 {
                    assert(r[j - 1].seconds <= r[i].seconds);
                }
            } else if i == p {
                assert(q[j] == r[j - 1]);
                assert(more_tab_time(x)(r[p]));
                if p < j - 1 {
                    assert(r[j - 1].seconds <= r[p].seconds);
                }
            } else {
                assert(q[i] == r[i - 1] && q[j] == r[j - 1]);
                assert(r[j - 1].seconds <= r[i - 1].seconds);
            }
        }
    }
}

/// A report lists its applications and its sites the longest first.
pub proof fn law_report_longest_first(apps: Seq<AppView>, basis: TimeBasis)
    ensures
        apps_longest_first(report_apps(apps, basis)),
        tabs_longest_first(report_tabs(apps, basis)),
{
    lemma_sort_apps_ordered(apps_with_time(apps, basis));
    lemma_sort_tabs_ordered(all_tabs_with_time(apps, basis));
}

} // verus!
