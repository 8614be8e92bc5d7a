//! Recording what the tracker observes: each sample adds time to the foreground
//! application and, for a browser, to the site and the link that is open.
use vstd::prelude::*;
use crate::models::{
    app_views, clone_opt, opt_view, tab_views, url_views, AppUsageRecord, AppView,
    ObservationView, ProjectRecord, ProjectView, TabUsageRecord, TabView, UrlView,
    VisitedUrlRecord, WindowObservation,
};
use crate::names::{domain_of, extract_domain, friendly_app_name, friendly_name, is_own_app, is_own_app_process, opt_str_view};
use crate::seqs::{first_index, lemma_first_index, lemma_first_index_bounds};
use crate::text::{blank, chars_of, is_blank, lowercase, owned, string_of, to_lowercase, trim, trim_str};

verus! {

/// `a + b`, or `u64::MAX` when that overflows.
pub open spec fn sat_add(a: u64, b: u64) -> u64 {
    if a + b > u64::MAX {
        u64::MAX
    } else {
        (a + b) as u64
    }
}

/// The current time as an RFC 3339 string (`chrono::Utc::now().to_rfc3339()`).
/// Nothing is promised of the value: it is the clock's.
#[verifier::external_body]
pub fn now_iso() -> String {
    chrono::Utc::now().to_rfc3339()
}

pub fn opt_as_str(o: &Option<String>) -> (res: Option<&str>)
    ensures
        opt_str_view(res) == opt_view(*o),
{
    match o {
        Some(s) => Some(s.as_str()),
        None => None,
    }
}

// ---------------------------------------------------------------- applications

/// `browser` for a browser window, `app` otherwise.
pub open spec fn kind_for(o: ObservationView) -> Seq<char> {
    if o.browser_name is Some {
        "browser"@
    } else {
        "app"@
    }
}

pub open spec fn app_is_key(key: Seq<char>) -> spec_fn(AppView) -> bool {
    |a: AppView| a.key == key
}

/// Where the application with this key stands (`apps.len()` when there is none).
pub open spec fn app_index_of(apps: Seq<AppView>, key: Seq<char>) -> int {
    first_index(apps, app_is_key(key))
}

/// The record of an application seen for the first time: keyed by its process name,
/// included unless it is this tracker itself, with no time yet.
pub open spec fn new_app(o: ObservationView) -> AppView {
    AppView {
        key: o.process_name,
        name: friendly_name(o.process_name, o.browser_name),
        process_name: o.process_name,
        process_path: o.process_path,
        icon_data_url: o.icon_data_url,
        kind: kind_for(o),
        enabled: !is_own_app(o.process_name),
        time_seconds: 0,
        tabs: Seq::empty(),
    }
}

/// An application after one sample: `seconds` more (saturating), the observed path
/// when there is one, an icon when it had none, and its name and kind refreshed.
pub open spec fn touched_app(a: AppView, o: ObservationView, seconds: u64) -> AppView {
    AppView {
        time_seconds: sat_add(a.time_seconds, seconds),
        process_path: if o.process_path.len() > 0 { o.process_path } else { a.process_path },
        icon_data_url: if a.icon_data_url is None { o.icon_data_url } else { a.icon_data_url },
        name: friendly_name(o.process_name, o.browser_name),
        kind: kind_for(o),
        ..a
    }
}

/// The applications after one sample of the process in `o`.
pub open spec fn apps_touched(apps: Seq<AppView>, o: ObservationView, seconds: u64) -> Seq<AppView> {
    let i = app_index_of(apps, o.process_name);
    let with = if i < apps.len() { apps } else { apps.push(new_app(o)) };
    with.update(i, touched_app(with[i], o, seconds))
}

fn find_app(apps: &Vec<AppUsageRecord>, key: &String) -> (i: usize)
    ensures
        i == app_index_of(app_views(apps@), key@),
{
    let ghost s = app_views(apps@);
    let mut k: usize = 0;
    while k < apps.len()
        invariant
            k <= apps.len(),
            s == app_views(apps@),
            forall|m: int| 0 <= m < k ==> !app_is_key(key@)(#[trigger] s[m]),
        decreases apps.len() - k,
    {
        if apps[k].key == *key {
            proof {
                lemma_first_index(s, app_is_key(key@), k as int);
            }
            return k;
        }
        k = k + 1;
    }
    proof {
        lemma_first_index(s, app_is_key(key@), k as int);
    }
    k
}

fn kind_string(o: &WindowObservation) -> (res: String)
    ensures
        res@ == kind_for(o@),
{
    if o.browser_name.is_some() {
        owned("browser")
    } else {
        owned("app")
    }
}

/// Adds `seconds` to the application of the observed process, creating its record when
/// it is new; returns where that application stands.
pub fn touch_app_time(project: &mut ProjectRecord, observation: &WindowObservation, seconds: u64) -> (index: usize)
    ensures
        final(project)@ == (ProjectView {
            apps: apps_touched(old(project)@.apps, observation@, seconds),
            ..old(project)@
        }),
        index == app_index_of(old(project)@.apps, observation@.process_name),
        index < final(project).apps.len(),
{
    let app_name = friendly_app_name(
        observation.process_name.as_str(),
        observation.process_path.as_str(),
        opt_as_str(&observation.browser_name),
    );
    let kind = kind_string(observation);
    let ghost apps0 = old(project)@.apps;
    proof {
        lemma_first_index_bounds(apps0, app_is_key(observation@.process_name));
    }
    let index = find_app(&project.apps, &observation.process_name);
    if index == project.apps.len() {
        project.apps.push(AppUsageRecord {
            key: observation.process_name.clone(),
            name: app_name,
            process_name: observation.process_name.clone(),
            process_path: observation.process_path.clone(),
            icon_data_url: clone_opt(&observation.icon_data_url),
            kind: kind,
            enabled: !is_own_app_process(observation.process_name.as_str()),
            time_seconds: 0,
            tabs: Vec::new(),
        });
        assert(tab_views(project.apps@[index as int].tabs@) =~= Seq::<TabView>::empty());
        assert(app_views(project.apps@) =~= apps0.push(new_app(observation@)));
    }
    let ghost with = app_views(project.apps@);
    let name = friendly_app_name(
        observation.process_name.as_str(),
        observation.process_path.as_str(),
        opt_as_str(&observation.browser_name),
    );
    let kind2 = kind_string(observation);
    let app = &mut project.apps[index];
    app.time_seconds = app.time_seconds.saturating_add(seconds);
    if !observation.process_path.as_str().is_empty() && (app.process_path.as_str().is_empty()
        || app.process_path != observation.process_path) {
        app.process_path = observation.process_path.clone();
    }
    if app.icon_data_url.is_none() {
        app.icon_data_url = clone_opt(&observation.icon_data_url);
    }
    app.name = name;
    app.kind = kind2;
    assert(app_views(project.apps@) =~= apps_touched(apps0, observation@, seconds));
    index
}

// ---------------------------------------------------------------- tabs and links

/// The tab's title as observed: the browser's tab title, else the window title.
pub open spec fn observed_title(o: ObservationView) -> Seq<char> {
    match o.tab_title {
        Some(t) => t,
        None => o.window_title,
    }
}

/// What a site is recorded under: the link's domain when it has a non-blank one,
/// else the trimmed title.
pub open spec fn observed_domain(o: ObservationView) -> Seq<char> {
    match o.url {
        Some(u) => match domain_of(u) {
            Some(d) => if !is_blank(d) { d } else { trim(observed_title(o)) },
            None => trim(observed_title(o)),
        },
        None => trim(observed_title(o)),
    }
}

/// The key of a site: its lower-cased domain, `::`, and the browser's name.
pub open spec fn site_key(lowered_domain: Seq<char>, o: ObservationView) -> Seq<char> {
    lowered_domain + "::"@ + match o.browser_name {
        Some(b) => b,
        None => Seq::empty(),
    }
}

pub open spec fn tab_is_key(key: Seq<char>) -> spec_fn(TabView) -> bool {
    |t: TabView| t.key == key
}

pub open spec fn url_is_addr(url: Seq<char>) -> spec_fn(UrlView) -> bool {
    |u: UrlView| u.url == url
}

/// The links of a tab after the link `url` was seen once at `now`: a known link gets a
/// hit and a second more and takes the (trimmed, non-empty) title; a new one is added
/// with one hit and one second, titled by the title or else its address.
pub open spec fn visited(urls: Seq<UrlView>, url: Seq<char>, title: Seq<char>, now: Seq<char>) -> Seq<UrlView> {
    let clean = trim(title);
    let i = first_index(urls, url_is_addr(url));
    if i < urls.len() {
        urls.update(
            i,
            UrlView {
                hits: sat_add(urls[i].hits, 1),
                last_seen_at: now,
                time_seconds: sat_add(urls[i].time_seconds, 1),
                title: if clean.len() > 0 { clean } else { urls[i].title },
                ..urls[i]
            },
        )
    } else {
        urls.push(
            UrlView {
                url: url,
                title: if clean.len() == 0 { url } else { clean },
                last_seen_at: now,
                hits: 1,
                enabled: true,
                time_seconds: 1,
            },
        )
    }
}

/// The record of a site seen for the first time.
pub open spec fn new_tab(o: ObservationView) -> TabView {
    TabView {
        key: site_key(lowercase(observed_domain(o)), o),
        title: observed_domain(o),
        url: o.url,
        urls: Seq::empty(),
        favicon_url: o.favicon_url,
        enabled: true,
        time_seconds: 0,
    }
}

/// A site after one sample: `seconds` more (saturating), titled by the domain when that
/// is not blank, a link and icon when it had none, and the open link visited.
pub open spec fn touched_tab(t: TabView, o: ObservationView, seconds: u64, now: Seq<char>) -> TabView {
    let d = observed_domain(o);
    let t1 = TabView {
        time_seconds: sat_add(t.time_seconds, seconds),
        title: if !is_blank(d) && t.title != d { d } else { t.title },
        url: if t.url is None { o.url } else { t.url },
        favicon_url: if t.favicon_url is None { o.favicon_url } else { t.favicon_url },
        ..t
    };
    match o.url {
        Some(u) => if !is_blank(u) {
            TabView { urls: visited(t1.urls, u, observed_title(o), now), ..t1 }
        } else {
            t1
        },
        None => t1,
    }
}

/// The sites of a browser after one sample.
pub open spec fn tabs_touched(tabs: Seq<TabView>, o: ObservationView, seconds: u64, now: Seq<char>) -> Seq<TabView> {
    let key = site_key(lowercase(observed_domain(o)), o);
    let i = first_index(tabs, tab_is_key(key));
    let with = if i < tabs.len() { tabs } else { tabs.push(new_tab(o)) };
    with.update(i, touched_tab(with[i], o, seconds, now))
}

/// The applications after one sample of a browser site, for the application at `index`
/// (nothing changes when there is none).
pub open spec fn apps_tab_touched(
    apps: Seq<AppView>,
    index: int,
    o: ObservationView,
    seconds: u64,
    now: Seq<char>,
) -> Seq<AppView> {
    if 0 <= index < apps.len() {
        apps.update(index, AppView { tabs: tabs_touched(apps[index].tabs, o, seconds, now), ..apps[index] })
    } else {
        apps
    }
}

/// Records one visit of the link `url` at `now` (see `visited`).
pub fn touch_url_history(tab: &mut TabUsageRecord, url: &str, title: &str, now: &str)
    ensures
        final(tab)@ == (TabView { urls: visited(old(tab)@.urls, url@, title@, now@), ..old(tab)@ }),
{
    let clean = trim_str(title);
    let ghost urls0 = old(tab)@.urls;
    let ghost p = url_is_addr(url@);
    let mut k: usize = 0;
    while k < tab.urls.len()
        invariant
            k <= tab.urls.len(),
            tab@ == old(tab)@,
            urls0 == url_views(tab.urls@),
            urls0.len() == tab.urls.len(),
            clean@ == trim(title@),
            p == url_is_addr(url@),
            forall|m: int| 0 <= m < k ==> !p(#[trigger] urls0[m]),
        decreases tab.urls.len() - k,
    {
        let same = crate::text::str_eq(tab.urls[k].url.as_str(), url);
        assert(urls0[k as int] == tab.urls@[k as int]@);
        if same {
            proof {
                lemma_first_index(urls0, p, k as int);
            }
            let ghost e0 = urls0[k as int];
            assert(e0 == tab.urls@[k as int]@);
            let stamp = owned(now);
            let has_title = clean.as_str().unicode_len() > 0;
            let entry = &mut tab.urls[k];
            entry.hits = entry.hits.saturating_add(1);
            entry.last_seen_at = stamp;
            entry.time_seconds = entry.time_seconds.saturating_add(1);
            if has_title {
                entry.title = clean;
            }
            proof {
                let expected = visited(urls0, url@, title@, now@);
                assert(tab.urls@.len() == urls0.len());
                assert(tab.urls@[k as int]@ == expected[k as int]);
                assert forall|m: int| 0 <= m < urls0.len() && m != k implies #[trigger] url_views(tab.urls@)[m] == expected[m] by {}
            }
            assert(url_views(tab.urls@) =~= visited(urls0, url@, title@, now@));
            return;
        }
        k = k + 1;
    }
    proof {
        lemma_first_index(urls0, p, k as int);
    }
    let empty = clean.as_str().unicode_len() == 0;
    tab.urls.push(VisitedUrlRecord {
        url: owned(url),
        title: if empty { owned(url) } else { clean },
        last_seen_at: owned(now),
        hits: 1,
        enabled: true,
        time_seconds: 1,
    });
    assert(url_views(tab.urls@) =~= visited(urls0, url@, title@, now@));
}

fn observed_title_exec(o: &WindowObservation) -> (res: String)
    ensures
        res@ == observed_title(o@),
{
    match &o.tab_title {
        Some(t) => t.clone(),
        None => o.window_title.clone(),
    }
}

fn observed_domain_exec(o: &WindowObservation, title: &String) -> (res: String)
    requires
        title@ == observed_title(o@),
    ensures
        res@ == observed_domain(o@),
{
    match &o.url {
        Some(u) => match extract_domain(u.as_str()) {
            Some(d) => if !blank(d.as_str()) { d } else { trim_str(title.as_str()) },
            None => trim_str(title.as_str()),
        },
        None => trim_str(title.as_str()),
    }
}

fn site_key_exec(lowered: &String, o: &WindowObservation) -> (res: String)
    ensures
        res@ == site_key(lowered@, o@),
{
    let mut v = chars_of(lowered.as_str());
    let sep = chars_of("::");
    v.extend_from_slice(sep.as_slice());
    match &o.browser_name {
        Some(b) => {
            let bv = chars_of(b.as_str());
            v.extend_from_slice(bv.as_slice());
        },
        None => {},
    }
    let res = string_of(v.as_slice());
    assert(res@ =~= site_key(lowered@, o@));
    res
}

fn touch_site(app: &mut AppUsageRecord, observation: &WindowObservation, seconds: u64, now: &str)
    ensures
        final(app)@ == (AppView { tabs: tabs_touched(old(app)@.tabs, observation@, seconds, now@), ..old(app)@ }),
{
    let title = observed_title_exec(observation);
    let domain = observed_domain_exec(observation, &title);
    let lowered = to_lowercase(domain.as_str());
    let tab_key = site_key_exec(&lowered, observation);
    let ghost tabs0 = old(app)@.tabs;
    let ghost p = tab_is_key(tab_key@);
    proof {
        lemma_first_index_bounds(tabs0, p);
    }
    let mut index: usize = 0;
    while index < app.tabs.len() && app.tabs[index].key != tab_key
        invariant
            index <= app.tabs.len(),
            app@ == old(app)@,
            tabs0 == tab_views(app.tabs@),
            tabs0.len() == app.tabs.len(),
            p == tab_is_key(tab_key@),
            forall|m: int| 0 <= m < index ==> !p(#[trigger] tabs0[m]),
        decreases app.tabs.len() - index,
    {
        assert(tabs0[index as int] == app.tabs@[index as int]@);
        index = index + 1;
    }
    proof {
        if index < app.tabs.len() {
            assert(tabs0[index as int] == app.tabs@[index as int]@);
        }
        lemma_first_index(tabs0, p, index as int);
    }
    if index == app.tabs.len() {
        app.tabs.push(TabUsageRecord {
            key: tab_key,
            title: domain.clone(),
            url: clone_opt(&observation.url),
            urls: Vec::new(),
            favicon_url: clone_opt(&observation.favicon_url),
            enabled: true,
            time_seconds: 0,
        });
        assert(url_views(app.tabs@[index as int].urls@) =~= Seq::<UrlView>::empty());
        assert(tab_views(app.tabs@) =~= tabs0.push(new_tab(observation@)));
    }
    let ghost with = tab_views(app.tabs@);
    let tab = &mut app.tabs[index];
    tab.time_seconds = tab.time_seconds.saturating_add(seconds);
    if !blank(domain.as_str()) && tab.title != domain {
        tab.title = domain;
    }
    if tab.url.is_none() {
        tab.url = clone_opt(&observation.url);
    }
    if tab.favicon_url.is_none() {
        tab.favicon_url = clone_opt(&observation.favicon_url);
    }
    match &observation.url {
        Some(u) => {
            if !blank(u.as_str()) {
                touch_url_history(tab, u.as_str(), title.as_str(), now);
            }
        },
        None => {},
    }
    assert(tab_views(app.tabs@) =~= tabs_touched(tabs0, observation@, seconds, now@));
}

/// Adds `seconds` to the site open in the browser at `app_index`, creating the site's
/// record when it is new, and records the open link as visited at `now`.
pub fn touch_tab_time_at(
    project: &mut ProjectRecord,
    app_index: usize,
    observation: &WindowObservation,
    seconds: u64,
    now: &str,
)
    ensures
        final(project)@ == (ProjectView {
            apps: apps_tab_touched(old(project)@.apps, app_index as int, observation@, seconds, now@),
            ..old(project)@
        }),
{
    if app_index >= project.apps.len() {
        return;
    }
    let ghost apps0 = old(project)@.apps;
    touch_site(&mut project.apps[app_index], observation, seconds, now);
    assert(app_views(project.apps@) =~= apps_tab_touched(apps0, app_index as int, observation@, seconds, now@));
}

/// Adds `seconds` to the site open in the browser at `app_index` (see `touch_tab_time_at`);
/// the link's time of visit is the clock's.
pub fn touch_tab_time(project: &mut ProjectRecord, app_index: usize, observation: &WindowObservation, seconds: u64)
    ensures
        exists|now: Seq<char>|
            final(project)@ == (ProjectView {
                apps: #[trigger] apps_tab_touched(old(project)@.apps, app_index as int, observation@, seconds, now),
                ..old(project)@
            }),
{
    let now = now_iso();
    touch_tab_time_at(project, app_index, observation, seconds, now.as_str());
}

// ---------------------------------------------------------------- laws

/// Whether no two applications have the same key.
pub open spec fn unique_app_keys(apps: Seq<AppView>) -> bool {
    forall|i: int, j: int| #![trigger apps[i], apps[j]] 0 <= i < j < apps.len() ==> apps[i].key != apps[j].key
}

/// Sampling a window records its time under its process, once: the applications keep
/// unique keys, the one of the sampled process (new, with no time, when it was not
/// there) gains `seconds` up to `u64::MAX`, and every other application is unchanged.
pub proof fn law_sample_adds_time_once(apps: Seq<AppView>, o: ObservationView, seconds: u64)
    requires
        unique_app_keys(apps),
    ensures
        ({
            let key = o.process_name;
            let i = app_index_of(apps, key);
            let r = apps_touched(apps, o, seconds);
            &&& unique_app_keys(r)
            &&& r.len() == if i < apps.len() { apps.len() } else { apps.len() + 1 }
            &&& app_index_of(r, key) == i
            &&& r[i].key == key
            &&& r[i].time_seconds == sat_add(if i < apps.len() { apps[i].time_seconds } else { 0 }, seconds)
            &&& forall|k: int| 0 <= k < apps.len() && k != i ==> #[trigger] r[k] == apps[k]
        }),
{
    let key = o.process_name;
    lemma_first_index_bounds(apps, app_is_key(key));
    let i = app_index_of(apps, key);
    let r = apps_touched(apps, o, seconds);
    let with = if i < apps.len() { apps } else { apps.push(new_app(o)) };
    assert forall|k: int| 0 <= k < with.len() && k != i implies #[trigger] with[k] == apps[k] by {}
    assert forall|a: int, b: int| #![trigger r[a], r[b]] 0 <= a < b < r.len() implies r[a].key != r[b].key by {
        if a != i && b != i {
            assert(r[a] == apps[a] && r[b] == apps[b]);
        } else if a == i {
            assert(r[b] == apps[b]);
            if i < apps.len() {
                assert(r[a].key == apps[a].key);
            }
        } else {
            assert(r[a] == apps[a]);
            assert(!app_is_key(key)(apps[a]));
        }
    }
    assert forall|k: int| 0 <= k < i implies !app_is_key(key)(#[trigger] r[k]) by {
        assert(r[k] == apps[k]);
        assert(!app_is_key(key)(apps[k]));
    }
    lemma_first_index(r, app_is_key(key), i);
}

/// A sample records what kind of application the window belongs to: after it, the
/// sampled process's application is a `browser` when the window had a browser name and
/// an `app` when it had none, whether it is new or was already there.
pub proof fn law_sample_sets_kind(apps: Seq<AppView>, o: ObservationView, seconds: u64)
    ensures
        ({
            let i = app_index_of(apps, o.process_name);
            let r = apps_touched(apps, o, seconds);
            &&& 0 <= i < r.len()
            &&& r[i].key == o.process_name
            &&& (o.browser_name is Some ==> r[i].kind == "browser"@)
            &&& (o.browser_name is None ==> r[i].kind == "app"@)
        }),
{
    lemma_first_index_bounds(apps, app_is_key(o.process_name));
}

/// Whether no two sites have the same key.
pub open spec fn unique_site_keys(tabs: Seq<TabView>) -> bool {
    forall|i: int, j: int| #![trigger tabs[i], tabs[j]] 0 <= i < j < tabs.len() ==> tabs[i].key != tabs[j].key
}

/// Whether no two links have the same address.
pub open spec fn unique_links(urls: Seq<UrlView>) -> bool {
    forall|i: int, j: int| #![trigger urls[i], urls[j]] 0 <= i < j < urls.len() ==> urls[i].url != urls[j].url
}

/// Visiting a link records it once: the links keep unique addresses, the visited one
/// (new when it was not there) gains a hit, and every other link is unchanged.
pub proof fn law_visit_records_link_once(urls: Seq<UrlView>, url: Seq<char>, title: Seq<char>, now: Seq<char>)
    requires
        unique_links(urls),
    ensures
        ({
            let i = first_index(urls, url_is_addr(url));
            let r = visited(urls, url, title, now);
            &&& unique_links(r)
            &&& r.len() == if i < urls.len() { urls.len() } else { urls.len() + 1 }
            &&& first_index(r, url_is_addr(url)) == i
            &&& r[i].url == url
            &&& r[i].hits == sat_add(if i < urls.len() { urls[i].hits } else { 0 }, 1)
            &&& forall|k: int| 0 <= k < urls.len() && k != i ==> #[trigger] r[k] == urls[k]
        }),
{
    lemma_first_index_bounds(urls, url_is_addr(url));
    let i = first_index(urls, url_is_addr(url));
    let r = visited(urls, url, title, now);
    assert forall|k: int| 0 <= k < urls.len() && k != i implies #[trigger] r[k] == urls[k] by {}
    assert forall|a: int, b: int| #![trigger r[a], r[b]] 0 <= a < b < r.len() implies r[a].url != r[b].url by {
        if a != i && b != i {
            assert(r[a] == urls[a] && r[b] == urls[b]);
        } else if a == i {
            assert(r[b] == urls[b]);
        } else {
            assert(r[a] == urls[a]);
            assert(!url_is_addr(url)(urls[a]));
        }
    }
    assert forall|k: int| 0 <= k < i implies !url_is_addr(url)(#[trigger] r[k]) by {
        assert(r[k] == urls[k]);
        assert(!url_is_addr(url)(urls[k]));
    }
    lemma_first_index(r, url_is_addr(url), i);
}

/// Sampling a browser records the time under the site of the page, once: the sites
/// keep unique keys, the sampled one (new, with no time, when it was not there) gains
/// `seconds` up to `u64::MAX`, and every other site is unchanged.
pub proof fn law_site_sample_adds_time_once(tabs: Seq<TabView>, o: ObservationView, seconds: u64, now: Seq<char>)
    requires
        unique_site_keys(tabs),
    ensures
        ({
            let key = site_key(lowercase(observed_domain(o)), o);
            let i = first_index(tabs, tab_is_key(key));
            let r = tabs_touched(tabs, o, seconds, now);
            &&& unique_site_keys(r)
            &&& r.len() == if i < tabs.len() { tabs.len() } else { tabs.len() + 1 }
            &&& first_index(r, tab_is_key(key)) == i
            &&& r[i].key == key
            &&& r[i].time_seconds == sat_add(if i < tabs.len() { tabs[i].time_seconds } else { 0 }, seconds)
            &&& forall|k: int| 0 <= k < tabs.len() && k != i ==> #[trigger] r[k] == tabs[k]
        }),
{
    let key = site_key(lowercase(observed_domain(o)), o);
    lemma_first_index_bounds(tabs, tab_is_key(key));
    let i = first_index(tabs, tab_is_key(key));
    let r = tabs_touched(tabs, o, seconds, now);
    let with = if i < tabs.len() { tabs } else { tabs.push(new_tab(o)) };
    assert forall|k: int| 0 <= k < with.len() && k != i implies #[trigger] with[k] == tabs[k] by {}
    assert forall|a: int, b: int| #![trigger r[a], r[b]] 0 <= a < b < r.len() implies r[a].key != r[b].key by {
        if a != i && b != i {
            assert(r[a] == tabs[a] && r[b] == tabs[b]);
        } else if a == i {
            assert(r[b] == tabs[b]);
            if i < tabs.len() {
                assert(r[a].key == tabs[a].key);
            }
        } else {
            assert(r[a] == tabs[a]);
            assert(!tab_is_key(key)(tabs[a]));
        }
    }
    assert forall|k: int| 0 <= k < i implies !tab_is_key(key)(#[trigger] r[k]) by {
        assert(r[k] == tabs[k]);
        assert(!tab_is_key(key)(tabs[k]));
    }
    lemma_first_index(r, tab_is_key(key), i);
}

} // verus!
