//! Totals over all projects for the analytics page: each project's enabled time and
//! session count, every session, and the applications with the most time.
use vstd::prelude::*;
use crate::models::{clone_opt, opt_view, project_views, AppView, ProjectRecord, ProjectView, SessionView};
use crate::text::str_eq;

verus! {

/// How many applications the analytics page lists at most.
pub const TOP_APPS_LIMIT: usize = 20;

/// One project's totals.
#[derive(Debug, Default)]
pub struct ProjectAnalytics {
    pub id: String,
    pub name: String,
    pub category_id: Option<String>,
    pub total_seconds: u64,
    pub session_count: u64,
}

pub struct ProjectAnalyticsView {
    pub id: Seq<char>,
    pub name: Seq<char>,
    pub category_id: Option<Seq<char>>,
    pub total_seconds: u64,
    pub session_count: u64,
}

impl View for ProjectAnalytics {
    type V = ProjectAnalyticsView;

    open spec fn view(&self) -> ProjectAnalyticsView {
        ProjectAnalyticsView {
            id: self.id@,
            name: self.name@,
            category_id: opt_view(self.category_id),
            total_seconds: self.total_seconds,
            session_count: self.session_count,
        }
    }
}

/// A session as the analytics page needs it: its project, start and length.
#[derive(Debug, Default)]
pub struct SessionLite {
    pub project_id: String,
    pub started_at: String,
    pub duration_seconds: u64,
}

impl View for SessionLite {
    type V = (Seq<char>, Seq<char>, u64);

    open spec fn view(&self) -> (Seq<char>, Seq<char>, u64) {
        (self.project_id@, self.started_at@, self.duration_seconds)
    }
}

/// The time of one application (a name and a kind) over all projects.
#[derive(Debug, Default)]
pub struct AppTotal {
    pub name: String,
    pub kind: String,
    pub seconds: u64,
}

impl View for AppTotal {
    type V = (Seq<char>, Seq<char>, u64);

    open spec fn view(&self) -> (Seq<char>, Seq<char>, u64) {
        (self.name@, self.kind@, self.seconds)
    }
}

/// Totals over all projects.
#[derive(Debug, Default)]
pub struct AnalyticsPayload {
    pub projects: Vec<ProjectAnalytics>,
    pub sessions: Vec<SessionLite>,
    pub top_apps: Vec<AppTotal>,
}

/// A name, a kind and a number of seconds.
pub type Entry = (Seq<char>, Seq<char>, u64);

pub open spec fn entry_views(s: Seq<AppTotal>) -> Seq<Entry> {
    s.map_values(|t: AppTotal| t@)
}

pub open spec fn lite_views(s: Seq<SessionLite>) -> Seq<Entry> {
    s.map_values(|t: SessionLite| t@)
}

/// The name, kind and time of each enabled application, in order.
pub open spec fn enabled_entries(apps: Seq<AppView>) -> Seq<Entry>
    decreases apps.len(),
{
    if apps.len() == 0 {
        seq![]
    } else {
        let rest = enabled_entries(apps.drop_last());
        let a = apps.last();
        if a.enabled {
            rest.push((a.name, a.kind, a.time_seconds))
        } else {
            rest
        }
    }
}

/// The enabled applications of all projects, project after project.
pub open spec fn all_entries(ps: Seq<ProjectView>) -> Seq<Entry>
    decreases ps.len(),
{
    if ps.len() == 0 {
        seq![]
    } else {
        all_entries(ps.drop_last()) + enabled_entries(ps.last().apps)
    }
}

/// The seconds of all entries added up.
pub open spec fn seconds_sum(es: Seq<Entry>) -> int
    decreases es.len(),
{
    if es.len() == 0 {
        0
    } else {
        seconds_sum(es.drop_last()) + es.last().2
    }
}

/// The seconds of the entries with this name and kind added up.
pub open spec fn group_seconds(es: Seq<Entry>, name: Seq<char>, kind: Seq<char>) -> int
    decreases es.len(),
{
    if es.len() == 0 {
        0
    } else {
        let e = es.last();
        group_seconds(es.drop_last(), name, kind) + if e.0 == name && e.1 == kind {
            e.2 as int
        } else {
            0
        }
    }
}

/// The time of a project's enabled applications.
pub open spec fn enabled_seconds(apps: Seq<AppView>) -> int {
    seconds_sum(enabled_entries(apps))
}

/// One project's totals as the page shows them.
pub open spec fn project_totals(p: ProjectView) -> ProjectAnalyticsView {
    ProjectAnalyticsView {
        id: p.id,
        name: p.name,
        category_id: p.category_id,
        total_seconds: enabled_seconds(p.apps) as u64,
        session_count: p.sessions.len() as u64,
    }
}

/// A project's sessions with the project's id, in order.
pub open spec fn session_lites(p: ProjectView) -> Seq<Entry> {
    p.sessions.map_values(|s: SessionView| (p.id, s.started_at, s.duration_seconds))
}

/// Every session of every project with its project's id, project after project.
pub open spec fn all_sessions(ps: Seq<ProjectView>) -> Seq<Entry>
    decreases ps.len(),
{
    if ps.len() == 0 {
        seq![]
    } else {
        all_sessions(ps.drop_last()) + session_lites(ps.last())
    }
}

/// Whether some entry has this name and kind.
pub open spec fn is_group(es: Seq<Entry>, name: Seq<char>, kind: Seq<char>) -> bool {
    exists|j: int| 0 <= j < es.len() && #[trigger] es[j].0 == name && es[j].1 == kind
}

/// Whether the list holds this name and kind.
pub open spec fn lists(top: Seq<Entry>, name: Seq<char>, kind: Seq<char>) -> bool {
    exists|j: int| 0 <= j < top.len() && #[trigger] top[j].0 == name && top[j].1 == kind
}

/// `top` is a list of the applications with the most time: distinct (name, kind)
/// groups of the entries, each with its summed time, longest first, at most `limit`
/// of them; shorter than `limit` only when it lists every group, and no group left
/// out has more time than the last one listed. Which of two equal groups comes first
/// is left open.
pub open spec fn top_groups(es: Seq<Entry>, top: Seq<Entry>, limit: int) -> bool {
    &&& top.len() <= limit
    &&& forall|j: int|
        0 <= j < top.len() ==> is_group(es, #[trigger] top[j].0, top[j].1) && top[j].2 == group_seconds(
            es,
            top[j].0,
            top[j].1,
        )
    &&& forall|i: int, j: int|
        0 <= i < j < top.len() ==> !(#[trigger] top[i].0 == #[trigger] top[j].0 && top[i].1 == top[j].1)
    &&& forall|i: int, j: int| 0 <= i <= j < top.len() ==> #[trigger] top[i].2 >= #[trigger] top[j].2
    &&& top.len() < limit ==> forall|name: Seq<char>, kind: Seq<char>|
        #[trigger] is_group(es, name, kind) ==> lists(top, name, kind)
    &&& top.len() > 0 ==> forall|name: Seq<char>, kind: Seq<char>|
        #[trigger] is_group(es, name, kind) && !lists(top, name, kind) ==> group_seconds(es, name, kind)
            <= top.last().2
}

proof fn lemma_sum_prefix(es: Seq<Entry>, i: int)
    requires
        0 <= i <= es.len(),
    ensures
        0 <= seconds_sum(es.take(i)) <= seconds_sum(es),
    decreases es.len(),
{
    if i == es.len() {
        assert(es.take(i) =~= es);
        if es.len() > 0 {
            lemma_sum_prefix(es.drop_last(), 0);
        }
    } else {
        assert(es.take(i) =~= es.drop_last().take(i));
        lemma_sum_prefix(es.drop_last(), i);
    }
}

proof fn lemma_group_absent(es: Seq<Entry>, name: Seq<char>, kind: Seq<char>)
    requires
        !is_group(es, name, kind),
    ensures
        group_seconds(es, name, kind) == 0,
    decreases es.len(),
{
    if es.len() > 0 {
        assert(es.last() == es[es.len() - 1]);
        assert forall|j: int| 0 <= j < es.drop_last().len() implies !(#[trigger] es.drop_last()[j].0 == name
            && es.drop_last()[j].1 == kind) by {
            assert(es.drop_last()[j] == es[j]);
        }
        lemma_group_absent(es.drop_last(), name, kind);
    }
}

proof fn lemma_group_le_sum(es: Seq<Entry>, name: Seq<char>, kind: Seq<char>)
    ensures
        0 <= group_seconds(es, name, kind) <= seconds_sum(es),
    decreases es.len(),
{
    if es.len() > 0 {
        lemma_group_le_sum(es.drop_last(), name, kind);
    }
}

proof fn lemma_sum_concat(a: Seq<Entry>, b: Seq<Entry>)
    ensures
        seconds_sum(a + b) == seconds_sum(a) + seconds_sum(b),
    decreases b.len(),
{
    if b.len() == 0 {
        assert(a + b =~= a);
    } else {
        assert((a + b).drop_last() =~= a + b.drop_last());
        lemma_sum_concat(a, b.drop_last());
    }
}

/// The projects before `i` contribute no more time than all of them.
proof fn lemma_all_entries_prefix(ps: Seq<ProjectView>, i: int)
    requires
        0 <= i < ps.len(),
    ensures
        all_entries(ps.take(i + 1)) == all_entries(ps.take(i)) + enabled_entries(ps[i].apps),
        seconds_sum(all_entries(ps.take(i))) + enabled_seconds(ps[i].apps) <= seconds_sum(all_entries(ps)),
    decreases ps.len(),
{
    assert(ps.take(i + 1).drop_last() =~= ps.take(i));
    lemma_sum_concat(all_entries(ps.take(i)), enabled_entries(ps[i].apps));
    if i + 1 == ps.len() {
        assert(ps.take(i + 1) =~= ps);
    } else {
        assert(ps.take(i + 1) =~= ps.drop_last().take(i + 1));
        assert(ps.take(i) =~= ps.drop_last().take(i));
        lemma_all_entries_prefix(ps.drop_last(), i);
        lemma_sum_concat(all_entries(ps.drop_last()), enabled_entries(ps.last().apps));
        lemma_sum_nonneg(enabled_entries(ps.last().apps));
    }
}

proof fn lemma_sum_nonneg(es: Seq<Entry>)
    ensures
        seconds_sum(es) >= 0,
    decreases es.len(),
{
    if es.len() > 0 {
        lemma_sum_nonneg(es.drop_last());
    }
}

/// The time of all enabled applications of all projects.
pub open spec fn grand_total(ps: Seq<ProjectView>) -> int {
    seconds_sum(all_entries(ps))
}

pub open spec fn totals_views(s: Seq<ProjectAnalytics>) -> Seq<ProjectAnalyticsView> {
    s.map_values(|t: ProjectAnalytics| t@)
}

/// Appends the enabled applications of one project to `out` and returns their time.
fn push_enabled(p: &ProjectRecord, out: &mut Vec<AppTotal>, budget: Ghost<int>) -> (res: u64)
    requires
        seconds_sum(entry_views(old(out)@)) + enabled_seconds(p@.apps) <= budget@,
        budget@ <= u64::MAX,
    ensures
        entry_views(final(out)@) == entry_views(old(out)@) + enabled_entries(p@.apps),
        res == enabled_seconds(p@.apps),
{
    let ghost start = entry_views(out@);
    let ghost apps = p@.apps;
    let mut total: u64 = 0;
    let mut k: usize = 0;
    proof {
        lemma_sum_concat(start, enabled_entries(apps));
        lemma_sum_nonneg(start);
        lemma_enabled_prefix(apps, 0);
        assert(apps.take(0) =~= Seq::<AppView>::empty());
    }
    while k < p.apps.len()
        invariant
            k <= p.apps.len(),
            apps == p@.apps,
            entry_views(out@) == start + enabled_entries(apps.take(k as int)),
            total == seconds_sum(enabled_entries(apps.take(k as int))),
            seconds_sum(enabled_entries(apps.take(k as int))) <= seconds_sum(enabled_entries(apps)),
            seconds_sum(start) + enabled_seconds(apps) <= budget@,
            seconds_sum(start) >= 0,
            budget@ <= u64::MAX,
        decreases p.apps.len() - k,
    {
        let a = &p.apps[k];
        proof {
            assert(apps.take(k + 1).drop_last() =~= apps.take(k as int));
            assert(apps.take(k + 1).last() == apps[k as int]);
        }
        if a.enabled {
            proof {
                lemma_enabled_prefix(apps, k + 1);
                lemma_sum_nonneg(enabled_entries(apps.take(k as int)));
                let ek = enabled_entries(apps.take(k as int));
                let e: Entry = (a.name@, a.kind@, a.time_seconds);
                assert(enabled_entries(apps.take(k + 1)) == ek.push(e));
                assert(ek.push(e).drop_last() =~= ek);
            }
            total = total + a.time_seconds;
            let ghost before = out@;
            let t = AppTotal { name: a.name.clone(), kind: a.kind.clone(), seconds: a.time_seconds };
            assert(t@ == (a.name@, a.kind@, a.time_seconds));
            out.push(t);
            proof {
                assert(entry_views(out@) =~= entry_views(before).push(t@));
                assert(entry_views(out@) =~= start + enabled_entries(apps.take(k + 1)));
            }
        } else {
            proof {
                assert(enabled_entries(apps.take(k + 1)) == enabled_entries(apps.take(k as int)));
            }
        }
        k = k + 1;
        proof {
            lemma_enabled_prefix(apps, k as int);
        }
    }
    proof {
        assert(apps.take(k as int) =~= apps);
    }
    total
}

proof fn lemma_enabled_prefix(apps: Seq<AppView>, i: int)
    requires
        0 <= i <= apps.len(),
    ensures
        seconds_sum(enabled_entries(apps.take(i))) <= seconds_sum(enabled_entries(apps)),
    decreases apps.len(),
{
    if i == apps.len() {
        assert(apps.take(i) =~= apps);
    } else {
        assert(apps.take(i) =~= apps.drop_last().take(i));
        lemma_enabled_prefix(apps.drop_last(), i);
        let rest = enabled_entries(apps.drop_last());
        if apps.last().enabled {
            assert(rest.push((apps.last().name, apps.last().kind, apps.last().time_seconds)).drop_last()
                =~= rest);
        }
    }
}

/// `firsts` holds the first entry of each (name, kind) among the first `i` entries,
/// once each, and `secs` the time of that group among them.
pub open spec fn groups_of(es: Seq<Entry>, firsts: Seq<usize>, secs: Seq<u64>, i: int) -> bool {
    &&& firsts.len() == secs.len()
    &&& forall|g: int| 0 <= g < firsts.len() ==> #[trigger] firsts[g] < i
    &&& forall|g: int|
        0 <= g < firsts.len() ==> #[trigger] secs[g] == group_seconds(
            es.take(i),
            es[firsts[g] as int].0,
            es[firsts[g] as int].1,
        )
    &&& forall|g: int, h: int|
        0 <= g < h < firsts.len() ==> !(es[#[trigger] firsts[g] as int].0 == es[#[trigger] firsts[h] as int].0
            && es[firsts[g] as int].1 == es[firsts[h] as int].1)
    &&& forall|j: int|
        0 <= j < i ==> exists|g: int|
            0 <= g < firsts.len() && #[trigger] es[firsts[g] as int].0 == es[j].0 && es[firsts[g] as int].1
                == (#[trigger] es[j]).1
}

/// The groups of the entries with the most time (see `top_groups`), at most
/// `TOP_APPS_LIMIT` of them.
pub fn top_apps_of(entries: &Vec<AppTotal>) -> (res: Vec<AppTotal>)
    requires
        seconds_sum(entry_views(entries@)) <= u64::MAX,
    ensures
        top_groups(entry_views(entries@), entry_views(res@), TOP_APPS_LIMIT as int),
{
    let ghost es = entry_views(entries@);
    // The groups: the first entry of each (name, kind) and the group's time so far.
    let mut firsts: Vec<usize> = Vec::new();
    let mut secs: Vec<u64> = Vec::new();
    let mut i: usize = 0;
    while i < entries.len()
        invariant
            es == entry_views(entries@),
            i <= entries.len(),
            seconds_sum(es) <= u64::MAX,
            groups_of(es, firsts@, secs@, i as int),
        decreases entries.len() - i,
    {
        let ghost prefix = es.take(i as int);
        let ghost next = es.take(i + 1);
        proof {
            assert(next.drop_last() =~= prefix);
            assert(next.last() == es[i as int]);
            lemma_sum_prefix(es, i + 1);
        }
        let mut g: usize = 0;
        let mut found = false;
        while g < firsts.len() && !found
            invariant
                es == entry_views(entries@),
                i < entries.len(),
                g <= firsts.len(),
                forall|k: int| 0 <= k < firsts.len() ==> #[trigger] firsts[k] < i,
                found ==> g < firsts.len() && es[firsts[g as int] as int].0 == es[i as int].0 && es[firsts[g as int] as int].1
                    == es[i as int].1,
                !found ==> forall|h: int|
                    0 <= h < g ==> !(es[#[trigger] firsts[h] as int].0 == es[i as int].0 && es[firsts[h] as int].1
                        == es[i as int].1),
            decreases firsts.len() - g + if found { 0int } else { 1int },
        {
            let f = firsts[g];
            if str_eq(entries[f].name.as_str(), entries[i].name.as_str()) && str_eq(
                entries[f].kind.as_str(),
                entries[i].kind.as_str(),
            ) {
                found = true;
            } else {
                g = g + 1;
            }
        }
        let ghost e = es[i as int];
        let ghost old_firsts = firsts@;
        let ghost old_secs = secs@;
        proof {
            assert forall|k: int| 0 <= k < firsts.len() implies #[trigger] group_seconds(
                next,
                es[firsts[k] as int].0,
                es[firsts[k] as int].1,
            ) == group_seconds(prefix, es[firsts[k] as int].0, es[firsts[k] as int].1) + if e.0 == es[firsts[k] as int].0
                && e.1 == es[firsts[k] as int].1 {
                e.2 as int
            } else {
                0
            } by {}
        }
        if found {
            proof {
                lemma_group_le_sum(next, e.0, e.1);
            }
            let v = secs[g] + entries[i].seconds;
            secs.set(g, v);
        } else {
            proof {
                lemma_group_le_sum(next, e.0, e.1);
                lemma_group_le_sum(prefix, e.0, e.1);
                lemma_group_absent(prefix, e.0, e.1);
            }
            firsts.push(i);
            secs.push(entries[i].seconds);
        }
        proof {
            assert forall|j: int| 0 <= j < i + 1 implies exists|h: int|
                0 <= h < firsts.len() && #[trigger] es[firsts[h] as int].0 == es[j].0 && es[firsts[h] as int].1
                    == (#[trigger] es[j]).1 by {
                if j == i {
                    let h = if found { g as int } else { firsts.len() - 1 };
                    assert(es[firsts[h] as int].0 == es[j].0);
                } else {
                    let h = choose|h: int|
                        0 <= h < old_firsts.len() && #[trigger] es[old_firsts[h] as int].0 == es[j].0
                            && es[old_firsts[h] as int].1 == (#[trigger] es[j]).1;
                    assert(firsts[h] == old_firsts[h]);
                    assert(es[firsts[h] as int].0 == es[j].0);
                }
            }
        }
        i = i + 1;
    }
    proof {
        assert(es.take(i as int) =~= es);
    }
    // Pick the longest remaining group, up to the limit.
    let n = firsts.len();
    let mut chosen: Vec<bool> = Vec::new();
    while chosen.len() < n
        invariant
            chosen.len() <= n,
            forall|g: int| 0 <= g < chosen.len() ==> !#[trigger] chosen[g],
        decreases n - chosen.len(),
    {
        chosen.push(false);
    }
    let mut order: Vec<usize> = Vec::new();
    let mut done = false;
    while order.len() < TOP_APPS_LIMIT && !done
        invariant
            es == entry_views(entries@),
            groups_of(es, firsts@, secs@, es.len() as int),
            es.take(es.len() as int) == es,
            chosen.len() == n,
            n == secs.len(),
            order.len() <= TOP_APPS_LIMIT,
            forall|k: int| 0 <= k < order.len() ==> #[trigger] order[k] < n && chosen[order[k] as int],
            forall|g: int| 0 <= g < n && #[trigger] chosen[g] ==> exists|k: int| 0 <= k < order.len() && order[k] == g,
            forall|a: int, b: int| 0 <= a < b < order.len() ==> #[trigger] order[a] != #[trigger] order[b],
            forall|a: int, b: int|
                0 <= a <= b < order.len() ==> secs[#[trigger] order[a] as int] >= secs[#[trigger] order[b] as int],
            order.len() > 0 ==> forall|g: int|
                0 <= g < n && !#[trigger] chosen[g] ==> secs[g] <= secs[order@.last() as int],
            done ==> forall|g: int| 0 <= g < n ==> #[trigger] chosen[g],
        decreases TOP_APPS_LIMIT - order.len(), if done { 0int } else { 1int },
    {
        let mut best: usize = n;
        let mut g: usize = 0;
        while g < n
            invariant
                chosen.len() == n,
                n == secs.len(),
                g <= n,
                best == n ==> forall|h: int| 0 <= h < g ==> #[trigger] chosen[h],
                best < n ==> best < g && !chosen[best as int] && forall|h: int|
                    0 <= h < g && !#[trigger] chosen[h] ==> secs[h] <= secs[best as int],
                best <= n,
            decreases n - g,
        {
            if !chosen[g] && (best == n || secs[g] > secs[best]) {
                best = g;
            }
            g = g + 1;
        }
        if best == n {
            done = true;
        } else {
            let ghost old_order = order@;
            let ghost old_chosen = chosen@;
            chosen.set(best, true);
            order.push(best);
            proof {
                assert(order@ == old_order.push(best));
                assert forall|h: int| 0 <= h < n && #[trigger] chosen[h] implies exists|k: int|
                    0 <= k < order.len() && order[k] == h by {
                    if h == best {
                        assert(order[order.len() - 1] == h);
                    } else {
                        assert(old_chosen[h]);
                        let k = choose|k: int| 0 <= k < old_order.len() && old_order[k] == h;
                        assert(order[k] == h);
                    }
                }
                assert forall|a: int, b: int| 0 <= a < b < order.len() implies #[trigger] order[a]
                    != #[trigger] order[b] by {
                    if b == order.len() - 1 {
                        assert(old_chosen[order[a] as int]);
                    }
                }
            }
        }
    }
    // The chosen groups, longest first.
    let mut res: Vec<AppTotal> = Vec::new();
    let mut k: usize = 0;
    while k < order.len()
        invariant
            es == entry_views(entries@),
            groups_of(es, firsts@, secs@, es.len() as int),
            es.take(es.len() as int) == es,
            chosen.len() == n,
            forall|k: int| 0 <= k < order.len() ==> #[trigger] order[k] < n && chosen[order[k] as int],
            forall|g: int| 0 <= g < n && #[trigger] chosen[g] ==> exists|k: int| 0 <= k < order.len() && order[k] == g,
            forall|a: int, b: int| 0 <= a < b < order.len() ==> #[trigger] order[a] != #[trigger] order[b],
            forall|a: int, b: int|
                0 <= a <= b < order.len() ==> secs[#[trigger] order[a] as int] >= secs[#[trigger] order[b] as int],
            order.len() > 0 ==> forall|g: int|
                0 <= g < n && !#[trigger] chosen[g] ==> secs[g] <= secs[order@.last() as int],
            order.len() < TOP_APPS_LIMIT ==> forall|g: int| 0 <= g < n ==> #[trigger] chosen[g],
            order.len() <= TOP_APPS_LIMIT,
            k <= order.len(),
            res.len() == k,
            forall|o: int| 0 <= o < order.len() ==> #[trigger] order[o] < n,
            n == firsts.len(),
            n == secs.len(),
            forall|g: int| 0 <= g < firsts.len() ==> #[trigger] firsts[g] < entries.len(),
            forall|j: int|
                0 <= j < k ==> (#[trigger] res@[j])@ == (
                    es[firsts[order[j] as int] as int].0,
                    es[firsts[order[j] as int] as int].1,
                    secs[order[j] as int],
                ),
        decreases order.len() - k,
    {
        let f = firsts[order[k]];
        let t = AppTotal {
            name: entries[f].name.clone(),
            kind: entries[f].kind.clone(),
            seconds: secs[order[k]],
        };
        res.push(t);
        k = k + 1;
    }
    proof {
        let top = entry_views(res@);
        assert forall|j: int| 0 <= j < top.len() implies is_group(es, #[trigger] top[j].0, top[j].1)
            && top[j].2 == group_seconds(es, top[j].0, top[j].1) by {
            assert(top[j] == res@[j]@);
            let w = firsts[order[j] as int] as int;
            assert(es[w].0 == top[j].0);
        }
        assert forall|a: int, b: int| 0 <= a < b < top.len() implies !(#[trigger] top[a].0
            == #[trigger] top[b].0 && top[a].1 == top[b].1) by {
            assert(top[a] == res@[a]@);
            assert(top[b] == res@[b]@);
            let ga = order[a] as int;
            let gb = order[b] as int;
            assert(ga != gb);
            if ga < gb {
                assert(!(es[firsts[ga] as int].0 == es[firsts[gb] as int].0 && es[firsts[ga] as int].1
                    == es[firsts[gb] as int].1));
            } else {
                assert(!(es[firsts[gb] as int].0 == es[firsts[ga] as int].0 && es[firsts[gb] as int].1
                    == es[firsts[ga] as int].1));
            }
        }
        assert forall|a: int, b: int| 0 <= a <= b < top.len() implies #[trigger] top[a].2
            >= #[trigger] top[b].2 by {
            assert(top[a] == res@[a]@);
            assert(top[b] == res@[b]@);
            assert(secs[order[a] as int] >= secs[order[b] as int]);
        }
        assert forall|name: Seq<char>, kind: Seq<char>| #[trigger] is_group(es, name, kind) implies lists(
            top,
            name,
            kind,
        ) || (top.len() == TOP_APPS_LIMIT && group_seconds(es, name, kind) <= top.last().2) by {
            let j = choose|j: int| 0 <= j < es.len() && #[trigger] es[j].0 == name && es[j].1 == kind;
            let g = choose|g: int|
                0 <= g < firsts.len() && #[trigger] es[firsts[g] as int].0 == es[j].0 && es[firsts[g] as int].1
                    == (#[trigger] es[j]).1;
            if chosen[g] {
                let o = choose|o: int| 0 <= o < order.len() && order[o] == g;
                assert(top[o] == res@[o]@);
                assert(top[o].0 == name && top[o].1 == kind);
            } else {
                assert(top.len() == TOP_APPS_LIMIT);
                assert(top.last() == res@[top.len() - 1]@);
            }
        }
    }
    res
}

/// Analytics over all projects: for each project, in order, its id, name, category,
/// the time of its enabled applications and its number of sessions; every session of
/// every project with its project's id; and the applications (by name and kind) with
/// the most time over the enabled applications of all projects (see `top_groups`).
pub fn analytics_of(projects: &Vec<ProjectRecord>) -> (res: AnalyticsPayload)
    requires
        grand_total(project_views(projects@)) <= u64::MAX,
    ensures
        totals_views(res.projects@) == project_views(projects@).map_values(|p: ProjectView| project_totals(p)),
        lite_views(res.sessions@) == all_sessions(project_views(projects@)),
        top_groups(all_entries(project_views(projects@)), entry_views(res.top_apps@), TOP_APPS_LIMIT as int),
{
    let ghost ps = project_views(projects@);
    let mut entries: Vec<AppTotal> = Vec::new();
    let mut totals: Vec<ProjectAnalytics> = Vec::new();
    let mut sessions: Vec<SessionLite> = Vec::new();
    let mut i: usize = 0;
    proof {
        assert(ps.take(0) =~= Seq::<ProjectView>::empty());
        assert(entry_views(entries@) =~= Seq::<Entry>::empty());
    }
    while i < projects.len()
        invariant
            ps == project_views(projects@),
            i <= projects.len(),
            grand_total(ps) <= u64::MAX,
            entry_views(entries@) == all_entries(ps.take(i as int)),
            totals_views(totals@) == ps.take(i as int).map_values(|p: ProjectView| project_totals(p)),
            lite_views(sessions@) == all_sessions(ps.take(i as int)),
        decreases projects.len() - i,
    {
        let p = &projects[i];
        proof {
            lemma_all_entries_prefix(ps, i as int);
            assert(ps.take(i + 1).drop_last() =~= ps.take(i as int));
            assert(ps[i as int] == p@);
        }
        let t = push_enabled(p, &mut entries, Ghost(grand_total(ps)));
        let ghost before = totals@;
        let row = ProjectAnalytics {
            id: p.id.clone(),
            name: p.name.clone(),
            category_id: clone_opt(&p.category_id),
            total_seconds: t,
            session_count: p.sessions.len() as u64,
        };
        totals.push(row);
        proof {
            assert(totals_views(totals@) =~= totals_views(before).push(row@));
            assert(totals_views(totals@) =~= ps.take(i + 1).map_values(|p: ProjectView| project_totals(p)));
        }
        let ghost start = lite_views(sessions@);
        let ghost lites = session_lites(p@);
        let mut j: usize = 0;
        while j < p.sessions.len()
            invariant
                lites == session_lites(p@),
                j <= p.sessions.len(),
                lite_views(sessions@) == start + lites.take(j as int),
            decreases p.sessions.len() - j,
        {
            let s = &p.sessions[j];
            let ghost before_s = sessions@;
            let lite = SessionLite {
                project_id: p.id.clone(),
                started_at: s.started_at.clone(),
                duration_seconds: s.duration_seconds,
            };
            sessions.push(lite);
            proof {
                assert(lite_views(sessions@) =~= lite_views(before_s).push(lite@));
                assert(lites.take(j + 1) =~= lites.take(j as int).push(lites[j as int]));
            }
            j = j + 1;
        }
        proof {
            assert(lites.take(j as int) =~= lites);
        }
        i = i + 1;
    }
    proof {
        assert(ps.take(i as int) =~= ps);
    }
    let top = top_apps_of(&entries);
    AnalyticsPayload { projects: totals, sessions, top_apps: top }
}

/// The time of all enabled applications of all projects, or `None` where it does not
/// fit in a `u64`.
pub fn grand_total_checked(projects: &Vec<ProjectRecord>) -> (res: Option<u64>)
    ensures
        res is Some <==> grand_total(project_views(projects@)) <= u64::MAX,
        res matches Some(t) ==> t == grand_total(project_views(projects@)),
{
    let ghost ps = project_views(projects@);
    let mut acc: u64 = 0;
    let mut i: usize = 0;
    proof {
        assert(ps.take(0) =~= Seq::<ProjectView>::empty());
    }
    while i < projects.len()
        invariant
            ps == project_views(projects@),
            i <= projects.len(),
            acc == seconds_sum(all_entries(ps.take(i as int))),
        decreases projects.len() - i,
    {
        let p = &projects[i];
        let ghost apps = p@.apps;
        proof {
            lemma_all_entries_prefix(ps, i as int);
            assert(ps[i as int] == p@);
            lemma_sum_concat(all_entries(ps.take(i as int)), enabled_entries(apps));
            assert(apps.take(0) =~= Seq::<AppView>::empty());
        }
        let mut k: usize = 0;
        while k < p.apps.len()
            invariant
                ps == project_views(projects@),
                i < projects.len(),
                apps == p@.apps,
                ps[i as int] == p@,
                k <= p.apps.len(),
                acc == seconds_sum(all_entries(ps.take(i as int))) + seconds_sum(enabled_entries(apps.take(k as int))),
                seconds_sum(all_entries(ps.take(i as int))) + enabled_seconds(apps) <= grand_total(ps),
            decreases p.apps.len() - k,
        {
            let a = &p.apps[k];
            proof {
                assert(apps.take(k + 1).drop_last() =~= apps.take(k as int));
                assert(apps.take(k + 1).last() == apps[k as int]);
                assert(apps[k as int] == a@);
            }
            if a.enabled {
                proof {
                    let ek = enabled_entries(apps.take(k as int));
                    let e: Entry = (a.name@, a.kind@, a.time_seconds);
                    assert(enabled_entries(apps.take(k + 1)) == ek.push(e));
                    assert(ek.push(e).drop_last() =~= ek);
                    lemma_enabled_prefix(apps, k + 1);
                }
                match acc.checked_add(a.time_seconds) {
                    Some(v) => {
                        acc = v;
                    },
                    None => {
                        return None;
                    },
                }
            } else {
                proof {
                    assert(enabled_entries(apps.take(k + 1)) == enabled_entries(apps.take(k as int)));
                }
            }
            k = k + 1;
        }
        proof {
            assert(apps.take(k as int) =~= apps);
        }
        i = i + 1;
    }
    proof {
        assert(ps.take(i as int) =~= ps);
    }
    Some(acc)
}

/// `analytics_of`, or `None` where the time of all enabled applications does not fit
/// in a `u64`.
pub fn analytics_checked(projects: &Vec<ProjectRecord>) -> (res: Option<AnalyticsPayload>)
    ensures
        res is Some <==> grand_total(project_views(projects@)) <= u64::MAX,
        res matches Some(r) ==> {
            &&& totals_views(r.projects@) == project_views(projects@).map_values(
                |p: ProjectView| project_totals(p),
            )
            &&& lite_views(r.sessions@) == all_sessions(project_views(projects@))
            &&& top_groups(all_entries(project_views(projects@)), entry_views(r.top_apps@), TOP_APPS_LIMIT as int)
        },
{
    match grand_total_checked(projects) {
        Some(_) => Some(analytics_of(projects)),
        None => None,
    }
}

} // verus!
