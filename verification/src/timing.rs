//! Setting an application's or a site's time by hand: the new total is spread over
//! its sites and links in proportion to the time they had, or evenly when they had none.
use vstd::prelude::*;
use vstd::arithmetic::div_mod::{lemma_fundamental_div_mod, lemma_fundamental_div_mod_converse, lemma_mod_pos_bound};
use crate::models::{tab_views, url_views, AppUsageRecord, AppView, TabUsageRecord, TabView, UrlView};
use crate::text::str_eq;
use crate::tracking::sat_add;

verus! {

/// The sum of the values.
pub open spec fn sum(s: Seq<u64>) -> int
    decreases s.len(),
{
    if s.len() == 0 {
        0
    } else {
        sum(s.drop_last()) + s.last()
    }
}

/// `a - b`, or 0 when that is negative.
pub open spec fn sat_sub(a: u64, b: u64) -> u64 {
    if a < b {
        0
    } else {
        (a - b) as u64
    }
}

/// `x / total` of `seconds`, rounded to the nearest second, halves up.
pub open spec fn share(x: u64, total: u64, seconds: u64) -> u64 {
    ((2 * x * seconds + total) / (2 * total)) as u64
}

/// The `k`-th of `n` even parts of `seconds`: the first `seconds % n` parts get one more.
pub open spec fn even_part(seconds: u64, n: int, k: int) -> u64 {
    (seconds / (n as u64) + if k < seconds % (n as u64) { 1u64 } else { 0u64 }) as u64
}

/// The (saturating) sum of the shares of the first `k` values.
pub open spec fn assigned_before(times: Seq<u64>, total: u64, seconds: u64, k: int) -> u64
    decreases k,
{
    if k <= 0 {
        0
    } else {
        sat_add(assigned_before(times, total, seconds, k - 1), share(times[k - 1], total, seconds))
    }
}

/// `seconds` spread over values that had `times`: evenly when they were all zero; else
/// each but the last gets its proportional share and the last gets what remains.
pub open spec fn redistributed(times: Seq<u64>, seconds: u64) -> Seq<u64> {
    let n = times.len() as int;
    let total = sum(times) as u64;
    if n == 0 {
        times
    } else if sum(times) == 0 {
        Seq::new(n as nat, |k: int| even_part(seconds, n, k))
    } else {
        Seq::new(
            n as nat,
            |k: int|
                if k == n - 1 {
                    sat_sub(seconds, assigned_before(times, total, seconds, n - 1))
                } else {
                    share(times[k], total, seconds)
                },
        )
    }
}

pub proof fn lemma_sum_prefix(s: Seq<u64>, i: int)
    requires
        0 <= i <= s.len(),
    ensures
        0 <= sum(s.take(i)) <= sum(s),
        i < s.len() ==> sum(s.take(i + 1)) == sum(s.take(i)) + s[i],
    decreases s.len() - i,
{
    if i < s.len() {
        assert(s.take(i + 1).drop_last() =~= s.take(i));
        lemma_sum_prefix(s, i + 1);
    } else {
        assert(s.take(i) =~= s);
    }
    lemma_sum_nonneg(s.take(i));
}

pub proof fn lemma_sum_nonneg(s: Seq<u64>)
    ensures
        sum(s) >= 0,
    decreases s.len(),
{
    if s.len() > 0 {
        lemma_sum_nonneg(s.drop_last());
    }
}

proof fn lemma_round(p: int, t: int)
    requires
        p >= 0,
        t > 0,
    ensures
        (2 * p + t) / (2 * t) == p / t + (if 2 * (p % t) >= t { 1int } else { 0int }),
{
    lemma_fundamental_div_mod(p, t);
    lemma_mod_pos_bound(p, t);
    let q = p / t;
    let r = p % t;
    let extra = if 2 * r >= t { 1int } else { 0int };
    let rr = 2 * r + t - 2 * t * extra;
    assert(2 * p + t == (q + extra) * (2 * t) + rr) by (nonlinear_arith)
        requires
            p == t * q + r,
            rr == 2 * r + t - 2 * t * extra,
    ;
    lemma_fundamental_div_mod_converse(2 * p + t, 2 * t, q + extra, rr);
}

proof fn lemma_share_bound(x: int, t: int, s: int)
    requires
        0 <= x <= t,
        t > 0,
        s >= 0,
    ensures
        (2 * x * s + t) / (2 * t) <= s,
{
    let num = 2 * x * s + t;
    lemma_fundamental_div_mod(num, 2 * t);
    lemma_mod_pos_bound(num, 2 * t);
    let q = num / (2 * t);
    assert(q <= s) by (nonlinear_arith)
        requires
            num == 2 * t * q + num % (2 * t),
            num % (2 * t) >= 0,
            num == 2 * x * s + t,
            0 <= x <= t,
            t > 0,
            s >= 0,
    ;
}

fn share_exec(x: u64, total: u64, seconds: u64) -> (res: u64)
    requires
        0 < total,
        x <= total,
    ensures
        res == share(x, total, seconds),
{
    assert((x as int) * (seconds as int) <= 0xffff_ffff_ffff_ffff_ffff_ffff_ffff_ffff) by (nonlinear_arith)
        requires
            x <= 0xffff_ffff_ffff_ffff,
            seconds <= 0xffff_ffff_ffff_ffff,
    ;
    let p: u128 = (x as u128) * (seconds as u128);
    let q: u128 = p / (total as u128);
    let r: u128 = p % (total as u128);
    proof {
        lemma_round(p as int, total as int);
        lemma_share_bound(x as int, total as int, seconds as int);
        assert(p as int == x as int * seconds as int);
        assert((2 * (p as int) + total) == 2 * x * seconds + total) by (nonlinear_arith)
            requires p as int == x as int * seconds as int;
    }
    let extra: u128 = if 2 * r >= total as u128 { 1 } else { 0 };
    (q + extra) as u64
}

fn total_of(times: &Vec<u64>) -> (total: u64)
    requires
        sum(times@) <= u64::MAX,
    ensures
        total == sum(times@),
{
    let mut total: u64 = 0;
    let mut k: usize = 0;
    while k < times.len()
        invariant
            k <= times.len(),
            sum(times@) <= u64::MAX,
            total == sum(times@.take(k as int)),
        decreases times.len() - k,
    {
        proof {
            lemma_sum_prefix(times@, k as int);
            lemma_sum_prefix(times@, k + 1);
        }
        total = total + times[k];
        k = k + 1;
    }
    assert(times@.take(k as int) =~= times@);
    total
}

/// `seconds` spread over values that had `times` (see `redistributed`).
pub fn redistribute(times: &Vec<u64>, seconds: u64) -> (res: Vec<u64>)
    requires
        sum(times@) <= u64::MAX,
    ensures
        res@ == redistributed(times@, seconds),
{
    let n = times.len();
    let mut out: Vec<u64> = Vec::new();
    if n == 0 {
        assert(out@ =~= times@);
        return out;
    }
    let total = total_of(times);
    if total == 0 {
        let count = n as u64;
        let base = seconds / count;
        let rem0 = seconds % count;
        let mut remainder = rem0;
        let mut k: usize = 0;
        while k < n
            invariant
                k <= n,
                n == times.len(),
                n > 0,
                count == n as u64,
                base == seconds / count,
                rem0 == seconds % count,
                remainder == if k <= rem0 { (rem0 - k) as u64 } else { 0u64 },
                out@.len() == k,
                forall|j: int| 0 <= j < k ==> #[trigger] out@[j] == even_part(seconds, n as int, j),
            decreases n - k,
        {
            proof {
                lemma_fundamental_div_mod(seconds as int, count as int);
                lemma_mod_pos_bound(seconds as int, count as int);
                if remainder > 0 {
                    assert(base < u64::MAX) by (nonlinear_arith)
                        requires
                            seconds as int == count * base + rem0,
                            0 < rem0 < count,
                            seconds <= u64::MAX,
                    ;
                }
            }
            let value = base + if remainder > 0 { 1u64 } else { 0u64 };
            out.push(value);
            if remainder > 0 {
                remainder = remainder - 1;
            }
            k = k + 1;
        }
        assert(out@ =~= redistributed(times@, seconds));
        out
    } else {
        let last = n - 1;
        let mut assigned: u64 = 0;
        let mut k: usize = 0;
        while k < n
            invariant
                k <= n,
                n == times.len(),
                last == n - 1,
                total == sum(times@),
                total > 0,
                k <= last ==> assigned == assigned_before(times@, total, seconds, k as int),
                out@.len() == k,
                forall|j: int| 0 <= j < k ==> #[trigger] out@[j] == redistributed(times@, seconds)[j],
            decreases n - k,
        {
            proof {
                lemma_sum_prefix(times@, k as int);
                lemma_sum_prefix(times@, k + 1);
                lemma_sum_prefix(times@.take(k + 1), k as int);
            }
            let value = if k == last {
                seconds.saturating_sub(assigned)
            } else {
                share_exec(times[k], total, seconds)
            };
            out.push(value);
            assigned = assigned.saturating_add(value);
            k = k + 1;
        }
        assert(out@ =~= redistributed(times@, seconds));
        out
    }
}

// ---------------------------------------------------------------- records

pub open spec fn url_times(urls: Seq<UrlView>) -> Seq<u64> {
    urls.map_values(|u: UrlView| u.time_seconds)
}

pub open spec fn tab_times(tabs: Seq<TabView>) -> Seq<u64> {
    tabs.map_values(|t: TabView| t.time_seconds)
}

/// The links with the given times.
pub open spec fn with_url_times(urls: Seq<UrlView>, times: Seq<u64>) -> Seq<UrlView> {
    Seq::new(urls.len(), |k: int| UrlView { time_seconds: times[k], ..urls[k] })
}

/// A site set to `seconds`, its links' times spread over it.
pub open spec fn tab_set_to(t: TabView, seconds: u64) -> TabView {
    TabView {
        time_seconds: seconds,
        urls: with_url_times(t.urls, redistributed(url_times(t.urls), seconds)),
        ..t
    }
}

/// Whether the times of a site's links can be summed.
pub open spec fn tab_times_fit(t: TabView) -> bool {
    sum(url_times(t.urls)) <= u64::MAX
}

/// Whether the times of an application's sites, and of each site's links, can be summed.
pub open spec fn app_times_fit(a: AppView) -> bool {
    &&& sum(tab_times(a.tabs)) <= u64::MAX
    &&& forall|k: int| 0 <= k < a.tabs.len() ==> tab_times_fit(#[trigger] a.tabs[k])
}

/// An application set to `seconds`; for a browser the time is spread over its sites,
/// and each site's over its links.
pub open spec fn app_set_to(a: AppView, seconds: u64) -> AppView {
    if a.kind == "browser"@ {
        let shares = redistributed(tab_times(a.tabs), seconds);
        AppView {
            time_seconds: seconds,
            tabs: Seq::new(a.tabs.len(), |k: int| tab_set_to(a.tabs[k], shares[k])),
            ..a
        }
    } else {
        AppView { time_seconds: seconds, ..a }
    }
}

/// Sets a site's time, spreading it over its links (see `tab_set_to`).
pub fn set_tab_time_in_project(tab: &mut TabUsageRecord, seconds: u64)
    requires
        tab_times_fit(old(tab)@),
    ensures
        final(tab)@ == tab_set_to(old(tab)@, seconds),
{
    tab.time_seconds = seconds;
    redistribute_url_times(tab, seconds);
}

/// Spreads `seconds` over a site's links (see `redistributed`).
pub fn redistribute_url_times(tab: &mut TabUsageRecord, seconds: u64)
    requires
        tab_times_fit(old(tab)@),
    ensures
        final(tab)@ == (TabView {
            urls: with_url_times(old(tab)@.urls, redistributed(url_times(old(tab)@.urls), seconds)),
            ..old(tab)@
        }),
{
    let ghost urls0 = url_views(tab.urls@);
    let mut times: Vec<u64> = Vec::new();
    let mut k: usize = 0;
    while k < tab.urls.len()
        invariant
            k <= tab.urls.len(),
            urls0 == url_views(tab.urls@),
            times@ == url_times(urls0).take(k as int),
        decreases tab.urls.len() - k,
    {
        times.push(tab.urls[k].time_seconds);
        assert(times@ =~= url_times(urls0).take(k + 1));
        k = k + 1;
    }
    assert(times@ =~= url_times(urls0));
    let shares = redistribute(&times, seconds);
    let mut k: usize = 0;
    while k < tab.urls.len()
        invariant
            k <= tab.urls.len(),
            tab.urls.len() == urls0.len(),
            shares@.len() == urls0.len(),
            shares@ == redistributed(url_times(urls0), seconds),
            tab@ == (TabView { urls: tab@.urls, ..old(tab)@ }),
            forall|m: int| 0 <= m < k ==> #[trigger] tab@.urls[m] == with_url_times(urls0, shares@)[m],
            forall|m: int| k <= m < tab.urls.len() ==> #[trigger] tab@.urls[m] == urls0[m],
        decreases tab.urls.len() - k,
    {
        assert(tab@.urls[k as int] == urls0[k as int]);
        let ghost before = url_views(tab.urls@);
        tab.urls[k].time_seconds = shares[k];
        assert forall|m: int| 0 <= m < tab.urls.len() && m != k implies #[trigger] url_views(
            tab.urls@,
        )[m] == before[m] by {}
        assert(tab@.urls[k as int] == with_url_times(urls0, shares@)[k as int]);
        k = k + 1;
    }
    assert(tab@.urls =~= with_url_times(urls0, shares@));
}

/// Sets an application's time; for a browser it is spread over its sites and their
/// links (see `app_set_to`).
pub fn set_app_time_in_app(app: &mut AppUsageRecord, seconds: u64)
    requires
        app_times_fit(old(app)@),
    ensures
        final(app)@ == app_set_to(old(app)@, seconds),
{
    app.time_seconds = seconds;
    if !str_eq(app.kind.as_str(), "browser") {
        return;
    }
    let ghost tabs0 = tab_views(app.tabs@);
    let mut times: Vec<u64> = Vec::new();
    let mut k: usize = 0;
    while k < app.tabs.len()
        invariant
            k <= app.tabs.len(),
            tabs0 == tab_views(app.tabs@),
            times@ == tab_times(tabs0).take(k as int),
        decreases app.tabs.len() - k,
    {
        times.push(app.tabs[k].time_seconds);
        assert(times@ =~= tab_times(tabs0).take(k + 1));
        k = k + 1;
    }
    assert(times@ =~= tab_times(tabs0));
    let shares = redistribute(&times, seconds);
    let mut k: usize = 0;
    while k < app.tabs.len()
        invariant
            k <= app.tabs.len(),
            app.tabs.len() == tabs0.len(),
            shares@.len() == tabs0.len(),
            shares@ == redistributed(tab_times(tabs0), seconds),
            app_times_fit(old(app)@),
            tabs0 == old(app)@.tabs,
            app@ == (AppView { tabs: app@.tabs, ..app_set_to(old(app)@, seconds) }),
            forall|m: int| 0 <= m < k ==> #[trigger] app@.tabs[m] == tab_set_to(tabs0[m], shares@[m]),
            forall|m: int| k <= m < app.tabs.len() ==> #[trigger] app@.tabs[m] == tabs0[m],
        decreases app.tabs.len() - k,
    {
        assert(app@.tabs[k as int] == tabs0[k as int]);
        assert(tab_times_fit(tabs0[k as int]));
        let ghost before = tab_views(app.tabs@);
        set_tab_time_in_project(&mut app.tabs[k], shares[k]);
        assert forall|m: int| 0 <= m < app.tabs.len() && m != k implies #[trigger] tab_views(
            app.tabs@,
        )[m] == before[m] by {}
        assert(app@.tabs[k as int] == tab_set_to(tabs0[k as int], shares@[k as int]));
        k = k + 1;
    }
    assert(app@.tabs =~= app_set_to(old(app)@, seconds).tabs);
}

// ---------------------------------------------------------------- laws

proof fn lemma_even_prefix(seconds: u64, n: int, m: int)
    requires
        0 < n,
        0 <= m <= n,
        n <= u64::MAX,
    ensures
        sum(Seq::new(n as nat, |k: int| even_part(seconds, n, k)).take(m)) == m * (seconds / (n as u64)) + (if m
            <= seconds % (n as u64) {
            m
        } else {
            (seconds % (n as u64)) as int
        }),
    decreases m,
{
    let parts = Seq::new(n as nat, |k: int| even_part(seconds, n, k));
    if m > 0 {
        lemma_even_prefix(seconds, n, m - 1);
        assert(parts.take(m).drop_last() =~= parts.take(m - 1));
        lemma_fundamental_div_mod(seconds as int, n);
        lemma_mod_pos_bound(seconds as int, n);
        let q = (seconds / (n as u64)) as int;
        let r = (seconds % (n as u64)) as int;
        if r > 0 {
            assert(q < u64::MAX) by (nonlinear_arith)
                requires
                    seconds as int == n * q + r,
                    0 < r < n,
                    seconds <= u64::MAX,
            ;
        }
        let extra: int = if m - 1 < r { 1 } else { 0 };
        assert(parts[m - 1] as int == q + extra);
        assert(sum(parts.take(m)) == sum(parts.take(m - 1)) + parts[m - 1]);
        assert((m - 1) * q + q == m * q) by (nonlinear_arith);
    } else {
        assert(parts.take(0) =~= Seq::<u64>::empty());
    }
}

/// When the values had no time, `seconds` is split evenly and the parts add up to it.
pub proof fn law_even_split_total(times: Seq<u64>, seconds: u64)
    requires
        times.len() > 0,
        times.len() <= u64::MAX,
        sum(times) == 0,
    ensures
        sum(redistributed(times, seconds)) == seconds,
{
    let n = times.len() as int;
    lemma_even_prefix(seconds, n, n);
    let parts = Seq::new(n as nat, |k: int| even_part(seconds, n, k));
    assert(parts.take(n) =~= parts);
    assert(redistributed(times, seconds) == parts);
    lemma_fundamental_div_mod(seconds as int, n);
    lemma_mod_pos_bound(seconds as int, n);
}

/// The plain sum of the shares of the first `k` values.
pub open spec fn shares_total(times: Seq<u64>, total: u64, seconds: u64, k: int) -> int
    decreases k,
{
    if k <= 0 {
        0
    } else {
        shares_total(times, total, seconds, k - 1) + share(times[k - 1], total, seconds)
    }
}

proof fn lemma_assigned_is_total(times: Seq<u64>, total: u64, seconds: u64, k: int)
    requires
        0 <= k,
        shares_total(times, total, seconds, k) <= u64::MAX,
    ensures
        assigned_before(times, total, seconds, k) == shares_total(times, total, seconds, k),
        shares_total(times, total, seconds, k) >= 0,
    decreases k,
{
    if k > 0 {
        lemma_assigned_is_total(times, total, seconds, k - 1);
    }
}

proof fn lemma_first_parts(times: Seq<u64>, seconds: u64, m: int)
    requires
        times.len() > 0,
        sum(times) > 0,
        sum(times) <= u64::MAX,
        0 <= m <= times.len() - 1,
    ensures
        sum(redistributed(times, seconds).take(m)) == shares_total(times, sum(times) as u64, seconds, m),
    decreases m,
{
    let r = redistributed(times, seconds);
    if m > 0 {
        lemma_first_parts(times, seconds, m - 1);
        assert(r.take(m).drop_last() =~= r.take(m - 1));
    } else {
        assert(r.take(0) =~= Seq::<u64>::empty());
    }
}

/// When the values had time, each but the last gets its share and the last what is
/// left, so the parts add up to `seconds` as long as the shares of all but the last do
/// not already exceed it.
pub proof fn law_proportional_total(times: Seq<u64>, seconds: u64)
    requires
        times.len() > 0,
        0 < sum(times) <= u64::MAX,
        shares_total(times, sum(times) as u64, seconds, times.len() - 1) <= seconds,
    ensures
        sum(redistributed(times, seconds)) == seconds,
{
    let n = times.len() as int;
    let total = sum(times) as u64;
    let r = redistributed(times, seconds);
    lemma_first_parts(times, seconds, n - 1);
    lemma_assigned_is_total(times, total, seconds, n - 1);
    assert(r.take(n) =~= r);
    assert(r.take(n).drop_last() =~= r.take(n - 1));
    assert(r[n - 1] == sat_sub(seconds, assigned_before(times, total, seconds, n - 1)));
}

/// Whether spreading `seconds` over values with `times` gives parts that add up to it:
/// there are values, and either they had no time or the shares of all but the last do
/// not already exceed `seconds`.
pub open spec fn spreads_exactly(times: Seq<u64>, seconds: u64) -> bool {
    &&& 0 < times.len() <= u64::MAX
    &&& sum(times) <= u64::MAX
    &&& (sum(times) == 0 || shares_total(times, sum(times) as u64, seconds, times.len() - 1) <= seconds)
}

proof fn lemma_spread_adds_up(times: Seq<u64>, seconds: u64)
    requires
        spreads_exactly(times, seconds),
    ensures
        sum(redistributed(times, seconds)) == seconds,
{
    lemma_sum_nonneg(times);
    if sum(times) == 0 {
        law_even_split_total(times, seconds);
    } else {
        law_proportional_total(times, seconds);
    }
}

/// Setting a browser's time by hand spreads it over its sites so that their times add
/// up to it, and setting a site's time spreads it over its links likewise, wherever the
/// split is exact (see `spreads_exactly`).
pub proof fn law_set_time_adds_up(a: AppView, t: TabView, seconds: u64)
    ensures
        app_set_to(a, seconds).time_seconds == seconds,
        a.kind == "browser"@ && spreads_exactly(tab_times(a.tabs), seconds) ==> sum(tab_times(app_set_to(a, seconds).tabs))
            == seconds,
        tab_set_to(t, seconds).time_seconds == seconds,
        spreads_exactly(url_times(t.urls), seconds) ==> sum(url_times(tab_set_to(t, seconds).urls)) == seconds,
{
    if a.kind == "browser"@ && spreads_exactly(tab_times(a.tabs), seconds) {
        let shares = redistributed(tab_times(a.tabs), seconds);
        assert(tab_times(app_set_to(a, seconds).tabs) =~= shares);
        lemma_spread_adds_up(tab_times(a.tabs), seconds);
    }
    if spreads_exactly(url_times(t.urls), seconds) {
        let shares = redistributed(url_times(t.urls), seconds);
        assert(url_times(tab_set_to(t, seconds).urls) =~= shares);
        lemma_spread_adds_up(url_times(t.urls), seconds);
    }
}

} // verus!
