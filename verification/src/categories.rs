//! Categories of projects: their order, renaming, deleting, filing a project under one,
//! and suggesting a category for a project from the rules that match its applications.
use vstd::prelude::*;
use crate::create::category_name;
use crate::edits::required_name;
use crate::models::{
    category_views, opt_view, project_views, AppUsageRecord, AppView, Category, CategoryView,
    ProjectRecord, ProjectView, app_views,
};
use crate::seqs::{keep, lemma_keep_all, lemma_keep_step};
use crate::store::{find_project, project_index_of, StoreData, StoreView};
use crate::text::{chars_of, lowercase, matches_at, owned, starts_with, str_eq, to_lowercase, trim, trim_str};

verus! {

// ---------------------------------------------------------------- order

/// `o + 1`, or `usize::MAX` when that overflows.
pub open spec fn order_after(o: usize) -> usize {
    if o == usize::MAX {
        usize::MAX
    } else {
        (o + 1) as usize
    }
}

/// The order for a new category: one past the largest order held, or `0` when there is
/// no category.
pub open spec fn next_order(cs: Seq<CategoryView>) -> usize
    decreases cs.len(),
{
    if cs.len() == 0 {
        0
    } else {
        let rest = next_order(cs.drop_last());
        let mine = order_after(cs.last().order);
        if mine > rest {
            mine
        } else {
            rest
        }
    }
}

/// The order a new category gets (see `next_order`).
pub fn next_category_order(categories: &Vec<Category>) -> (res: usize)
    ensures
        res == next_order(category_views(categories@)),
{
    let ghost cs = category_views(categories@);
    let mut best: usize = 0;
    let mut k: usize = 0;
    while k < categories.len()
        invariant
            k <= categories.len(),
            cs == category_views(categories@),
            best == next_order(cs.take(k as int)),
        decreases categories.len() - k,
    {
        assert(cs.take(k + 1).drop_last() =~= cs.take(k as int));
        let o = categories[k].order;
        let mine = if o == usize::MAX { usize::MAX } else { o + 1 };
        if mine > best {
            best = mine;
        }
        k = k + 1;
    }
    assert(cs.take(k as int) =~= cs);
    best
}

/// Every category ordered before the next order, unless orders reached `usize::MAX`.
pub proof fn law_next_order_is_after_all(cs: Seq<CategoryView>)
    ensures
        forall|k: int| 0 <= k < cs.len() && (#[trigger] cs[k]).order < usize::MAX ==> cs[k].order < next_order(cs),
    decreases cs.len(),
{
    if cs.len() > 0 {
        law_next_order_is_after_all(cs.drop_last());
        assert forall|k: int| 0 <= k < cs.len() && (#[trigger] cs[k]).order < usize::MAX implies cs[k].order
            < next_order(cs) by {
            if k < cs.len() - 1 {
                assert(cs[k] == cs.drop_last()[k]);
            }
        }
    }
}

// ---------------------------------------------------------------- changing categories

pub open spec fn category_edited(
    c: CategoryView,
    id: Seq<char>,
    name: Seq<char>,
    color: Seq<char>,
    icon: Seq<char>,
    now: Seq<char>,
) -> CategoryView {
    if c.id == id {
        CategoryView { name: name, color: color, icon: icon, updated_at: now, ..c }
    } else {
        c
    }
}

/// The categories with the one of id `id` renamed, recoloured and given a new icon at
/// `now`.
pub open spec fn categories_edited(
    cs: Seq<CategoryView>,
    id: Seq<char>,
    name: Seq<char>,
    color: Seq<char>,
    icon: Seq<char>,
    now: Seq<char>,
) -> Seq<CategoryView> {
    cs.map_values(|c: CategoryView| category_edited(c, id, name, color, icon, now))
}

/// Changes the category `id` to the trimmed `name`, `color` and `icon` at `now`; a blank
/// name is refused and changes nothing.
pub fn update_category(
    categories: &mut Vec<Category>,
    id: &str,
    name: &str,
    color: &str,
    icon: &str,
    now: &str,
) -> (res: Result<(), String>)
    ensures
        res matches Err(e) ==> required_name(name@, "Название категории не может быть пустым."@) == Err::<
            Seq<char>,
            Seq<char>,
        >(e@) && category_views(final(categories)@) == category_views(old(categories)@),
        res is Ok ==> required_name(name@, "Название категории не может быть пустым."@) is Ok && category_views(
            final(categories)@,
        ) == categories_edited(category_views(old(categories)@), id@, trim(name@), color@, icon@, now@),
{
    let trimmed = match category_name(name) {
        Ok(n) => n,
        Err(e) => {
            return Err(e);
        },
    };
    let ghost cs = category_views(categories@);
    let mut k: usize = 0;
    while k < categories.len()
        invariant
            k <= categories.len(),
            categories.len() == cs.len(),
            trimmed@ == trim(name@),
            forall|m: int| 0 <= m < k ==> category_views(categories@)[m] == category_edited(cs[m], id@, trimmed@, color@, icon@, now@),
            forall|m: int| k <= m < categories.len() ==> category_views(categories@)[m] == cs[m],
        decreases categories.len() - k,
    {
        let ghost before = categories@;
        if str_eq(categories[k].id.as_str(), id) {
            let c = &mut categories[k];
            c.name = trimmed.clone();
            c.color = owned(color);
            c.icon = owned(icon);
            c.updated_at = owned(now);
        }
        assert(category_views(categories@)[k as int] =~= category_edited(cs[k as int], id@, trimmed@, color@, icon@, now@));
        assert forall|m: int| 0 <= m < k + 1 implies category_views(categories@)[m] == category_edited(cs[m], id@, trimmed@, color@, icon@, now@) by {
            if m < k {
                assert(categories@[m] == before[m]);
                assert(category_views(before)[m] == category_edited(cs[m], id@, trimmed@, color@, icon@, now@));
            }
        }
        assert forall|m: int| k + 1 <= m < categories.len() implies category_views(categories@)[m] == cs[m] by {
            assert(categories@[m] == before[m]);
            assert(category_views(before)[m] == cs[m]);
        }
        k = k + 1;
    }
    assert(category_views(categories@) =~= categories_edited(cs, id@, trim(name@), color@, icon@, now@));
    Ok(())
}

pub open spec fn category_not(id: Seq<char>) -> spec_fn(CategoryView) -> bool {
    |c: CategoryView| c.id != id
}

pub open spec fn uncategorized(p: ProjectView, id: Seq<char>) -> ProjectView {
    if p.category_id == Some(id) {
        ProjectView { category_id: None, ..p }
    } else {
        p
    }
}

/// The store without the category `id`: the projects filed under it are no longer filed
/// under any category.
pub open spec fn category_removed(s: StoreView, id: Seq<char>) -> StoreView {
    StoreView {
        categories: keep(s.categories, category_not(id)),
        projects: s.projects.map_values(|p: ProjectView| uncategorized(p, id)),
        ..s
    }
}

/// Deletes the category `id` (see `category_removed`).
pub fn delete_category(store: &mut StoreData, id: &str)
    ensures
        final(store)@ == category_removed(old(store)@, id@),
{
    let ghost s0 = store@;
    let ghost orig = category_views(store.categories@);
    let ghost p = category_not(id@);
    let mut i: usize = 0;
    let ghost mut j: int = 0;
    assert(orig.take(0) =~= Seq::<CategoryView>::empty());
    assert(orig.skip(0) =~= orig);
    while i < store.categories.len()
        invariant
            0 <= j <= orig.len(),
            p == category_not(id@),
            i <= store.categories.len(),
            store.categories.len() - i == orig.len() - j,
            category_views(store.categories@).take(i as int) == keep(orig.take(j), p),
            category_views(store.categories@).skip(i as int) == orig.skip(j),
            store@ == (StoreView { categories: store@.categories, ..s0 }),
        decreases store.categories.len() - i,
    {
        proof {
            lemma_keep_step(orig, p, j);
            assert(orig[j] == category_views(store.categories@).skip(i as int)[0]);
        }
        let other = !str_eq(store.categories[i].id.as_str(), id);
        assert(p(orig[j]) == other);
        let ghost before = category_views(store.categories@);
        if other {
            i = i + 1;
            proof {
                assert(before.take(i as int) =~= before.take(i - 1).push(before[i - 1]));
                assert(before.skip(i as int) =~= before.skip(i - 1).drop_first());
                assert(orig.skip(j + 1) =~= orig.skip(j).drop_first());
            }
        } else {
            store.categories.remove(i);
            proof {
                assert(category_views(store.categories@).take(i as int) =~= before.take(i as int));
                assert(category_views(store.categories@).skip(i as int) =~= before.skip(i as int).drop_first());
                assert(orig.skip(j + 1) =~= orig.skip(j).drop_first());
            }
        }
        proof {
            j = j + 1;
        }
    }
    assert(orig.take(j) =~= orig);
    assert(category_views(store.categories@).take(i as int) =~= category_views(store.categories@));
    let ghost ps = store@.projects;
    let mut k: usize = 0;
    while k < store.projects.len()
        invariant
            k <= store.projects.len(),
            store.projects.len() == ps.len(),
            ps == s0.projects,
            store@.categories == keep(orig, p),
            store@.workspace == s0.workspace,
            forall|m: int| 0 <= m < k ==> project_views(store.projects@)[m] == uncategorized(ps[m], id@),
            forall|m: int| k <= m < store.projects.len() ==> project_views(store.projects@)[m] == ps[m],
        decreases store.projects.len() - k,
    {
        let filed = match &store.projects[k].category_id {
            Some(c) => str_eq(c.as_str(), id),
            None => false,
        };
        let ghost before = store.projects@;
        if filed {
            let proj = &mut store.projects[k];
            proj.category_id = None;
        }
        assert forall|m: int| 0 <= m < k implies project_views(store.projects@)[m] == uncategorized(ps[m], id@) by {
            assert(store.projects@[m] == before[m]);
            assert(project_views(before)[m] == uncategorized(ps[m], id@));
        }
        assert forall|m: int| k < m < store.projects.len() implies project_views(store.projects@)[m] == ps[m] by {
            assert(store.projects@[m] == before[m]);
            assert(project_views(before)[m] == ps[m]);
        }
        proof {
            assert(project_views(store.projects@)[k as int] =~= uncategorized(ps[k as int], id@));
        }
        k = k + 1;
    }
    assert(store@ =~= category_removed(s0, id@));
}

/// Once a category is deleted, no category has its id and no project is filed under it.
pub proof fn law_deleted_category_is_gone(s: StoreView, id: Seq<char>)
    ensures
        forall|k: int|
            0 <= k < category_removed(s, id).categories.len() ==> (#[trigger] category_removed(s, id).categories[k]).id
                != id,
        forall|k: int|
            0 <= k < category_removed(s, id).projects.len() ==> (#[trigger] category_removed(s, id).projects[k]).category_id
                != Some(id),
        category_removed(s, id).projects.len() == s.projects.len(),
{
    lemma_keep_all(s.categories, category_not(id));
    assert forall|k: int|
        0 <= k < category_removed(s, id).categories.len() implies (#[trigger] category_removed(s, id).categories[k]).id
        != id by {
        assert(category_not(id)(keep(s.categories, category_not(id))[k]));
    }
}

/// The store with the project `project_id` filed under `category_id` (or under none) at
/// `now`.
pub open spec fn project_filed(s: StoreView, project_id: Seq<char>, category_id: Option<Seq<char>>, now: Seq<char>) -> StoreView {
    let i = project_index_of(s.projects, project_id);
    StoreView {
        projects: s.projects.update(i, ProjectView { category_id: category_id, updated_at: now, ..s.projects[i] }),
        ..s
    }
}

/// Files the project `project_id` under `category_id` at `now` and returns a copy of it;
/// a project that is not held is refused and nothing changes.
pub fn set_project_category(
    store: &mut StoreData,
    project_id: &str,
    category_id: Option<String>,
    now: &str,
) -> (res: Result<ProjectRecord, String>)
    ensures
        res is Ok <==> project_index_of(old(store)@.projects, project_id@) < old(store)@.projects.len(),
        res matches Err(e) ==> e@ == "Project not found"@ && final(store)@ == old(store)@,
        res matches Ok(p) ==> {
            &&& final(store)@ == project_filed(old(store)@, project_id@, opt_view(category_id), now@)
            &&& p@ == final(store)@.projects[project_index_of(old(store)@.projects, project_id@)]
        },
{
    let i = find_project(&store.projects, project_id);
    if i >= store.projects.len() {
        return Err(owned("Project not found"));
    }
    let ghost s0 = store@;
    let ghost cv = opt_view(category_id);
    {
        let proj = &mut store.projects[i];
        proj.category_id = category_id;
        proj.updated_at = owned(now);
    }
    assert(store@ =~= project_filed(s0, project_id@, cv, now@));
    Ok(store.projects[i].duplicate())
}

// ---------------------------------------------------------------- suggesting a category

/// A rule that files projects using a matching application under a category.
#[derive(Debug, Default)]
pub struct AppRule {
    pub id: String,
    pub match_process: String,
    pub category_id: String,
    pub created_at: String,
}

#[verifier::ext_equal]
pub struct RuleView {
    pub id: Seq<char>,
    pub match_process: Seq<char>,
    pub category_id: Seq<char>,
    pub created_at: Seq<char>,
}

impl View for AppRule {
    type V = RuleView;

    open spec fn view(&self) -> RuleView {
        RuleView {
            id: self.id@,
            match_process: self.match_process@,
            category_id: self.category_id@,
            created_at: self.created_at@,
        }
    }
}

pub open spec fn rule_views(s: Seq<AppRule>) -> Seq<RuleView> {
    s.map_values(|r: AppRule| r@)
}

/// Whether `needle` occurs in `hay`.
pub open spec fn occurs_in(hay: Seq<char>, needle: Seq<char>) -> bool {
    exists|i: int| 0 <= i <= hay.len() - needle.len() && #[trigger] starts_with(hay.skip(i), needle)
}

pub(crate) fn occurs(hay: &[char], needle: &[char]) -> (res: bool)
    ensures
        res == occurs_in(hay@, needle@),
{
    if needle.len() > hay.len() {
        return false;
    }
    let last = hay.len() - needle.len();
    let mut i: usize = 0;
    while i < last
        invariant
            last == hay.len() - needle.len(),
            i <= last,
            forall|m: int| 0 <= m < i ==> !starts_with(#[trigger] hay@.skip(m), needle@),
        decreases last - i,
    {
        if matches_at(hay, i, needle) {
            return true;
        }
        i = i + 1;
    }
    matches_at(hay, last, needle)
}

/// What a rule looks for: its process pattern, trimmed and in lower case.
pub open spec fn pattern(r: RuleView) -> Seq<char> {
    lowercase(trim(r.match_process))
}

/// Whether a rule matches an application: the application is included and its process
/// or its name, in lower case, contains the rule's non-empty pattern.
pub open spec fn rule_hits(r: RuleView, a: AppView) -> bool {
    &&& a.enabled
    &&& pattern(r).len() > 0
    &&& (occurs_in(lowercase(a.process_name), pattern(r)) || occurs_in(lowercase(a.name), pattern(r)))
}

/// The seconds that the rules for category `c` give one application: its time for each
/// of them that matches it.
pub open spec fn app_score(a: AppView, rules: Seq<RuleView>, c: Seq<char>) -> int
    decreases rules.len(),
{
    if rules.len() == 0 {
        0
    } else {
        app_score(a, rules.drop_last(), c) + if rules.last().category_id == c && rule_hits(rules.last(), a) {
            a.time_seconds as int
        } else {
            0
        }
    }
}

/// The seconds that the rules give category `c` over all the applications.
pub open spec fn score_total(apps: Seq<AppView>, rules: Seq<RuleView>, c: Seq<char>) -> int
    decreases apps.len(),
{
    if apps.len() == 0 {
        0
    } else {
        score_total(apps.drop_last(), rules, c) + app_score(apps.last(), rules, c)
    }
}

/// The score of category `c`, which stops at `u64::MAX`.
pub open spec fn score(apps: Seq<AppView>, rules: Seq<RuleView>, c: Seq<char>) -> u64 {
    if score_total(apps, rules, c) > u64::MAX {
        u64::MAX
    } else {
        score_total(apps, rules, c) as u64
    }
}

/// Whether some rule for category `c` matches some application.
pub open spec fn scored(apps: Seq<AppView>, rules: Seq<RuleView>, c: Seq<char>) -> bool {
    exists|i: int, j: int|
        0 <= i < apps.len() && 0 <= j < rules.len() && rules[j].category_id == c && #[trigger] rule_hits(
            rules[j],
            apps[i],
        )
}

/// How many of the rules for category `c` match the application.
pub open spec fn hit_count(a: AppView, rules: Seq<RuleView>, c: Seq<char>) -> nat
    decreases rules.len(),
{
    if rules.len() == 0 {
        0
    } else {
        hit_count(a, rules.drop_last(), c) + if rules.last().category_id == c && rule_hits(rules.last(), a) {
            1nat
        } else {
            0nat
        }
    }
}

/// The applications' time, each counted once per rule for category `c` that matches it.
pub open spec fn matched_time(apps: Seq<AppView>, rules: Seq<RuleView>, c: Seq<char>) -> int
    decreases apps.len(),
{
    if apps.len() == 0 {
        0
    } else {
        matched_time(apps.drop_last(), rules, c) + apps.last().time_seconds * hit_count(apps.last(), rules, c)
    }
}

/// The score an application gives a category is its time for every rule of that
/// category that matches it: its seconds times the number of such rules (so an
/// application matched once gives exactly its seconds, and one matched by none gives 0).
pub proof fn law_app_score_is_time(a: AppView, rules: Seq<RuleView>, c: Seq<char>)
    ensures
        app_score(a, rules, c) == a.time_seconds * hit_count(a, rules, c),
    decreases rules.len(),
{
    let t = a.time_seconds as int;
    if rules.len() > 0 {
        law_app_score_is_time(a, rules.drop_last(), c);
        let n = hit_count(a, rules.drop_last(), c) as int;
        assert(t * (n + 1) == t * n + t) by (nonlinear_arith);
        if rules.last().category_id == c && rule_hits(rules.last(), a) {
            assert(hit_count(a, rules, c) == n + 1);
        } else {
            assert(hit_count(a, rules, c) == n);
        }
    } else {
        assert(t * 0 == 0) by (nonlinear_arith);
    }
}

/// The score of a category is the matched time of the applications: the seconds of each
/// included application, once for every rule of the category that matches it. The
/// suggested category (see `suggest_category`) is one with the most matched time.
pub proof fn law_score_is_matched_time(apps: Seq<AppView>, rules: Seq<RuleView>, c: Seq<char>)
    ensures
        score_total(apps, rules, c) == matched_time(apps, rules, c),
    decreases apps.len(),
{
    if apps.len() > 0 {
        law_score_is_matched_time(apps.drop_last(), rules, c);
        law_app_score_is_time(apps.last(), rules, c);
    }
}

proof fn lemma_score_nonneg(apps: Seq<AppView>, rules: Seq<RuleView>, c: Seq<char>)
    ensures
        score_total(apps, rules, c) >= 0,
    decreases apps.len(),
{
    if apps.len() > 0 {
        lemma_score_nonneg(apps.drop_last(), rules, c);
        lemma_app_score_nonneg(apps.last(), rules, c);
    }
}

proof fn lemma_app_score_nonneg(a: AppView, rules: Seq<RuleView>, c: Seq<char>)
    ensures
        app_score(a, rules, c) >= 0,
    decreases rules.len(),
{
    if rules.len() > 0 {
        lemma_app_score_nonneg(a, rules.drop_last(), c);
    }
}

fn lowered(s: &str) -> (res: Vec<char>)
    ensures
        res@ == lowercase(s@),
{
    let l = to_lowercase(s);
    chars_of(l.as_str())
}

fn rule_hits_exec(pattern: &Vec<char>, app: &AppUsageRecord) -> (res: bool)
    ensures
        res == (app@.enabled && pattern@.len() > 0 && (occurs_in(lowercase(app@.process_name), pattern@) || occurs_in(
            lowercase(app@.name),
            pattern@,
        ))),
{
    if !app.enabled || pattern.len() == 0 {
        return false;
    }
    let p = lowered(app.process_name.as_str());
    if occurs(p.as_slice(), pattern.as_slice()) {
        return true;
    }
    let n = lowered(app.name.as_str());
    occurs(n.as_slice(), pattern.as_slice())
}

fn rule_pattern(rule: &AppRule) -> (res: Vec<char>)
    ensures
        res@ == pattern(rule@),
{
    let t = trim_str(rule.match_process.as_str());
    lowered(t.as_str())
}

/// The score of category `c` and whether any rule for it matched.
fn category_score(apps: &Vec<AppUsageRecord>, rules: &Vec<AppRule>, c: &String) -> (res: (u64, bool))
    ensures
        res.0 == score(app_views(apps@), rule_views(rules@), c@),
        res.1 == scored(app_views(apps@), rule_views(rules@), c@),
{
    let ghost av = app_views(apps@);
    let ghost rv = rule_views(rules@);
    let mut total: u64 = 0;
    let mut hit = false;
    let mut i: usize = 0;
    while i < apps.len()
        invariant
            i <= apps.len(),
            av == app_views(apps@),
            rv == rule_views(rules@),
            total == (if score_total(av.take(i as int), rv, c@) > u64::MAX { u64::MAX as int } else { score_total(av.take(i as int), rv, c@) }),
            hit == (exists|a: int, j: int|
                0 <= a < i && 0 <= j < rv.len() && rv[j].category_id == c@ && #[trigger] rule_hits(rv[j], av[a])),
        decreases apps.len() - i,
    {
        let ghost before = score_total(av.take(i as int), rv, c@);
        proof {
            lemma_score_nonneg(av.take(i as int), rv, c@);
            assert(av.take(i + 1).drop_last() =~= av.take(i as int));
        }
        let mut j: usize = 0;
        while j < rules.len()
            invariant
                i < apps.len(),
                j <= rules.len(),
                av == app_views(apps@),
                rv == rule_views(rules@),
                before >= 0,
                total == (if before + app_score(av[i as int], rv.take(j as int), c@) > u64::MAX { u64::MAX as int } else {
                    before + app_score(av[i as int], rv.take(j as int), c@)
                }),
                hit == ((exists|a: int, k: int|
                    0 <= a < i && 0 <= k < rv.len() && rv[k].category_id == c@ && #[trigger] rule_hits(rv[k], av[a]))
                    || (exists|k: int| 0 <= k < j && rv[k].category_id == c@ && #[trigger] rule_hits(rv[k], av[i as int]))),
            decreases rules.len() - j,
        {
            proof {
                assert(rv.take(j + 1).drop_last() =~= rv.take(j as int));
                lemma_app_score_nonneg(av[i as int], rv.take(j as int), c@);
            }
            let pat = rule_pattern(&rules[j]);
            let hits = rules[j].category_id == *c && rule_hits_exec(&pat, &apps[i]);
            assert(hits == (rv[j as int].category_id == c@ && rule_hits(rv[j as int], av[i as int])));
            if hits {
                total = total.saturating_add(apps[i].time_seconds);
                hit = true;
            }
            j = j + 1;
        }
        proof {
            assert(rv.take(j as int) =~= rv);
            if hit {
            } else {
                assert forall|a: int, k: int|
                    0 <= a < i + 1 && 0 <= k < rv.len() && rv[k].category_id == c@ implies !#[trigger] rule_hits(rv[k], av[a]) by {
                }
            }
        }
        i = i + 1;
    }
    proof {
        assert(av.take(i as int) =~= av);
    }
    (total, hit)
}

/// A category for a project: one of the categories whose rules match its applications
/// with the most seconds; none when no rule matches.
pub fn suggest_category(project: &ProjectRecord, rules: &Vec<AppRule>) -> (res: Option<String>)
    ensures
        res is None <==> forall|j: int|
            0 <= j < rules.len() ==> !scored(project@.apps, rule_views(rules@), #[trigger] rule_views(rules@)[j].category_id),
        res matches Some(c) ==> {
            &&& scored(project@.apps, rule_views(rules@), c@)
            &&& forall|j: int|
                0 <= j < rules.len() && scored(project@.apps, rule_views(rules@), #[trigger] rule_views(rules@)[j].category_id)
                    ==> score(project@.apps, rule_views(rules@), rule_views(rules@)[j].category_id) <= score(
                    project@.apps,
                    rule_views(rules@),
                    c@,
                )
        },
{
    let ghost av = project@.apps;
    let ghost rv = rule_views(rules@);
    let mut best: Option<String> = None;
    let mut best_score: u64 = 0;
    let mut j: usize = 0;
    while j < rules.len()
        invariant
            j <= rules.len(),
            av == project@.apps,
            rv == rule_views(rules@),
            best is None <==> forall|k: int| 0 <= k < j ==> !scored(av, rv, #[trigger] rv[k].category_id),
            best matches Some(c) ==> {
                &&& scored(av, rv, c@)
                &&& best_score == score(av, rv, c@)
                &&& forall|k: int| 0 <= k < j && scored(av, rv, #[trigger] rv[k].category_id) ==> score(av, rv, rv[k].category_id) <= best_score
            },
        decreases rules.len() - j,
    {
        let (s, hit) = category_score(&project.apps, rules, &rules[j].category_id);
        assert(rv[j as int].category_id == rules@[j as int].category_id@);
        assert(scored(av, rv, rv[j as int].category_id) == hit);
        if hit {
            let better = match &best {
                None => true,
                Some(_) => s > best_score,
            };
            if better {
                best = Some(rules[j].category_id.clone());
                best_score = s;
            }
        }
        j = j + 1;
    }
    best
}

} // verus!
