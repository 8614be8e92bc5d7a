//! The list of projects as read from storage: the most recently changed first, each id
//! once.
use vstd::prelude::*;
use crate::models::{project_views, ProjectRecord, ProjectView};
use crate::seqs::{first_index, lemma_first_index, lemma_first_index_bounds};
use crate::text::{lemma_seq_lt_order, seq_lt, str_lt};

verus! {

/// Whether `x` goes before `e`: it was changed later.
pub open spec fn newer_than(x: ProjectView) -> spec_fn(ProjectView) -> bool {
    |e: ProjectView| seq_lt(e.updated_at, x.updated_at)
}

/// `x` inserted into `s` before the first project that it is newer than.
pub open spec fn insert_project(s: Seq<ProjectView>, x: ProjectView) -> Seq<ProjectView> {
    s.insert(first_index(s, newer_than(x)), x)
}

/// The stable sort of projects by time of change, the latest first.
pub open spec fn sort_projects(s: Seq<ProjectView>) -> Seq<ProjectView>
    decreases s.len(),
{
    if s.len() == 0 {
        s
    } else {
        insert_project(sort_projects(s.drop_last()), s.last())
    }
}

/// Whether a project with the same id comes before position `i`.
pub open spec fn id_seen_before(s: Seq<ProjectView>, i: int) -> bool {
    exists|j: int| 0 <= j < i && s[j].id == #[trigger] s[i].id
}

/// The projects with each id kept at its first place only.
pub open spec fn first_of_each_id(s: Seq<ProjectView>) -> Seq<ProjectView>
    decreases s.len(),
{
    if s.len() == 0 {
        s
    } else if id_seen_before(s, s.len() - 1) {
        first_of_each_id(s.drop_last())
    } else {
        first_of_each_id(s.drop_last()).push(s.last())
    }
}

/// The projects sorted by time of change, the latest first, then each id kept once.
pub open spec fn sorted_and_deduped(s: Seq<ProjectView>) -> Seq<ProjectView> {
    first_of_each_id(sort_projects(s))
}

fn sort_project_records(v: &mut Vec<ProjectRecord>)
    ensures
        project_views(final(v)@) == sort_projects(project_views(old(v)@)),
{
    let ghost orig = project_views(v@);
    let mut sorted: Vec<ProjectRecord> = Vec::new();
    let ghost mut j: int = 0;
    assert(orig.take(0) =~= Seq::<ProjectView>::empty());
    assert(orig.skip(0) =~= orig);
    assert(project_views(sorted@) =~= Seq::<ProjectView>::empty());
    while v.len() > 0
        invariant
            0 <= j <= orig.len(),
            v.len() == orig.len() - j,
            project_views(sorted@) == sort_projects(orig.take(j)),
            project_views(v@) == orig.skip(j),
        decreases v.len(),
    {
        let ghost rest = project_views(v@);
        let x = v.remove(0);
        proof {
            assert(x@ == rest[0]);
            assert(rest[0] == orig[j]);
            assert(project_views(v@) =~= rest.drop_first());
            assert(orig.skip(j + 1) =~= orig.skip(j).drop_first());
            assert(orig.take(j + 1).drop_last() =~= orig.take(j));
            assert(orig.take(j + 1).last() == orig[j]);
        }
        let ghost sv = project_views(sorted@);
        let mut pos: usize = 0;
        while pos < sorted.len() && !str_lt(sorted[pos].updated_at.as_str(), x.updated_at.as_str())
            invariant
                pos <= sorted.len(),
                sv == project_views(sorted@),
                forall|m: int| 0 <= m < pos ==> !newer_than(x@)(#[trigger] sv[m]),
            decreases sorted.len() - pos,
        {
            pos = pos + 1;
        }
        proof {
            lemma_first_index(sv, newer_than(x@), pos as int);
        }
        sorted.insert(pos, x);
        assert(project_views(sorted@) =~= insert_project(sv, x@));
        proof {
            j = j + 1;
        }
    }
    assert(orig.take(j) =~= orig);
    *v = sorted;
}

fn id_seen_in(v: &Vec<ProjectRecord>, upto: usize) -> (res: bool)
    requires
        upto < v.len(),
    ensures
        res == id_seen_before(project_views(v@), upto as int),
{
    let ghost s = project_views(v@);
    let mut k: usize = 0;
    while k < upto
        invariant
            upto < v.len(),
            k <= upto,
            s == project_views(v@),
            forall|m: int| 0 <= m < k ==> s[m].id != s[upto as int].id,
        decreases upto - k,
    {
        if v[k].id == v[upto].id {
            assert(s[k as int].id == s[upto as int].id);
            return true;
        }
        k = k + 1;
    }
    false
}

/// The projects sorted by time of change, the latest first (equal times keep their
/// order), with each id kept at its first place (see `sorted_and_deduped`).
pub fn sort_and_dedupe_projects(projects: Vec<ProjectRecord>) -> (res: Vec<ProjectRecord>)
    ensures
        project_views(res@) == sorted_and_deduped(project_views(projects@)),
{
    let mut projects = projects;
    sort_project_records(&mut projects);
    let ghost s = project_views(projects@);
    let mut out: Vec<ProjectRecord> = Vec::new();
    let mut kept: Vec<bool> = Vec::new();
    let mut k: usize = 0;
    while k < projects.len()
        invariant
            k <= projects.len(),
            s == project_views(projects@),
            kept.len() == k,
            forall|m: int| 0 <= m < k ==> kept@[m] == !id_seen_before(s, m),
            project_views(out@) == first_of_each_id(s.take(k as int)),
        decreases projects.len() - k,
    {
        let seen = id_seen_in(&projects, k);
        proof {
            let t = s.take(k + 1);
            assert(t.drop_last() =~= s.take(k as int));
            assert(t.last() == s[k as int]);
            assert(id_seen_before(t, k as int) == id_seen_before(s, k as int)) by {
                if id_seen_before(s, k as int) {
                    let j = choose|j: int| 0 <= j < k && s[j].id == #[trigger] s[k as int].id;
                    assert(t[j] == s[j]);
                    assert(t[k as int] == s[k as int]);
                }
                if id_seen_before(t, k as int) {
                    let j = choose|j: int| 0 <= j < k && t[j].id == #[trigger] t[k as int].id;
                    assert(t[j] == s[j]);
                    assert(t[k as int] == s[k as int]);
                }
            }
        }
        kept.push(!seen);
        k = k + 1;
        if !seen {
            let ghost before = project_views(out@);
            out.push(projects[k - 1].duplicate());
            assert(project_views(out@) =~= before.push(s[k - 1]));
        }
    }
    assert(s.take(k as int) =~= s);
    out
}

// ---------------------------------------------------------------- laws

#[verifier::spinoff_prover]
#[verifier::rlimit(40)]
proof fn lemma_first_of_each_id_from(s: Seq<ProjectView>)
    ensures
        forall|a: int, b: int|
            0 <= a < b < first_of_each_id(s).len() ==> #[trigger] first_of_each_id(s)[a].id
                != #[trigger] first_of_each_id(s)[b].id,
        forall|k: int|
            0 <= k < first_of_each_id(s).len() ==> exists|i: int|
                0 <= i < s.len() && s[i] == #[trigger] first_of_each_id(s)[k],
        forall|i: int| 0 <= i < s.len() ==> exists|k: int|
            0 <= k < first_of_each_id(s).len() && #[trigger] first_of_each_id(s)[k].id == #[trigger] s[i].id,
    decreases s.len(),
{
    if s.len() > 0 {
        let t = s.drop_last();
        lemma_first_of_each_id_from(t);
        let ft = first_of_each_id(t);
        let f = first_of_each_id(s);
        assert forall|k: int| 0 <= k < f.len() implies exists|i: int| 0 <= i < s.len() && s[i] == #[trigger] f[k] by {
            if k < ft.len() {
                let i = choose|i: int| 0 <= i < t.len() && t[i] == #[trigger] ft[k];
                assert(s[i] == t[i]);
            } else {
                assert(s[s.len() - 1] == f[k]);
            }
        }
        assert forall|i: int| 0 <= i < s.len() implies exists|k: int|
            0 <= k < f.len() && #[trigger] f[k].id == #[trigger] s[i].id by {
            if i < t.len() {
                assert(s[i] == t[i]);
                let k = choose|k: int| 0 <= k < ft.len() && #[trigger] ft[k].id == #[trigger] t[i].id;
                assert(f[k] == ft[k]);
            } else if id_seen_before(s, s.len() - 1) {
                let last = s.len() - 1;
                let j = choose|j: int| 0 <= j < last && #[trigger] s[j].id == s[last].id;
                assert(s[j] == t[j]);
                let k = choose|k: int| 0 <= k < ft.len() && #[trigger] ft[k].id == #[trigger] t[j].id;
                assert(f[k] == ft[k]);
            } else {
                assert(f[f.len() - 1] == s[i]);
            }
        }
        if !id_seen_before(s, s.len() - 1) {
            assert forall|a: int, b: int| 0 <= a < b < f.len() implies #[trigger] f[a].id != #[trigger] f[b].id by {
                if b == f.len() - 1 {
                    assert(f[a] == ft[a]);
                    let i = choose|i: int| 0 <= i < t.len() && t[i] == #[trigger] ft[a];
                    assert(s[i] == t[i]);
                    if f[a].id == f[b].id {
                        assert(s[i].id == s[s.len() - 1].id);
                        assert(id_seen_before(s, s.len() - 1));
                    }
                } else {
                    assert(f[a] == ft[a]);
                    assert(f[b] == ft[b]);
                }
            }
        }
    }
}

/// Whether some project in `r` has this id.
pub open spec fn id_listed(r: Seq<ProjectView>, id: Seq<char>) -> bool {
    exists|k: int| 0 <= k < r.len() && #[trigger] r[k].id == id
}

/// After sorting and removing duplicates no two projects share an id, every project
/// kept was in the input, and every id of the input is kept.
pub proof fn law_listing_has_each_id_once(s: Seq<ProjectView>)
    ensures
        forall|a: int, b: int|
            0 <= a < b < sorted_and_deduped(s).len() ==> #[trigger] sorted_and_deduped(s)[a].id
                != #[trigger] sorted_and_deduped(s)[b].id,
        forall|i: int| 0 <= i < s.len() ==> id_listed(sorted_and_deduped(s), #[trigger] s[i].id),
        forall|k: int| 0 <= k < sorted_and_deduped(s).len() ==> #[trigger] s.contains(sorted_and_deduped(s)[k]),
{
    lemma_sort_projects_same_elements(s);
    let t = sort_projects(s);
    lemma_first_of_each_id_from(t);
    assert forall|i: int| 0 <= i < s.len() implies id_listed(sorted_and_deduped(s), #[trigger] s[i].id) by {
        assert(t.contains(s[i]));
        let m = choose|m: int| 0 <= m < t.len() && t[m] == s[i];
        let k = choose|k: int| 0 <= k < first_of_each_id(t).len() && #[trigger] first_of_each_id(t)[k].id == #[trigger] t[m].id;
        assert(sorted_and_deduped(s)[k].id == s[i].id);
    }
    assert forall|k: int| 0 <= k < sorted_and_deduped(s).len() implies #[trigger] s.contains(sorted_and_deduped(s)[k]) by {
        let i = choose|i: int| 0 <= i < t.len() && t[i] == #[trigger] first_of_each_id(t)[k];
        assert(t.contains(t[i]));
        assert(s.contains(t[i]));
    }
}

proof fn lemma_sort_projects_same_elements(s: Seq<ProjectView>)
    ensures
        sort_projects(s).len() == s.len(),
        forall|x: ProjectView| s.contains(x) <==> #[trigger] sort_projects(s).contains(x),
    decreases s.len(),
{
    if s.len() > 0 {
        let t = s.drop_last();
        lemma_sort_projects_same_elements(t);
        let st = sort_projects(t);
        let x = s.last();
        lemma_first_index_bounds(st, newer_than(x));
        let p = first_index(st, newer_than(x));
        let r = st.insert(p, x);
        assert forall|y: ProjectView| s.contains(y) <==> #[trigger] r.contains(y) by {
            if s.contains(y) {
                let i = choose|i: int| 0 <= i < s.len() && s[i] == y;
                if i == s.len() - 1 {
                    assert(r[p] == y);
                } else {
                    assert(t[i] == y);
                    assert(t.contains(y));
                    assert(st.contains(y));
                    let m = choose|m: int| 0 <= m < st.len() && st[m] == y;
                    if m < p {
                        assert(r[m] == y);
                    } else {
                        assert(r[m + 1] == y);
                    }
                }
            }
            if r.contains(y) {
                let m = choose|m: int| 0 <= m < r.len() && r[m] == y;
                if m == p {
                    assert(s[s.len() - 1] == y);
                } else if m < p {
                    assert(st[m] == y);
                    assert(st.contains(y));
                    let i = choose|i: int| 0 <= i < t.len() && t[i] == y;
                    assert(s[i] == y);
                } else {
                    assert(st[m - 1] == y);
                    assert(st.contains(y));
                    let i = choose|i: int| 0 <= i < t.len() && t[i] == y;
                    assert(s[i] == y);
                }
            }
        }
    }
}

/// No project comes before one that was changed later.
pub open spec fn latest_first(s: Seq<ProjectView>) -> bool {
    forall|i: int, j: int| 0 <= i < j < s.len() ==> !seq_lt(#[trigger] s[i].updated_at, #[trigger] s[j].updated_at)
}

proof fn lemma_insert_keeps_order(s: Seq<ProjectView>, x: ProjectView)
    requires
        latest_first(s),
    ensures
        latest_first(insert_project(s, x)),
{
    lemma_first_index_bounds(s, newer_than(x));
    let p = first_index(s, newer_than(x));
    let r = insert_project(s, x);
    assert forall|i: int, j: int| 0 <= i < j < r.len() implies !seq_lt(#[trigger] r[i].updated_at, #[trigger] r[j].updated_at) by {
        if j < p {
            assert(r[i] == s[i] && r[j] == s[j]);
        } else if j == p {
            assert(r[i] == s[i]);
            assert(!newer_than(x)(s[i]));
        } else if i > p {
            assert(r[i] == s[i - 1] && r[j] == s[j - 1]);
        } else if i == p {
            assert(r[j] == s[j - 1]);
            assert(newer_than(x)(s[p]));
            lemma_seq_lt_order(s[j - 1].updated_at, s[p].updated_at, x.updated_at);
            lemma_seq_lt_order(x.updated_at, s[j - 1].updated_at, s[p].updated_at);
            if j - 1 > p {
                assert(!seq_lt(s[p].updated_at, s[j - 1].updated_at));
            }
        } else {
            assert(r[i] == s[i] && r[j] == s[j - 1]);
        }
    }
}

proof fn lemma_sort_in_order(s: Seq<ProjectView>)
    ensures
        latest_first(sort_projects(s)),
    decreases s.len(),
{
    if s.len() > 0 {
        lemma_sort_in_order(s.drop_last());
        lemma_insert_keeps_order(sort_projects(s.drop_last()), s.last());
    }
}

proof fn lemma_sublist_in_order(s: Seq<ProjectView>)
    requires
        latest_first(s),
    ensures
        latest_first(first_of_each_id(s)),
    decreases s.len(),
{
    if s.len() > 0 {
        let t = s.drop_last();
        assert(latest_first(t)) by {
            assert forall|i: int, j: int| 0 <= i < j < t.len() implies !seq_lt(#[trigger] t[i].updated_at, #[trigger] t[j].updated_at) by {
                assert(t[i] == s[i] && t[j] == s[j]);
            }
        }
        lemma_sublist_in_order(t);
        lemma_first_of_each_id_from(t);
        let ft = first_of_each_id(t);
        let f = first_of_each_id(s);
        if !id_seen_before(s, s.len() - 1) {
            assert forall|i: int, j: int| 0 <= i < j < f.len() implies !seq_lt(#[trigger] f[i].updated_at, #[trigger] f[j].updated_at) by {
                if j == f.len() - 1 {
                    assert(f[i] == ft[i]);
                    let a = choose|a: int| 0 <= a < t.len() && t[a] == #[trigger] ft[i];
                    assert(s[a] == t[a]);
                    assert(f[j] == s[s.len() - 1]);
                } else {
                    assert(f[i] == ft[i] && f[j] == ft[j]);
                }
            }
        }
    }
}

/// The listing comes latest change first: no project in it was changed before one that
/// follows it.
pub proof fn law_listing_latest_first(s: Seq<ProjectView>)
    ensures
        latest_first(sorted_and_deduped(s)),
{
    lemma_sort_in_order(s);
    lemma_sublist_in_order(sort_projects(s));
}

} // verus!
