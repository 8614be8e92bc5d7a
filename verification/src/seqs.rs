//! Sequence operations that the record code is specified with.
use vstd::prelude::*;

verus! {

/// The elements of `s` that satisfy `p`, in order (`Vec::retain`).
pub open spec fn keep<A>(s: Seq<A>, p: spec_fn(A) -> bool) -> Seq<A>
    decreases s.len(),
{
    if s.len() == 0 {
        s
    } else if p(s.last()) {
        keep(s.drop_last(), p).push(s.last())
    } else {
        keep(s.drop_last(), p)
    }
}

/// The index of the first element of `s` that satisfies `p`, or `s.len()` when there is none.
pub open spec fn first_index<A>(s: Seq<A>, p: spec_fn(A) -> bool) -> int
    decreases s.len(),
{
    if s.len() == 0 {
        0
    } else if p(s[0]) {
        0
    } else {
        1 + first_index(s.drop_first(), p)
    }
}

/// `s` with each run of equal adjacent elements reduced to its first (`Vec::dedup`).
pub open spec fn dedup<A>(s: Seq<A>) -> Seq<A>
    decreases s.len(),
{
    if s.len() <= 1 {
        s
    } else if s.last() == s[s.len() - 2] {
        dedup(s.drop_last())
    } else {
        dedup(s.drop_last()).push(s.last())
    }
}

pub proof fn lemma_keep_step<A>(s: Seq<A>, p: spec_fn(A) -> bool, i: int)
    requires
        0 <= i < s.len(),
    ensures
        keep(s.take(i + 1), p) == if p(s[i]) {
            keep(s.take(i), p).push(s[i])
        } else {
            keep(s.take(i), p)
        },
{
    assert(s.take(i + 1).drop_last() =~= s.take(i));
    assert(s.take(i + 1).last() == s[i]);
}

pub proof fn lemma_first_index<A>(s: Seq<A>, p: spec_fn(A) -> bool, i: int)
    requires
        0 <= i <= s.len(),
        forall|k: int| 0 <= k < i ==> !p(#[trigger] s[k]),
        i == s.len() || p(s[i]),
    ensures
        first_index(s, p) == i,
    decreases i,
{
    if i > 0 {
        let t = s.drop_first();
        assert forall|k: int| 0 <= k < i - 1 implies !p(#[trigger] t[k]) by {
            assert(t[k] == s[k + 1]);
        }
        assert(!p(s[0]));
        if i < s.len() {
            assert(t[i - 1] == s[i]);
        }
        lemma_first_index(t, p, i - 1);
    }
}

pub proof fn lemma_first_index_bounds<A>(s: Seq<A>, p: spec_fn(A) -> bool)
    ensures
        0 <= first_index(s, p) <= s.len(),
        first_index(s, p) < s.len() ==> p(s[first_index(s, p)]),
        forall|k: int| 0 <= k < first_index(s, p) ==> !p(#[trigger] s[k]),
    decreases s.len(),
{
    if s.len() > 0 && !p(s[0]) {
        let t = s.drop_first();
        lemma_first_index_bounds(t, p);
        assert forall|k: int| 0 <= k < first_index(s, p) implies !p(#[trigger] s[k]) by {
            if k > 0 {
                assert(s[k] == t[k - 1]);
            }
        }
    }
}

pub proof fn lemma_keep_all<A>(s: Seq<A>, p: spec_fn(A) -> bool)
    ensures
        forall|k: int| 0 <= k < keep(s, p).len() ==> p(#[trigger] keep(s, p)[k]),
        forall|k: int|
            0 <= k < keep(s, p).len() ==> exists|j: int| 0 <= j < s.len() && s[j] == #[trigger] keep(s, p)[k],
        forall|j: int| 0 <= j < s.len() && p(#[trigger] s[j]) ==> keep(s, p).contains(s[j]),
        keep(s, p).len() <= s.len(),
    decreases s.len(),
{
    if s.len() > 0 {
        let t = s.drop_last();
        lemma_keep_all(t, p);
        let kt = keep(t, p);
        assert forall|k: int| 0 <= k < keep(s, p).len() implies exists|j: int|
            0 <= j < s.len() && s[j] == #[trigger] keep(s, p)[k] by {
            if k < kt.len() {
                let j = choose|j: int| 0 <= j < t.len() && t[j] == kt[k];
                assert(s[j] == t[j]);
            } else {
                assert(s[s.len() - 1] == keep(s, p)[k]);
            }
        }
        assert forall|j: int| 0 <= j < s.len() && p(#[trigger] s[j]) implies keep(s, p).contains(s[j]) by {
            if j < t.len() {
                assert(t[j] == s[j]);
                assert(kt.contains(s[j]));
                let m = choose|m: int| 0 <= m < kt.len() && kt[m] == s[j];
                assert(keep(s, p)[m] == s[j]);
            } else {
                assert(keep(s, p)[keep(s, p).len() - 1] == s[j]);
            }
        }
    }
}

/// Keeping the elements that satisfy `f` keeps the first element that satisfies `g`,
/// when that one satisfies `f`: it is still the first to satisfy `g`.
pub proof fn lemma_keep_first<A>(s: Seq<A>, f: spec_fn(A) -> bool, g: spec_fn(A) -> bool)
    requires
        first_index(s, g) < s.len(),
        f(s[first_index(s, g)]),
    ensures
        first_index(keep(s, f), g) < keep(s, f).len(),
        keep(s, f)[first_index(keep(s, f), g)] == s[first_index(s, g)],
    decreases s.len(),
{
    lemma_first_index_bounds(s, g);
    let i = first_index(s, g);
    let t = s.drop_last();
    let kt = keep(t, f);
    let ks = keep(s, f);
    if i < t.len() {
        assert forall|k: int| 0 <= k < i implies !g(#[trigger] t[k]) by {
            assert(t[k] == s[k]);
        }
        assert(t[i] == s[i]);
        lemma_first_index(t, g, i);
        lemma_keep_first(t, f, g);
        lemma_first_index_bounds(kt, g);
        let m = first_index(kt, g);
        assert forall|k: int| 0 <= k < m implies !g(#[trigger] ks[k]) by {
            assert(ks[k] == kt[k]);
        }
        assert(ks[m] == kt[m]);
        lemma_first_index(ks, g, m);
    } else {
        lemma_keep_all(t, f);
        assert forall|k: int| 0 <= k < kt.len() implies !g(#[trigger] ks[k]) by {
            assert(ks[k] == kt[k]);
            let j = choose|j: int| 0 <= j < t.len() && t[j] == #[trigger] kt[k];
            assert(t[j] == s[j]);
        }
        assert(ks == kt.push(s.last()));
        lemma_first_index(ks, g, kt.len() as int);
    }
}

} // verus!
