//! The stages as the printable report shows them: for each stage recorded in sessions,
//! its time, its number of sessions, when it was first and last used, and the stretches
//! of consecutive sessions that recorded it.
use vstd::prelude::*;
use crate::edits::{find_stage, stage_index_of};
use crate::format::{append, decimal, decimal_string, duration_text, escape_html, escaped, format_duration, push_decimal, push_escaped};
use crate::html::{concat, list_pages, list_pages_of, page, string_views, table_rows_view, page_html, page_title, table_html, titled, chunked};
use crate::models::{ProjectRecord, ProjectView, SnapshotView, StageView};
use crate::seqs::{first_index, lemma_first_index, lemma_first_index_bounds};
use crate::text::{lemma_seq_lt_order, seq_lt, str_lt, string_of};
use crate::timeline::{
    ends_computable, project_session_windows, session_ends_computable, session_windows, window_views,
    Instant, SessionWindow, WindowView,
};
use crate::tracking::sat_add;

verus! {

/// A stretch of time in which consecutive sessions recorded a stage.
#[derive(Debug, Clone, Copy)]
pub struct StageSegment {
    pub start: Instant,
    pub end: Instant,
}

pub open spec fn segment_views(s: Seq<StageSegment>) -> Seq<((i64, u32, i32), (i64, u32, i32))> {
    s.map_values(|g: StageSegment| (g.start@, g.end@))
}

/// A stage as the report shows it.
#[derive(Debug)]
pub struct IncludedStage {
    pub id: String,
    pub name: String,
    pub order: usize,
    pub seconds: u64,
    pub session_count: usize,
    pub first_used_at: String,
    pub last_used_at: String,
    pub segments: Vec<StageSegment>,
}

#[verifier::ext_equal]
pub struct StageTally {
    pub id: Seq<char>,
    pub name: Seq<char>,
    pub order: usize,
    pub seconds: u64,
    pub session_count: usize,
    pub first_used_at: Seq<char>,
    pub last_used_at: Seq<char>,
}

#[verifier::ext_equal]
pub struct IncludedStageView {
    pub tally: StageTally,
    pub segments: Seq<((i64, u32, i32), (i64, u32, i32))>,
}

impl IncludedStage {
    pub open spec fn tally(&self) -> StageTally {
        StageTally {
            id: self.id@,
            name: self.name@,
            order: self.order,
            seconds: self.seconds,
            session_count: self.session_count,
            first_used_at: self.first_used_at@,
            last_used_at: self.last_used_at@,
        }
    }
}

impl View for IncludedStage {
    type V = IncludedStageView;

    open spec fn view(&self) -> IncludedStageView {
        IncludedStageView { tally: self.tally(), segments: segment_views(self.segments@) }
    }
}

pub open spec fn included_stage_views(s: Seq<IncludedStage>) -> Seq<IncludedStageView> {
    s.map_values(|x: IncludedStage| x@)
}

pub open spec fn tallies_of(s: Seq<IncludedStage>) -> Seq<StageTally> {
    s.map_values(|x: IncludedStage| x.tally())
}

// ---------------------------------------------------------------- tallies

/// The first time a stage is met: its current name and number when the project still
/// has it, else the name it was recorded under and the last number.
pub open spec fn tally_new(snap: SnapshotView, w: WindowView, stages: Seq<StageView>) -> StageTally {
    let i = stage_index_of(stages, snap.id);
    StageTally {
        id: snap.id,
        name: if i < stages.len() { stages[i].name } else { snap.name },
        order: if i < stages.len() { stages[i].order } else { usize::MAX },
        seconds: w.duration_seconds,
        session_count: 1,
        first_used_at: w.started_at,
        last_used_at: w.stopped_at,
    }
}

/// A stage met again: its time and count grow, its first and last use widen, and it
/// takes the project's current name and number when the project still has it.
pub open spec fn tally_more(e: StageTally, w: WindowView, stages: Seq<StageView>) -> StageTally {
    let i = stage_index_of(stages, e.id);
    StageTally {
        id: e.id,
        name: if i < stages.len() { stages[i].name } else { e.name },
        order: if i < stages.len() { stages[i].order } else { e.order },
        seconds: sat_add(e.seconds, w.duration_seconds),
        session_count: (e.session_count + 1) as usize,
        first_used_at: if e.first_used_at.len() == 0 || seq_lt(w.started_at, e.first_used_at) {
            w.started_at
        } else {
            e.first_used_at
        },
        last_used_at: if e.last_used_at.len() == 0 || seq_lt(e.last_used_at, w.stopped_at) {
            w.stopped_at
        } else {
            e.last_used_at
        },
    }
}

pub open spec fn tally_is(id: Seq<char>) -> spec_fn(StageTally) -> bool {
    |e: StageTally| e.id == id
}

/// The tallies after one recorded stage of a window.
pub open spec fn tally_step(acc: Seq<StageTally>, snap: SnapshotView, w: WindowView, stages: Seq<StageView>) -> Seq<StageTally> {
    let j = first_index(acc, tally_is(snap.id));
    if j < acc.len() {
        acc.update(j, tally_more(acc[j], w, stages))
    } else {
        acc.push(tally_new(snap, w, stages))
    }
}

/// The tallies after the recorded stages of a window, in order.
pub open spec fn tally_snaps(acc: Seq<StageTally>, w: WindowView, snaps: Seq<SnapshotView>, stages: Seq<StageView>) -> Seq<StageTally>
    decreases snaps.len(),
{
    if snaps.len() == 0 {
        acc
    } else {
        tally_step(tally_snaps(acc, w, snaps.drop_last(), stages), snaps.last(), w, stages)
    }
}

/// The tallies over the windows, in order, of the stages they recorded.
pub open spec fn tally_windows(ws: Seq<WindowView>, stages: Seq<StageView>) -> Seq<StageTally>
    decreases ws.len(),
{
    if ws.len() == 0 {
        Seq::empty()
    } else {
        tally_snaps(tally_windows(ws.drop_last(), stages), ws.last(), ws.last().stages, stages)
    }
}

/// The number of recorded stages over the windows.
pub open spec fn snap_total(ws: Seq<WindowView>) -> int
    decreases ws.len(),
{
    if ws.len() == 0 {
        0
    } else {
        snap_total(ws.drop_last()) + ws.last().stages.len()
    }
}

// ---------------------------------------------------------------- stretches

/// Whether a window recorded the stage.
pub open spec fn records(w: WindowView, id: Seq<char>) -> bool {
    exists|k: int| 0 <= k < w.stages.len() && #[trigger] w.stages[k].id == id
}

/// The stretches closed so far, and the one still open, after the windows.
pub open spec fn stretch_state(ws: Seq<WindowView>, id: Seq<char>) -> (
    Seq<((i64, u32, i32), (i64, u32, i32))>,
    Option<((i64, u32, i32), (i64, u32, i32))>,
)
    decreases ws.len(),
{
    if ws.len() == 0 {
        (Seq::empty(), None)
    } else {
        let (done, open) = stretch_state(ws.drop_last(), id);
        let w = ws.last();
        if records(w, id) {
            match open {
                Some(c) => (done, Some((c.0, w.end))),
                None => (done, Some((w.start, w.end))),
            }
        } else {
            match open {
                Some(c) => (done.push(c), None),
                None => (done, None),
            }
        }
    }
}

/// The stretches of consecutive windows that recorded the stage, each from the first
/// one's start to the last one's end.
pub open spec fn stretches(ws: Seq<WindowView>, id: Seq<char>) -> Seq<((i64, u32, i32), (i64, u32, i32))> {
    let (done, open) = stretch_state(ws, id);
    match open {
        Some(c) => done.push(c),
        None => done,
    }
}

fn window_records(w: &SessionWindow, id: &String) -> (res: bool)
    ensures
        res == records(w@, id@),
{
    let ghost s = w@.stages;
    let mut k: usize = 0;
    while k < w.stages.len()
        invariant
            k <= w.stages.len(),
            s == w@.stages,
            s.len() == w.stages.len(),
            forall|m: int| 0 <= m < k ==> s[m].id != id@,
        decreases w.stages.len() - k,
    {
        assert(s[k as int] == w.stages@[k as int]@);
        if w.stages[k].id == *id {
            assert(w@.stages[k as int].id == id@);
            return true;
        }
        k = k + 1;
    }
    false
}

/// The stretches in which the windows recorded the stage (see `stretches`).
pub fn stage_segments(sessions: &Vec<SessionWindow>, stage_id: &String) -> (res: Vec<StageSegment>)
    ensures
        segment_views(res@) == stretches(window_views(sessions@), stage_id@),
{
    let ghost ws = window_views(sessions@);
    let mut segments: Vec<StageSegment> = Vec::new();
    let mut current: Option<StageSegment> = None;
    let mut k: usize = 0;
    while k < sessions.len()
        invariant
            k <= sessions.len(),
            ws == window_views(sessions@),
            segment_views(segments@) == stretch_state(ws.take(k as int), stage_id@).0,
            match current {
                Some(c) => stretch_state(ws.take(k as int), stage_id@).1 == Some((c.start@, c.end@)),
                None => stretch_state(ws.take(k as int), stage_id@).1 is None,
            },
        decreases sessions.len() - k,
    {
        let w = &sessions[k];
        proof {
            assert(ws[k as int] == w@);
            assert(ws.take(k + 1).drop_last() =~= ws.take(k as int));
        }
        let ghost before = segment_views(segments@);
        if window_records(w, stage_id) {
            current = match current {
                Some(c) => Some(StageSegment { start: c.start, end: w.end }),
                None => Some(StageSegment { start: w.start, end: w.end }),
            };
        } else {
            match current {
                Some(c) => {
                    segments.push(c);
                    assert(segment_views(segments@) =~= before.push((c.start@, c.end@)));
                },
                None => {},
            }
            current = None;
        }
        k = k + 1;
    }
    assert(ws.take(k as int) =~= ws);
    match current {
        Some(c) => {
            let ghost before = segment_views(segments@);
            segments.push(c);
            assert(segment_views(segments@) =~= before.push((c.start@, c.end@)));
        },
        None => {},
    }
    segments
}

/// What the stretches of the first `n` windows are, by the runs of windows that
/// recorded the stage: the open stretch runs from the start of the current run to the
/// last window's end, and every run that has ended is among the closed stretches.
proof fn lemma_stretch_runs(ws: Seq<WindowView>, id: Seq<char>, n: int)
    requires
        0 <= n <= ws.len(),
    ensures
        (n == 0 || !records(ws[n - 1], id)) ==> stretch_state(ws.take(n), id).1 is None,
        forall|i: int|
            0 <= i < n && (i == 0 || !records(ws[i - 1], id)) && (forall|k: int| i <= k < n ==> records(#[trigger] ws[k], id))
                ==> stretch_state(ws.take(n), id).1 == Some((ws[i].start, ws[n - 1].end)),
        forall|i: int, j: int|
            0 <= i <= j && j + 1 < n && (i == 0 || !records(ws[i - 1], id)) && !records(ws[j + 1], id) && (forall|k: int|
                i <= k <= j ==> records(#[trigger] ws[k], id)) ==> #[trigger] stretch_state(ws.take(n), id).0.contains(
                (ws[i].start, ws[j].end),
            ),
        n > 0 && records(ws[n - 1], id) ==> stretch_state(ws.take(n), id).1 is Some,
        stretch_state(ws.take(n), id).1 matches Some(c) ==> exists|i: int|
            #[trigger] run_in(ws, id, i, n - 1, n) && c == (ws[i].start, ws[n - 1].end),
        forall|m: int|
            0 <= m < stretch_state(ws.take(n), id).0.len() ==> closed_run(ws, id, n, #[trigger] stretch_state(ws.take(n), id).0[m]),
    decreases n,
{
    if n > 0 {
        lemma_stretch_runs(ws, id, n - 1);
        let prev = ws.take(n - 1);
        assert(ws.take(n).drop_last() =~= prev);
        assert(ws.take(n).last() == ws[n - 1]);
        let (done, open) = stretch_state(prev, id);
        let w = ws[n - 1];
        assert forall|i: int|
            0 <= i < n && (i == 0 || !records(ws[i - 1], id)) && (forall|k: int| i <= k < n ==> records(#[trigger] ws[k], id))
                implies stretch_state(ws.take(n), id).1 == Some((ws[i].start, ws[n - 1].end)) by {
            assert(records(ws[n - 1], id));
            if i < n - 1 {
                assert(open == Some((ws[i].start, ws[n - 2].end)));
            } else {
                if n - 1 > 0 {
                    assert(!records(ws[n - 2], id));
                }
                assert(open is None);
            }
        }
        assert forall|i: int, j: int|
            0 <= i <= j && j + 1 < n && (i == 0 || !records(ws[i - 1], id)) && !records(ws[j + 1], id) && (forall|k: int|
                i <= k <= j ==> records(#[trigger] ws[k], id)) implies #[trigger] stretch_state(ws.take(n), id).0.contains(
            (ws[i].start, ws[j].end),
        ) by {
            let d = stretch_state(ws.take(n), id).0;
            if j + 1 < n - 1 {
                assert(done.contains((ws[i].start, ws[j].end)));
                let m = choose|m: int| 0 <= m < done.len() && done[m] == (ws[i].start, ws[j].end);
                if !records(w, id) && open is Some {
                    assert(d == done.push(open.unwrap()));
                    assert(d[m] == done[m]);
                } else {
                    assert(d == done);
                }
            } else {
                assert(j == n - 2);
                assert(open == Some((ws[i].start, ws[n - 2].end)));
                assert(d == done.push((ws[i].start, ws[j].end)));
                assert(d[done.len() as int] == (ws[i].start, ws[j].end));
            }
        }
        let (d2, o2) = stretch_state(ws.take(n), id);
        if records(w, id) {
            match open {
                Some(c) => {
                    let i = choose|i: int| #[trigger] run_in(ws, id, i, n - 2, n - 1) && c == (ws[i].start, ws[n - 2].end);
                    assert(run_in(ws, id, i, n - 1, n));
                },
                None => {
                    if n - 1 > 0 {
                        assert(!records(ws[n - 2], id));
                    }
                    assert(run_in(ws, id, n - 1, n - 1, n));
                },
            }
        }
        assert forall|m: int|
            0 <= m < d2.len() implies closed_run(ws, id, n, #[trigger] d2[m]) by {
            if m < done.len() {
                assert(d2[m] == done[m]);
                assert(closed_run(ws, id, n - 1, done[m]));
                let (i, j) = choose|i: int, j: int|
                    #[trigger] run_in(ws, id, i, j, n - 1) && j + 1 < n - 1 && done[m] == (ws[i].start, ws[j].end);
                assert(run_in(ws, id, i, j, n));
            } else {
                let c = open.unwrap();
                assert(!records(w, id) && open is Some);
                let i = choose|i: int| #[trigger] run_in(ws, id, i, n - 2, n - 1) && c == (ws[i].start, ws[n - 2].end);
                assert(d2[m] == c);
                assert(run_in(ws, id, i, n - 2, n));
                assert(closed_run(ws, id, n, d2[m]));
            }
        }
    }
}

/// Windows `i` to `j`, among the first `n`, are a whole run of windows that recorded the
/// stage: all of them did, and the windows just before and after them (among the first
/// `n`), if any, did not.
/// Whether `x` is the stretch of a whole run that ended before window `n - 1`.
pub open spec fn closed_run(ws: Seq<WindowView>, id: Seq<char>, n: int, x: ((i64, u32, i32), (i64, u32, i32))) -> bool {
    exists|i: int, j: int| #[trigger] run_in(ws, id, i, j, n) && j + 1 < n && x == (ws[i].start, ws[j].end)
}

/// Whether `x` is the stretch of a whole run among the windows.
pub open spec fn run_stretch(ws: Seq<WindowView>, id: Seq<char>, x: ((i64, u32, i32), (i64, u32, i32))) -> bool {
    exists|i: int, j: int| #[trigger] run_in(ws, id, i, j, ws.len() as int) && x == (ws[i].start, ws[j].end)
}

pub open spec fn run_in(ws: Seq<WindowView>, id: Seq<char>, i: int, j: int, n: int) -> bool {
    &&& 0 <= i <= j < n
    &&& n <= ws.len()
    &&& i == 0 || !records(ws[i - 1], id)
    &&& j + 1 == n || !records(ws[j + 1], id)
    &&& forall|k: int| i <= k <= j ==> records(#[trigger] ws[k], id)
}

/// Every stretch that `stage_segments` lists is a whole run of windows that recorded the
/// stage, from its first window's start to its last window's end.
pub proof fn law_stretch_is_run(ws: Seq<WindowView>, id: Seq<char>)
    ensures
        forall|m: int| 0 <= m < stretches(ws, id).len() ==> run_stretch(ws, id, #[trigger] stretches(ws, id)[m]),
{
    let n = ws.len() as int;
    lemma_stretch_runs(ws, id, n);
    assert(ws.take(n) =~= ws);
    let (done, open) = stretch_state(ws, id);
    let r = stretches(ws, id);
    assert forall|m: int| 0 <= m < r.len() implies run_stretch(ws, id, #[trigger] r[m]) by {
        if m < done.len() {
            assert(r[m] == done[m]);
            assert(closed_run(ws, id, n, done[m]));
            let (i, j) = choose|i: int, j: int|
                #[trigger] run_in(ws, id, i, j, n) && j + 1 < n && done[m] == (ws[i].start, ws[j].end);
            assert(run_in(ws, id, i, j, n));
        } else {
            let c = open.unwrap();
            assert(r[m] == c);
            let i = choose|i: int| #[trigger] run_in(ws, id, i, n - 1, n) && c == (ws[i].start, ws[n - 1].end);
            assert(run_in(ws, id, i, n - 1, n));
        }
    }
}

/// Each run of consecutive windows that recorded the stage gives a stretch from the
/// first window's start to the last window's end: where windows `i` to `j` all recorded
/// it and the windows just before and after them (if any) did not, `stage_segments`
/// lists the stretch `(ws[i].start, ws[j].end)`.
pub proof fn law_stretch_per_run(ws: Seq<WindowView>, id: Seq<char>, i: int, j: int)
    requires
        0 <= i <= j < ws.len(),
        forall|k: int| i <= k <= j ==> records(#[trigger] ws[k], id),
        i == 0 || !records(ws[i - 1], id),
        j + 1 == ws.len() || !records(ws[j + 1], id),
    ensures
        stretches(ws, id).contains((ws[i].start, ws[j].end)),
{
    let n = ws.len() as int;
    lemma_stretch_runs(ws, id, n);
    assert(ws.take(n) =~= ws);
    let (done, open) = stretch_state(ws, id);
    if j + 1 == n {
        assert(open == Some((ws[i].start, ws[j].end)));
        assert(stretches(ws, id) == done.push((ws[i].start, ws[j].end)));
        assert(stretches(ws, id)[done.len() as int] == (ws[i].start, ws[j].end));
    } else {
        assert(done.contains((ws[i].start, ws[j].end)));
        let m = choose|m: int| 0 <= m < done.len() && done[m] == (ws[i].start, ws[j].end);
        if open is Some {
            assert(stretches(ws, id)[m] == done[m]);
        }
    }
}

// ---------------------------------------------------------------- the stages of the report

/// Stages are shown by number, then by name.
pub open spec fn stage_row_lt(a: IncludedStageView, b: IncludedStageView) -> bool {
    a.tally.order < b.tally.order || (a.tally.order == b.tally.order && seq_lt(a.tally.name, b.tally.name))
}

pub open spec fn row_goes_before(x: IncludedStageView) -> spec_fn(IncludedStageView) -> bool {
    |e: IncludedStageView| stage_row_lt(x, e)
}

/// The stable sort of the stages by number, then name.
pub open spec fn sort_stage_rows(s: Seq<IncludedStageView>) -> Seq<IncludedStageView>
    decreases s.len(),
{
    if s.len() == 0 {
        s
    } else {
        let r = sort_stage_rows(s.drop_last());
        r.insert(first_index(r, row_goes_before(s.last())), s.last())
    }
}

/// The stages of the report: the tallies over the windows, each with its stretches,
/// ordered by number, then name.
pub open spec fn stages_report(ws: Seq<WindowView>, stages: Seq<StageView>) -> Seq<IncludedStageView> {
    let t = tally_windows(ws, stages);
    sort_stage_rows(Seq::new(t.len(), |i: int| IncludedStageView { tally: t[i], segments: stretches(ws, t[i].id) }))
}

fn find_tally(acc: &Vec<IncludedStage>, id: &String) -> (j: usize)
    ensures
        j == first_index(tallies_of(acc@), tally_is(id@)),
        j <= acc.len(),
{
    let ghost t = tallies_of(acc@);
    let mut k: usize = 0;
    while k < acc.len()
        invariant
            k <= acc.len(),
            t == tallies_of(acc@),
            forall|m: int| 0 <= m < k ==> !tally_is(id@)(#[trigger] t[m]),
        decreases acc.len() - k,
    {
        if acc[k].id == *id {
            proof {
                lemma_first_index(t, tally_is(id@), k as int);
            }
            return k;
        }
        k = k + 1;
    }
    proof {
        lemma_first_index(t, tally_is(id@), k as int);
    }
    k
}

proof fn lemma_snap_total_prefix(ws: Seq<WindowView>, n: int)
    requires
        0 <= n <= ws.len(),
    ensures
        0 <= snap_total(ws.take(n)) <= snap_total(ws),
    decreases ws.len(),
{
    if n < ws.len() {
        assert(ws.drop_last().take(n) =~= ws.take(n));
        lemma_snap_total_prefix(ws.drop_last(), n);
    } else {
        assert(ws.take(n) =~= ws);
        lemma_snap_total_nonneg(ws);
    }
}

proof fn lemma_snap_total_nonneg(ws: Seq<WindowView>)
    ensures
        snap_total(ws) >= 0,
    decreases ws.len(),
{
    if ws.len() > 0 {
        lemma_snap_total_nonneg(ws.drop_last());
    }
}

/// Adds one recorded stage of a window to the tallies (see `tally_step`).
fn tally_one(acc: &mut Vec<IncludedStage>, snap_id: &String, snap_name: &String, w: &SessionWindow, project: &ProjectRecord, bound: Ghost<int>)
    requires
        forall|m: int| 0 <= m < old(acc).len() ==> (#[trigger] old(acc)@[m]).session_count < bound@,
        1 <= bound@ <= usize::MAX,
        forall|m: int| 0 <= m < old(acc).len() ==> (#[trigger] old(acc)@[m]).segments@.len() == 0,
    ensures
        tallies_of(final(acc)@) == tally_step(tallies_of(old(acc)@), SnapshotView { id: snap_id@, name: snap_name@ }, w@, project@.stages),
        forall|m: int| 0 <= m < final(acc).len() ==> (#[trigger] final(acc)@[m]).session_count <= bound@,
        forall|m: int| 0 <= m < final(acc).len() ==> (#[trigger] final(acc)@[m]).segments@.len() == 0,
{
    let ghost t0 = tallies_of(acc@);
    let ghost snap = SnapshotView { id: snap_id@, name: snap_name@ };
    let j = find_tally(acc, snap_id);
    if j < acc.len() {
        let ghost before = acc@;
        let si = find_stage(project, acc[j].id.as_str());
        let e = &mut acc[j];
        e.seconds = e.seconds.saturating_add(w.duration_seconds);
        e.session_count = e.session_count + 1;
        if e.first_used_at.as_str().unicode_len() == 0 || str_lt(w.started_at.as_str(), e.first_used_at.as_str()) {
            e.first_used_at = w.started_at.clone();
        }
        if e.last_used_at.as_str().unicode_len() == 0 || str_lt(e.last_used_at.as_str(), w.stopped_at.as_str()) {
            e.last_used_at = w.stopped_at.clone();
        }
        if si < project.stages.len() {
            e.name = project.stages[si].name.clone();
            e.order = project.stages[si].order;
            assert(project@.stages[si as int] == project.stages@[si as int]@);
        }
        proof {
            assert(acc@[j as int].tally() =~= tally_more(t0[j as int], w@, project@.stages));
            assert forall|m: int| 0 <= m < acc.len() && m != j implies #[trigger] acc@[m] == before[m] by {}
            assert(tallies_of(acc@) =~= t0.update(j as int, tally_more(t0[j as int], w@, project@.stages)));
        }
    } else {
        let si = find_stage(project, snap_id.as_str());
        let (name, order) = if si < project.stages.len() {
            assert(project@.stages[si as int] == project.stages@[si as int]@);
            (project.stages[si].name.clone(), project.stages[si].order)
        } else {
            (snap_name.clone(), usize::MAX)
        };
        let ghost before = acc@;
        acc.push(IncludedStage {
            id: snap_id.clone(),
            name: name,
            order: order,
            seconds: w.duration_seconds,
            session_count: 1,
            first_used_at: w.started_at.clone(),
            last_used_at: w.stopped_at.clone(),
            segments: Vec::new(),
        });
        proof {
            assert(acc@[j as int].tally() =~= tally_new(snap, w@, project@.stages));
            assert(tallies_of(acc@) =~= t0.push(tally_new(snap, w@, project@.stages)));
            assert forall|m: int| 0 <= m < acc.len() && m != j implies #[trigger] acc@[m] == before[m] by {}
        }
    }
}

/// The stages of the report from the windows (see `stages_report`).
pub fn included_stages_from(project: &ProjectRecord, windows: &Vec<SessionWindow>) -> (res: Vec<IncludedStage>)
    requires
        snap_total(window_views(windows@)) <= usize::MAX,
    ensures
        included_stage_views(res@) == stages_report(window_views(windows@), project@.stages),
{
    let ghost ws = window_views(windows@);
    let mut acc: Vec<IncludedStage> = Vec::new();
    let mut i: usize = 0;
    while i < windows.len()
        invariant
            i <= windows.len(),
            ws == window_views(windows@),
            snap_total(ws) <= usize::MAX,
            tallies_of(acc@) == tally_windows(ws.take(i as int), project@.stages),
            forall|m: int| 0 <= m < acc.len() ==> (#[trigger] acc@[m]).session_count <= snap_total(ws.take(i as int)),
            forall|m: int| 0 <= m < acc.len() ==> (#[trigger] acc@[m]).segments@.len() == 0,
        decreases windows.len() - i,
    {
        let w = &windows[i];
        proof {
            assert(ws[i as int] == w@);
            assert(ws.take(i + 1).drop_last() =~= ws.take(i as int));
            lemma_snap_total_prefix(ws, i as int + 1);
            lemma_snap_total_prefix(ws, i as int);
        }
        let ghost base = tallies_of(acc@);
        let ghost done = snap_total(ws.take(i as int));
        let mut j: usize = 0;
        while j < w.stages.len()
            invariant
                i < windows.len(),
                j <= w.stages.len(),
                ws[i as int] == w@,
                0 <= done,
                done + w.stages.len() <= usize::MAX,
                tallies_of(acc@) == tally_snaps(base, w@, w@.stages.take(j as int), project@.stages),
                forall|m: int| 0 <= m < acc.len() ==> (#[trigger] acc@[m]).session_count <= done + j,
                forall|m: int| 0 <= m < acc.len() ==> (#[trigger] acc@[m]).segments@.len() == 0,
            decreases w.stages.len() - j,
        {
            proof {
                assert(w@.stages.take(j + 1).drop_last() =~= w@.stages.take(j as int));
                assert(w@.stages[j as int] == w.stages@[j as int]@);
            }
            tally_one(&mut acc, &w.stages[j].id, &w.stages[j].name, w, project, Ghost(done + j + 1));
            j = j + 1;
        }
        assert(w@.stages.take(j as int) =~= w@.stages);
        i = i + 1;
    }
    assert(ws.take(i as int) =~= ws);
    let ghost t = tallies_of(acc@);
    let mut k: usize = 0;
    while k < acc.len()
        invariant
            k <= acc.len(),
            t == tallies_of(acc@),
            ws == window_views(windows@),
            forall|m: int| 0 <= m < k ==> (#[trigger] acc@[m])@ == (IncludedStageView { tally: t[m], segments: stretches(ws, t[m].id) }),
        decreases acc.len() - k,
    {
        let segs = stage_segments(windows, &acc[k].id);
        let ghost before = acc@;
        acc[k].segments = segs;
        proof {
            assert forall|m: int| 0 <= m < acc.len() && m != k implies #[trigger] acc@[m] == before[m] by {}
            assert(acc@[k as int].tally() == t[k as int]);
        }
        k = k + 1;
    }
    let ghost rows = Seq::new(t.len(), |m: int| IncludedStageView { tally: t[m], segments: stretches(ws, t[m].id) });
    assert(included_stage_views(acc@) =~= rows);
    sort_stages_for_report(&mut acc);
    acc
}

fn stage_row_lt_exec(a: &IncludedStage, b: &IncludedStage) -> (res: bool)
    ensures
        res == stage_row_lt(a@, b@),
{
    a.order < b.order || (a.order == b.order && str_lt(a.name.as_str(), b.name.as_str()))
}

fn sort_stages_for_report(v: &mut Vec<IncludedStage>)
    ensures
        included_stage_views(final(v)@) == sort_stage_rows(included_stage_views(old(v)@)),
{
    let ghost orig = included_stage_views(v@);
    let mut sorted: Vec<IncludedStage> = Vec::new();
    let ghost mut j: int = 0;
    assert(orig.take(0) =~= Seq::<IncludedStageView>::empty());
    assert(orig.skip(0) =~= orig);
    assert(included_stage_views(sorted@) =~= Seq::<IncludedStageView>::empty());
    while v.len() > 0
        invariant
            0 <= j <= orig.len(),
            v.len() == orig.len() - j,
            included_stage_views(sorted@) == sort_stage_rows(orig.take(j)),
            included_stage_views(v@) == orig.skip(j),
        decreases v.len(),
    {
        let ghost rest = included_stage_views(v@);
        let x = v.remove(0);
        proof {
            assert(x@ == rest[0]);
            assert(included_stage_views(v@) =~= rest.drop_first());
            assert(orig.skip(j + 1) =~= orig.skip(j).drop_first());
            assert(orig.take(j + 1).drop_last() =~= orig.take(j));
        }
        let ghost sv = included_stage_views(sorted@);
        let mut pos: usize = 0;
        while pos < sorted.len() && !stage_row_lt_exec(&x, &sorted[pos])
            invariant
                pos <= sorted.len(),
                sv == included_stage_views(sorted@),
                forall|m: int| 0 <= m < pos ==> !row_goes_before(x@)(#[trigger] sv[m]),
            decreases sorted.len() - pos,
        {
            pos = pos + 1;
        }
        proof {
            lemma_first_index(sv, row_goes_before(x@), pos as int);
        }
        sorted.insert(pos, x);
        assert(included_stage_views(sorted@) =~= sv.insert(pos as int, x@));
        proof {
            j = j + 1;
        }
    }
    assert(orig.take(j) =~= orig);
    *v = sorted;
}

/// The stages of a project's report: from the windows of its sessions (see
/// `stages_report` and `session_windows`).
pub fn included_stages(project: &ProjectRecord) -> (res: Vec<IncludedStage>)
    requires
        ends_computable(project@.sessions),
        snap_total(session_windows(project@.sessions)) <= usize::MAX,
    ensures
        included_stage_views(res@) == stages_report(session_windows(project@.sessions), project@.stages),
{
    let windows = project_session_windows(project);
    included_stages_from(project, &windows)
}

fn snaps_fit(windows: &Vec<SessionWindow>) -> (res: bool)
    ensures
        res == (snap_total(window_views(windows@)) <= usize::MAX),
{
    let ghost ws = window_views(windows@);
    let mut total: usize = 0;
    let mut i: usize = 0;
    while i < windows.len()
        invariant
            i <= windows.len(),
            ws == window_views(windows@),
            total == snap_total(ws.take(i as int)),
        decreases windows.len() - i,
    {
        proof {
            assert(ws.take(i + 1).drop_last() =~= ws.take(i as int));
            assert(ws[i as int] == windows@[i as int]@);
        }
        match total.checked_add(windows[i].stages.len()) {
            Some(t) => {
                total = t;
            },
            None => {
                proof {
                    lemma_snap_total_prefix(ws, i as int + 1);
                }
                return false;
            },
        }
        i = i + 1;
    }
    assert(ws.take(i as int) =~= ws);
    true
}

/// The stages of a project's report (see `included_stages`), or none when an end of a
/// session cannot be computed or the recorded stages are too many to count.
pub fn included_stages_checked(project: &ProjectRecord) -> (res: Option<Vec<IncludedStage>>)
    ensures
        res is Some <==> ends_computable(project@.sessions) && snap_total(session_windows(project@.sessions)) <= usize::MAX,
        res matches Some(v) ==> included_stage_views(v@) == stages_report(session_windows(project@.sessions), project@.stages),
{
    if !session_ends_computable(project) {
        return None;
    }
    let windows = project_session_windows(project);
    if !snaps_fit(&windows) {
        return None;
    }
    Some(included_stages_from(project, &windows))
}

// ---------------------------------------------------------------- stage pages

pub open spec fn stage_labels() -> Seq<Seq<char>> {
    seq!["Название"@, "Сеансов"@, "Время"@, "Первое использование"@, "Последнее использование"@]
}

pub open spec fn stage_widths() -> Seq<Seq<char>> {
    seq!["28%"@, "12%"@, "16%"@, "22%"@, "22%"@]
}

/// The row of a stage: its escaped name, its number of sessions, its time, and its
/// first and last use escaped.
pub open spec fn stage_cells(t: StageTally) -> Seq<Seq<char>> {
    seq![escaped(t.name), decimal(t.session_count as nat), duration_text(t.seconds), escaped(t.first_used_at), escaped(t.last_used_at)]
}

/// The pages listing the stages, eight to a page; none when there is no stage.
pub open spec fn stage_pages_html(st: Seq<IncludedStageView>) -> Seq<Seq<char>> {
    if st.len() == 0 {
        Seq::empty()
    } else {
        list_pages("Этапы"@, stage_labels(), stage_widths(), Seq::new(st.len(), |i: int| stage_cells(st[i].tally)), 8)
    }
}

/// The pages listing the stages (see `stage_pages_html`).
pub fn stage_pages(stages: &Vec<IncludedStage>) -> (res: Vec<String>)
    ensures
        string_views(res@) == stage_pages_html(included_stage_views(stages@)),
{
    let ghost sv = included_stage_views(stages@);
    if stages.len() == 0 {
        let out: Vec<String> = Vec::new();
        assert(string_views(out@) =~= Seq::<Seq<char>>::empty());
        return out;
    }
    let ghost want = Seq::new(sv.len(), |i: int| stage_cells(sv[i].tally));
    let mut rows: Vec<Vec<String>> = Vec::new();
    let mut k: usize = 0;
    while k < stages.len()
        invariant
            k <= stages.len(),
            sv == included_stage_views(stages@),
            want == Seq::new(sv.len(), |i: int| stage_cells(sv[i].tally)),
            table_rows_view(rows@) == want.take(k as int),
        decreases stages.len() - k,
    {
        let st = &stages[k];
        let mut row: Vec<String> = Vec::new();
        row.push(escape_html(st.name.as_str()));
        row.push(decimal_string(st.session_count as u64));
        row.push(format_duration(st.seconds));
        row.push(escape_html(st.first_used_at.as_str()));
        row.push(escape_html(st.last_used_at.as_str()));
        proof {
            assert(sv[k as int] == st@);
            assert(string_views(row@) =~= stage_cells(sv[k as int].tally));
        }
        let ghost before = table_rows_view(rows@);
        rows.push(row);
        assert(table_rows_view(rows@) =~= before.push(want[k as int]));
        assert(want.take(k + 1) =~= want.take(k as int).push(want[k as int]));
        k = k + 1;
    }
    assert(want.take(k as int) =~= want);
    let labels: Vec<&str> = vec!["Название", "Сеансов", "Время", "Первое использование", "Последнее использование"];
    let widths: Vec<&str> = vec!["28%", "12%", "16%", "22%", "22%"];
    assert(labels@.map_values(|s: &str| s@) =~= stage_labels());
    assert(widths@.map_values(|s: &str| s@) =~= stage_widths());
    list_pages_of("Этапы", labels.as_slice(), widths.as_slice(), &rows, 8)
}

// ---------------------------------------------------------------- the timeline

/// The row of a stage on the timeline: its escaped name, its number of sessions and its
/// time, and its track holding `blocks`, the stage's blocks as the caller placed them.
pub open spec fn timeline_row(t: StageTally, blocks: Seq<char>) -> Seq<char> {
    "<div class=\"timeline-row\"><div class=\"timeline-name\">"@ + escaped(t.name) + "<span class=\"timeline-summary\">"@
        + escaped(decimal(t.session_count as nat) + " • "@ + duration_text(t.seconds))
        + "</span></div><div class=\"timeline-track\">"@ + blocks + "</div></div>"@
}

/// What opens each timeline page: the timeline's bounds as written, then the axis.
pub open spec fn timeline_head(from: Seq<char>, to: Seq<char>, axis: Seq<char>) -> Seq<char> {
    "<p class=\"timeline-meta\">Границы таймлайна: "@ + escaped(from) + " -> "@ + escaped(to) + ".</p>"@ + axis
}

/// The timeline pages from row `start` on, eight rows to a page, starting with page `i`;
/// each page opens with `head`.
pub open spec fn timeline_pages_from(rows: Seq<Seq<char>>, head: Seq<char>, start: int, i: int) -> Seq<Seq<char>>
    decreases rows.len() - start,
{
    if start < 0 || start >= rows.len() {
        Seq::empty()
    } else {
        let end = if rows.len() - start <= 8 { rows.len() as int } else { start + 8 };
        seq![page_html(page_title("Таймлайн этапов"@, i), head + concat(rows.subrange(start, end)))]
            + timeline_pages_from(rows, head, end, i + 1)
    }
}

/// The rows of the stages' timeline, with the blocks of each stage.
pub open spec fn timeline_rows(stages: Seq<IncludedStage>, blocks: Seq<String>) -> Seq<Seq<char>> {
    Seq::new(stages.len(), |k: int| timeline_row(stages[k].tally(), blocks[k]@))
}

fn timeline_head_text(from: &str, to: &str, axis: &str) -> (res: Vec<char>)
    ensures
        res@ == timeline_head(from@, to@, axis@),
{
    let mut v: Vec<char> = Vec::new();
    append(&mut v, "<p class=\"timeline-meta\">Границы таймлайна: ");
    push_escaped(&mut v, from);
    append(&mut v, " -> ");
    push_escaped(&mut v, to);
    append(&mut v, ".</p>");
    append(&mut v, axis);
    assert(v@ =~= timeline_head(from@, to@, axis@));
    v
}

fn timeline_row_text(stage: &IncludedStage, blocks: &str) -> (res: Vec<char>)
    ensures
        res@ == timeline_row(stage.tally(), blocks@),
{
    let mut summary: Vec<char> = Vec::new();
    push_decimal(&mut summary, stage.session_count as u64);
    append(&mut summary, " • ");
    let d = format_duration(stage.seconds);
    append(&mut summary, d.as_str());
    let summary = string_of(summary.as_slice());
    let mut v: Vec<char> = Vec::new();
    append(&mut v, "<div class=\"timeline-row\"><div class=\"timeline-name\">");
    push_escaped(&mut v, stage.name.as_str());
    append(&mut v, "<span class=\"timeline-summary\">");
    push_escaped(&mut v, summary.as_str());
    append(&mut v, "</span></div><div class=\"timeline-track\">");
    append(&mut v, blocks);
    append(&mut v, "</div></div>");
    assert(v@ =~= timeline_row(stage.tally(), blocks@));
    v
}

/// The pages of the stages' timeline: eight stages to a page, each page opening with the
/// timeline's bounds `from` and `to` and its `axis` as the caller wrote them, then a row
/// per stage whose track holds `blocks[k]`, the blocks of stage `k` as the caller placed
/// them; none when there is no stage.
pub fn timeline_pages(stages: &Vec<IncludedStage>, blocks: &Vec<String>, from: &str, to: &str, axis: &str) -> (res: Vec<String>)
    requires
        blocks.len() == stages.len(),
    ensures
        string_views(res@) == timeline_pages_from(timeline_rows(stages@, blocks@), timeline_head(from@, to@, axis@), 0, 0),
{
    let ghost rows = timeline_rows(stages@, blocks@);
    let ghost head = timeline_head(from@, to@, axis@);
    let mut out: Vec<String> = Vec::new();
    let mut start: usize = 0;
    let mut i: usize = 0;
    assert(string_views(out@) + timeline_pages_from(rows, head, 0, 0) =~= timeline_pages_from(rows, head, 0, 0));
    while start < stages.len()
        invariant
            blocks.len() == stages.len(),
            i <= start <= stages.len(),
            rows == timeline_rows(stages@, blocks@),
            head == timeline_head(from@, to@, axis@),
            string_views(out@) + timeline_pages_from(rows, head, start as int, i as int) == timeline_pages_from(rows, head, 0, 0),
        decreases stages.len() - start,
    {
        let end = if stages.len() - start <= 8 { stages.len() } else { start + 8 };
        let mut body = timeline_head_text(from, to, axis);
        let mut k: usize = start;
        assert(rows.subrange(start as int, start as int) =~= Seq::<Seq<char>>::empty());
        assert(body@ =~= head + concat(rows.subrange(start as int, k as int)));
        while k < end
            invariant
                start <= k <= end,
                end <= stages.len(),
                blocks.len() == stages.len(),
                rows == timeline_rows(stages@, blocks@),
                body@ == head + concat(rows.subrange(start as int, k as int)),
            decreases end - k,
        {
            let row = timeline_row_text(&stages[k], blocks[k].as_str());
            let ghost before = body@;
            let row_text = string_of(row.as_slice());
            append(&mut body, row_text.as_str());
            proof {
                let sub = rows.subrange(start as int, k + 1);
                assert(sub.drop_last() =~= rows.subrange(start as int, k as int));
                assert(sub.last() == rows[k as int]);
                assert(body@ =~= head + concat(sub));
            }
            k = k + 1;
        }
        let t = titled("Таймлайн этапов", i);
        let text = string_of(body.as_slice());
        let pg = page(t.as_str(), text.as_str());
        let ghost before = string_views(out@);
        out.push(pg);
        proof {
            assert(string_views(out@) =~= before.push(pg@));
            let next = timeline_pages_from(rows, head, end as int, i + 1);
            assert(timeline_pages_from(rows, head, start as int, i as int) == seq![pg@] + next);
            assert(before.push(pg@) + next =~= before + (seq![pg@] + next));
        }
        start = end;
        i = i + 1;
    }
    assert(timeline_pages_from(rows, head, start as int, i as int) =~= Seq::<Seq<char>>::empty());
    assert(string_views(out@) =~= string_views(out@) + timeline_pages_from(rows, head, start as int, i as int));
    out
}

// ---------------------------------------------------------------- laws

/// Whether no two tallies are of the same stage.
pub open spec fn distinct_tallies(s: Seq<StageTally>) -> bool {
    forall|i: int, j: int| #![trigger s[i], s[j]] 0 <= i < j < s.len() ==> s[i].id != s[j].id
}

/// Whether no two rows are of the same stage.
pub open spec fn rows_distinct(s: Seq<IncludedStageView>) -> bool {
    forall|i: int, j: int| #![trigger s[i], s[j]] 0 <= i < j < s.len() ==> s[i].tally.id != s[j].tally.id
}

/// Whether no row should go before one that comes earlier in the list.
pub open spec fn rows_ordered(s: Seq<IncludedStageView>) -> bool {
    forall|i: int, j: int| #![trigger s[i], s[j]] 0 <= i < j < s.len() ==> !stage_row_lt(s[j], s[i])
}

proof fn lemma_tally_step_distinct(acc: Seq<StageTally>, snap: SnapshotView, w: WindowView, stages: Seq<StageView>)
    requires
        distinct_tallies(acc),
    ensures
        distinct_tallies(tally_step(acc, snap, w, stages)),
{
    lemma_first_index_bounds(acc, tally_is(snap.id));
    let j = first_index(acc, tally_is(snap.id));
    let r = tally_step(acc, snap, w, stages);
    assert forall|a: int, b: int| #![trigger r[a], r[b]] 0 <= a < b < r.len() implies r[a].id != r[b].id by {
        if j < acc.len() {
            assert(r[a].id == acc[a].id && r[b].id == acc[b].id);
        } else if b == acc.len() {
            assert(r[a] == acc[a]);
            assert(!tally_is(snap.id)(acc[a]));
        } else {
            assert(r[a] == acc[a] && r[b] == acc[b]);
        }
    }
}

proof fn lemma_tally_snaps_distinct(acc: Seq<StageTally>, w: WindowView, snaps: Seq<SnapshotView>, stages: Seq<StageView>)
    requires
        distinct_tallies(acc),
    ensures
        distinct_tallies(tally_snaps(acc, w, snaps, stages)),
    decreases snaps.len(),
{
    if snaps.len() > 0 {
        lemma_tally_snaps_distinct(acc, w, snaps.drop_last(), stages);
        lemma_tally_step_distinct(tally_snaps(acc, w, snaps.drop_last(), stages), snaps.last(), w, stages);
    }
}

proof fn lemma_tally_windows_distinct(ws: Seq<WindowView>, stages: Seq<StageView>)
    ensures
        distinct_tallies(tally_windows(ws, stages)),
    decreases ws.len(),
{
    if ws.len() > 0 {
        lemma_tally_windows_distinct(ws.drop_last(), stages);
        lemma_tally_snaps_distinct(tally_windows(ws.drop_last(), stages), ws.last(), ws.last().stages, stages);
    }
}

proof fn lemma_row_lt_order(a: IncludedStageView, b: IncludedStageView, c: IncludedStageView)
    ensures
        !stage_row_lt(a, a),
        stage_row_lt(a, b) && stage_row_lt(b, c) ==> stage_row_lt(a, c),
{
    lemma_seq_lt_order(a.tally.name, b.tally.name, c.tally.name);
}

proof fn lemma_sort_rows(s: Seq<IncludedStageView>)
    ensures
        rows_ordered(sort_stage_rows(s)),
        rows_distinct(s) ==> rows_distinct(sort_stage_rows(s)),
        forall|x: IncludedStageView| #[trigger] sort_stage_rows(s).contains(x) ==> s.contains(x),
    decreases s.len(),
{
    if s.len() > 0 {
        let t = s.drop_last();
        let x = s.last();
        lemma_sort_rows(t);
        let r = sort_stage_rows(t);
        lemma_first_index_bounds(r, row_goes_before(x));
        let p = first_index(r, row_goes_before(x));
        let q = r.insert(p, x);
        assert(q == sort_stage_rows(s));
        assert forall|i: int, j: int| #![trigger q[i], q[j]] 0 <= i < j < q.len() implies !stage_row_lt(q[j], q[i]) by {
            if j < p {
                assert(q[i] == r[i] && q[j] == r[j]);
            } else if j == p {
                assert(q[i] == r[i]);
                assert(!row_goes_before(x)(r[i]));
            } else if i < p {
                assert(q[i] == r[i] && q[j] == r[j - 1]);
                if i < j - 1 {
                    assert(!stage_row_lt(r[j - 1], r[i]));
                } else {
                    lemma_row_lt_order(r[i], r[i], r[i]);
                }
            } else if i == p {
                assert(q[j] == r[j - 1]);
                assert(row_goes_before(x)(r[p]));
                lemma_row_lt_order(r[j - 1], x, r[p]);
                lemma_row_lt_order(r[p], r[p], r[p]);
                if p < j - 1 {
                    assert(!stage_row_lt(r[j - 1], r[p]));
                }
            } else {
                assert(q[i] == r[i - 1] && q[j] == r[j - 1]);
                assert(!stage_row_lt(r[j - 1], r[i - 1]));
            }
        }
        assert forall|w: IncludedStageView| #[trigger] q.contains(w) implies s.contains(w) by {
            let k = choose|k: int| 0 <= k < q.len() && q[k] == w;
            if k == p {
                assert(s[s.len() - 1] == w);
            } else {
                let m = if k < p { k } else { k - 1 };
                assert(r[m] == w);
                assert(r.contains(w));
                let n = choose|n: int| 0 <= n < t.len() && t[n] == w;
                assert(s[n] == w);
            }
        }
        if rows_distinct(s) {
            assert forall|i: int, j: int| #![trigger t[i], t[j]] 0 <= i < j < t.len() implies t[i].tally.id != t[j].tally.id by {
                assert(t[i] == s[i] && t[j] == s[j]);
            }
            assert forall|i: int, j: int| #![trigger q[i], q[j]] 0 <= i < j < q.len() implies q[i].tally.id
                != q[j].tally.id by {
                if i != p && j != p {
                    let a = if i < p { i } else { i - 1 };
                    let b = if j < p { j } else { j - 1 };
                    assert(q[i] == r[a] && q[j] == r[b]);
                } else {
                    let k = if i == p { j } else { i };
                    let m = if k < p { k } else { k - 1 };
                    assert(q[k] == r[m]);
                    assert(r.contains(r[m]));
                    let n = choose|n: int| 0 <= n < t.len() && t[n] == r[m];
                    assert(s[n] == r[m]);
                    assert(s[n].tally.id != s[s.len() - 1].tally.id);
                }
            }
        }
    }
}

/// The stages of the report are listed once each, ordered by number, then name.
pub proof fn law_stage_report_rows(ws: Seq<WindowView>, stages: Seq<StageView>)
    ensures
        rows_ordered(stages_report(ws, stages)),
        rows_distinct(stages_report(ws, stages)),
{
    let t = tally_windows(ws, stages);
    lemma_tally_windows_distinct(ws, stages);
    let rows = Seq::new(t.len(), |i: int| IncludedStageView { tally: t[i], segments: stretches(ws, t[i].id) });
    assert forall|i: int, j: int| #![trigger rows[i], rows[j]] 0 <= i < j < rows.len() implies rows[i].tally.id
        != rows[j].tally.id by {
        assert(rows[i].tally == t[i] && rows[j].tally == t[j]);
    }
    lemma_sort_rows(rows);
}

} // verus!
