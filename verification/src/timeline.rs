//! Sessions placed in time: each session with a readable start becomes a window from its
//! start to its end, and the windows are ordered by start. Times are read and written
//! as RFC 3339 by chrono.
use vstd::prelude::*;
use crate::models::{snapshot_views, ProjectRecord, SessionRecord, SessionStageSnapshot, SessionView, SnapshotView};
use crate::seqs::{first_index, lemma_first_index, lemma_first_index_bounds};

verus! {

/// A moment as chrono's `DateTime<FixedOffset>` holds it: the seconds since the Unix
/// epoch (UTC), the nanoseconds within that second (above 999,999,999 in a leap second)
/// and the offset from UTC in seconds.
#[derive(Debug, Clone, Copy)]
pub struct Instant {
    secs: i64,
    nanos: u32,
    offset: i32,
}

impl View for Instant {
    type V = (i64, u32, i32);

    closed spec fn view(&self) -> (i64, u32, i32) {
        (self.secs, self.nanos, self.offset)
    }
}

impl Instant {
    /// The seconds since the Unix epoch (UTC).
    pub fn unix_seconds(&self) -> (res: i64)
        ensures
            res == self@.0,
    {
        self.secs
    }

    /// The nanoseconds within the second.
    pub fn subsec_nanos(&self) -> (res: u32)
        ensures
            res == self@.1,
    {
        self.nanos
    }

    /// The offset from UTC, in seconds.
    pub fn offset_seconds(&self) -> (res: i32)
        ensures
            res == self@.2,
    {
        self.offset
    }
}

pub open spec fn instant_opt(i: Option<Instant>) -> Option<(i64, u32, i32)> {
    match i {
        Some(x) => Some(x@),
        None => None,
    }
}

/// Whether moment `a` is earlier than moment `b` (offsets do not matter).
pub open spec fn earlier(a: (i64, u32, i32), b: (i64, u32, i32)) -> bool {
    a.0 < b.0 || (a.0 == b.0 && a.1 < b.1)
}

fn is_earlier(a: &Instant, b: &Instant) -> (res: bool)
    ensures
        res == earlier(a@, b@),
{
    a.secs < b.secs || (a.secs == b.secs && a.nanos < b.nanos)
}

/// What `chrono::DateTime::parse_from_rfc3339` makes of a string: the moment, or none
/// when the string is not RFC 3339.
pub uninterp spec fn rfc3339_parsed(s: Seq<char>) -> Option<(i64, u32, i32)>;

/// What chrono makes of a moment moved by `delta` seconds (`checked_add_signed` with
/// `TimeDelta::try_seconds(delta)`): none when the delta or the result is out of range.
pub uninterp spec fn seconds_added(moment: (i64, u32, i32), delta: i64) -> Option<(i64, u32, i32)>;

/// What `chrono::DateTime::to_rfc3339` writes for a moment in its offset.
pub uninterp spec fn rfc3339_text(moment: (i64, u32, i32)) -> Option<Seq<char>>;

/// `chrono::DateTime::parse_from_rfc3339`: the moment a string names. Its result is named
/// `rfc3339_parsed`; a parsed moment can be written again (chrono documents that
/// `from_timestamp(timestamp, subsec_nanos)` gives the moment back).
#[verifier::external_body]
fn parse_timestamp(value: &str) -> (res: Option<Instant>)
    ensures
        instant_opt(res) == rfc3339_parsed(value@),
        res matches Some(i) ==> rfc3339_text(i@) is Some,
{
    match chrono::DateTime::parse_from_rfc3339(value) {
        Ok(d) => Some(Instant { secs: d.timestamp(), nanos: d.timestamp_subsec_nanos(), offset: d.offset().local_minus_utc() }),
        Err(_) => None,
    }
}

/// `chrono::DateTime::checked_add_signed` with `TimeDelta::try_seconds(delta)`: the moment
/// `delta` seconds later in the same offset. Its result is named `seconds_added`; the
/// range of dates that chrono accepts is not stated here. Outside a leap second the
/// result is the timestamp plus `delta` with the same nanoseconds and offset.
#[verifier::external_body]
fn add_seconds(start: &Instant, delta: i64) -> (res: Option<Instant>)
    ensures
        instant_opt(res) == seconds_added(start@, delta),
        res matches Some(i) ==> rfc3339_text(i@) is Some,
        res matches Some(i) ==> start.nanos < 1_000_000_000 ==> i@ == (
            (start.secs + delta) as i64,
            start.nanos,
            start.offset,
        ),
{
    let offset = chrono::FixedOffset::east_opt(start.offset)?;
    let moment = chrono::DateTime::from_timestamp(start.secs, start.nanos)?.with_timezone(&offset);
    let shifted = moment.checked_add_signed(chrono::TimeDelta::try_seconds(delta)?)?;
    Some(Instant { secs: shifted.timestamp(), nanos: shifted.timestamp_subsec_nanos(), offset: shifted.offset().local_minus_utc() })
}

/// `chrono::DateTime::to_rfc3339` of a moment; its result is named `rfc3339_text`.
#[verifier::external_body]
fn instant_text(moment: &Instant) -> (res: Option<String>)
    ensures
        match res {
            Some(s) => rfc3339_text(moment@) == Some(s@),
            None => rfc3339_text(moment@) is None,
        },
{
    let offset = chrono::FixedOffset::east_opt(moment.offset)?;
    let d = chrono::DateTime::from_timestamp(moment.secs, moment.nanos)?.with_timezone(&offset);
    Some(d.to_rfc3339())
}

/// A session placed in time.
#[derive(Debug)]
pub struct SessionWindow {
    pub start: Instant,
    pub end: Instant,
    pub started_at: String,
    pub stopped_at: String,
    pub duration_seconds: u64,
    pub stages: Vec<SessionStageSnapshot>,
}

#[verifier::ext_equal]
pub struct WindowView {
    pub start: (i64, u32, i32),
    pub end: (i64, u32, i32),
    pub started_at: Seq<char>,
    pub stopped_at: Seq<char>,
    pub duration_seconds: u64,
    pub stages: Seq<SnapshotView>,
}

impl View for SessionWindow {
    type V = WindowView;

    open spec fn view(&self) -> WindowView {
        WindowView {
            start: self.start@,
            end: self.end@,
            started_at: self.started_at@,
            stopped_at: self.stopped_at@,
            duration_seconds: self.duration_seconds,
            stages: snapshot_views(self.stages@),
        }
    }
}

pub open spec fn window_views(s: Seq<SessionWindow>) -> Seq<WindowView> {
    s.map_values(|w: SessionWindow| w@)
}

/// The readable stop of a session, if any.
pub open spec fn stop_parsed(s: SessionView) -> Option<(i64, u32, i32)> {
    match s.stopped_at {
        Some(t) => rfc3339_parsed(t),
        None => None,
    }
}

/// Whether the end of every session with a readable start can be computed: where the
/// stop is missing or unreadable, the start moved by the duration must be a date chrono
/// accepts (the report adds it with `+`, which panics otherwise).
pub open spec fn ends_computable(sessions: Seq<SessionView>) -> bool {
    forall|k: int|
        0 <= k < sessions.len() && (#[trigger] rfc3339_parsed(sessions[k].started_at)) is Some && stop_parsed(sessions[k]) is None
            ==> seconds_added(rfc3339_parsed(sessions[k].started_at).unwrap(), sessions[k].duration_seconds as i64) is Some
}

/// The end of a session: its readable stop, else its start moved by its duration.
pub open spec fn session_end(s: SessionView, start: (i64, u32, i32)) -> (i64, u32, i32) {
    match stop_parsed(s) {
        Some(e) => e,
        None => seconds_added(start, s.duration_seconds as i64).unwrap(),
    }
}

/// The window of a session: none when its start is unreadable, when it does not end
/// after it starts, or when it has no time. A session with no stop is shown as stopped
/// at its end.
pub open spec fn window_of(s: SessionView) -> Option<WindowView> {
    match rfc3339_parsed(s.started_at) {
        None => None,
        Some(start) => {
            let end = session_end(s, start);
            if !earlier(start, end) || s.duration_seconds == 0 {
                None
            } else {
                Some(WindowView {
                    start: start,
                    end: end,
                    started_at: s.started_at,
                    stopped_at: match s.stopped_at {
                        Some(t) => t,
                        None => rfc3339_text(end).unwrap(),
                    },
                    duration_seconds: s.duration_seconds,
                    stages: s.stages,
                })
            }
        },
    }
}

/// The windows of the sessions that have one, in the sessions' order.
pub open spec fn windows_in_order(sessions: Seq<SessionView>) -> Seq<WindowView>
    decreases sessions.len(),
{
    if sessions.len() == 0 {
        Seq::empty()
    } else {
        let rest = windows_in_order(sessions.drop_last());
        match window_of(sessions.last()) {
            Some(w) => rest.push(w),
            None => rest,
        }
    }
}

pub open spec fn starts_before(x: WindowView) -> spec_fn(WindowView) -> bool {
    |e: WindowView| earlier(x.start, e.start)
}

/// The stable sort of windows by start.
pub open spec fn sort_windows(s: Seq<WindowView>) -> Seq<WindowView>
    decreases s.len(),
{
    if s.len() == 0 {
        s
    } else {
        let r = sort_windows(s.drop_last());
        r.insert(first_index(r, starts_before(s.last())), s.last())
    }
}

/// The windows of a project's sessions, ordered by start.
pub open spec fn session_windows(sessions: Seq<SessionView>) -> Seq<WindowView> {
    sort_windows(windows_in_order(sessions))
}

fn sort_window_list(v: &mut Vec<SessionWindow>)
    ensures
        window_views(final(v)@) == sort_windows(window_views(old(v)@)),
{
    let ghost orig = window_views(v@);
    let mut sorted: Vec<SessionWindow> = Vec::new();
    let ghost mut j: int = 0;
    assert(orig.take(0) =~= Seq::<WindowView>::empty());
    assert(orig.skip(0) =~= orig);
    assert(window_views(sorted@) =~= Seq::<WindowView>::empty());
    while v.len() > 0
        invariant
            0 <= j <= orig.len(),
            v.len() == orig.len() - j,
            window_views(sorted@) == sort_windows(orig.take(j)),
            window_views(v@) == orig.skip(j),
        decreases v.len(),
    {
        let ghost rest = window_views(v@);
        let x = v.remove(0);
        proof {
            assert(x@ == rest[0]);
            assert(window_views(v@) =~= rest.drop_first());
            assert(orig.skip(j + 1) =~= orig.skip(j).drop_first());
            assert(orig.take(j + 1).drop_last() =~= orig.take(j));
        }
        let ghost sv = window_views(sorted@);
        let mut pos: usize = 0;
        while pos < sorted.len() && !is_earlier(&x.start, &sorted[pos].start)
            invariant
                pos <= sorted.len(),
                sv == window_views(sorted@),
                forall|m: int| 0 <= m < pos ==> !starts_before(x@)(#[trigger] sv[m]),
            decreases sorted.len() - pos,
        {
            pos = pos + 1;
        }
        proof {
            lemma_first_index(sv, starts_before(x@), pos as int);
        }
        sorted.insert(pos, x);
        assert(window_views(sorted@) =~= sv.insert(pos as int, x@));
        proof {
            j = j + 1;
        }
    }
    assert(orig.take(j) =~= orig);
    *v = sorted;
}

/// The window of one session (see `window_of`).
fn window_of_session(s: &SessionRecord) -> (res: Option<SessionWindow>)
    requires
        rfc3339_parsed(s@.started_at) is Some && stop_parsed(s@) is None ==> seconds_added(
            rfc3339_parsed(s@.started_at).unwrap(),
            s@.duration_seconds as i64,
        ) is Some,
    ensures
        match res {
            Some(w) => window_of(s@) == Some(w@),
            None => window_of(s@) is None,
        },
{
    let start = match parse_timestamp(s.started_at.as_str()) {
        Some(t) => t,
        None => {
            return None;
        },
    };
    let parsed_stop = match &s.stopped_at {
        Some(t) => parse_timestamp(t.as_str()),
        None => None,
    };
    let end = match parsed_stop {
        Some(e) => e,
        None => match add_seconds(&start, s.duration_seconds as i64) {
            Some(e) => e,
            None => {
                return None;
            },
        },
    };
    if !is_earlier(&start, &end) || s.duration_seconds == 0 {
        return None;
    }
    let stopped_at = match &s.stopped_at {
        Some(t) => t.clone(),
        None => match instant_text(&end) {
            Some(text) => text,
            None => {
                return None;
            },
        },
    };
    let w = SessionWindow {
        start: start,
        end: end,
        started_at: s.started_at.clone(),
        stopped_at: stopped_at,
        duration_seconds: s.duration_seconds,
        stages: SessionStageSnapshot::duplicate_all(&s.stages),
    };
    assert(w@ =~= window_of(s@).unwrap());
    Some(w)
}

/// The windows of a project's sessions, ordered by start (see `session_windows`).
pub fn project_session_windows(project: &ProjectRecord) -> (res: Vec<SessionWindow>)
    requires
        ends_computable(project@.sessions),
    ensures
        window_views(res@) == session_windows(project@.sessions),
{
    let ghost sv = project@.sessions;
    let mut out: Vec<SessionWindow> = Vec::new();
    let mut k: usize = 0;
    while k < project.sessions.len()
        invariant
            k <= project.sessions.len(),
            sv == project@.sessions,
            sv.len() == project.sessions.len(),
            ends_computable(sv),
            window_views(out@) == windows_in_order(sv.take(k as int)),
        decreases project.sessions.len() - k,
    {
        let s = &project.sessions[k];
        proof {
            assert(sv[k as int] == s@);
            assert(sv.take(k + 1).drop_last() =~= sv.take(k as int));
            if rfc3339_parsed(sv[k as int].started_at) is Some {
            }
        }
        match window_of_session(s) {
            Some(w) => {
                let ghost before = window_views(out@);
                out.push(w);
                assert(window_views(out@) =~= before.push(window_of(sv[k as int]).unwrap()));
            },
            None => {},
        }
        k = k + 1;
    }
    assert(sv.take(k as int) =~= sv);
    sort_window_list(&mut out);
    out
}

/// Whether the end of every session can be computed (see `ends_computable`).
pub fn session_ends_computable(project: &ProjectRecord) -> (res: bool)
    ensures
        res == ends_computable(project@.sessions),
{
    let ghost sv = project@.sessions;
    let mut k: usize = 0;
    while k < project.sessions.len()
        invariant
            k <= project.sessions.len(),
            sv == project@.sessions,
            sv.len() == project.sessions.len(),
            forall|m: int|
                0 <= m < k && (#[trigger] rfc3339_parsed(sv[m].started_at)) is Some && stop_parsed(sv[m]) is None
                    ==> seconds_added(rfc3339_parsed(sv[m].started_at).unwrap(), sv[m].duration_seconds as i64) is Some,
        decreases project.sessions.len() - k,
    {
        let s = &project.sessions[k];
        assert(sv[k as int] == s@);
        match parse_timestamp(s.started_at.as_str()) {
            Some(start) => {
                let parsed_stop = match &s.stopped_at {
                    Some(t) => parse_timestamp(t.as_str()),
                    None => None,
                };
                if parsed_stop.is_none() {
                    if add_seconds(&start, s.duration_seconds as i64).is_none() {
                        assert(stop_parsed(sv[k as int]) is None);
                        assert((#[trigger] rfc3339_parsed(sv[k as int].started_at)) is Some);
                        return false;
                    }
                }
            },
            None => {},
        }
        k = k + 1;
    }
    true
}

// ---------------------------------------------------------------- laws

/// Whether no window starts before one that comes earlier in the list.
pub open spec fn ordered_by_start(s: Seq<WindowView>) -> bool {
    forall|i: int, j: int| #![trigger s[i], s[j]] 0 <= i < j < s.len() ==> !earlier(s[j].start, s[i].start)
}

/// Whether a window starts before it ends and has time.
pub open spec fn proper_window(w: WindowView) -> bool {
    earlier(w.start, w.end) && w.duration_seconds > 0
}

proof fn lemma_windows_proper(sessions: Seq<SessionView>)
    ensures
        forall|w: WindowView| #[trigger] windows_in_order(sessions).contains(w) ==> proper_window(w),
    decreases sessions.len(),
{
    if sessions.len() > 0 {
        let rest = windows_in_order(sessions.drop_last());
        lemma_windows_proper(sessions.drop_last());
        if let Some(w) = window_of(sessions.last()) {
            assert forall|v: WindowView| #[trigger] rest.push(w).contains(v) implies proper_window(v) by {
                let k = choose|k: int| 0 <= k < rest.push(w).len() && rest.push(w)[k] == v;
                if k < rest.len() {
                    assert(rest[k] == v);
                    assert(rest.contains(v));
                }
            }
        }
    }
}

proof fn lemma_sort_windows(s: Seq<WindowView>)
    ensures
        ordered_by_start(sort_windows(s)),
        forall|w: WindowView| #[trigger] sort_windows(s).contains(w) ==> s.contains(w),
    decreases s.len(),
{
    if s.len() > 0 {
        let t = s.drop_last();
        let x = s.last();
        lemma_sort_windows(t);
        let r = sort_windows(t);
        lemma_first_index_bounds(r, starts_before(x));
        let p = first_index(r, starts_before(x));
        let q = r.insert(p, x);
        assert(q == sort_windows(s));
        assert forall|i: int, j: int| #![trigger q[i], q[j]] 0 <= i < j < q.len() implies !earlier(q[j].start, q[i].start) by {
            if j < p {
                assert(q[i] == r[i] && q[j] == r[j]);
            } else if j == p {
                assert(q[i] == r[i]);
                assert(!starts_before(x)(r[i]));
            } else if i < p {
                assert(q[i] == r[i] && q[j] == r[j - 1]);
                if i < j - 1 {
                    assert(!earlier(r[j - 1].start, r[i].start));
                }
            } else if i == p {
                assert(q[j] == r[j - 1]);
                assert(starts_before(x)(r[p]));
                if p < j - 1 {
                    assert(!earlier(r[j - 1].start, r[p].start));
                }
            } else {
                assert(q[i] == r[i - 1] && q[j] == r[j - 1]);
                assert(!earlier(r[j - 1].start, r[i - 1].start));
            }
        }
        assert forall|w: WindowView| #[trigger] q.contains(w) implies s.contains(w) by {
            let k = choose|k: int| 0 <= k < q.len() && q[k] == w;
            if k == p {
                assert(s[s.len() - 1] == w);
            } else {
                let m = if k < p { k } else { k - 1 };
                assert(r[m] == w);
                assert(r.contains(w));
                assert(t.contains(w));
                let n = choose|n: int| 0 <= n < t.len() && t[n] == w;
                assert(s[n] == w);
            }
        }
    }
}

/// The windows of a project's sessions come ordered by start, and each starts before it
/// ends and has time.
pub proof fn law_windows_ordered(sessions: Seq<SessionView>)
    ensures
        ordered_by_start(session_windows(sessions)),
        forall|k: int| 0 <= k < session_windows(sessions).len() ==> proper_window(#[trigger] session_windows(sessions)[k]),
{
    let w = windows_in_order(sessions);
    lemma_sort_windows(w);
    lemma_windows_proper(sessions);
    assert forall|k: int| 0 <= k < session_windows(sessions).len() implies proper_window(
        #[trigger] session_windows(sessions)[k],
    ) by {
        assert(session_windows(sessions).contains(session_windows(sessions)[k]));
    }
}

} // verus!
