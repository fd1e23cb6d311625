//! The segment resolver: divides a fact log into time segments and phases, converts
//! between video time and match time, and finds the phase of a match-clock position.
//!
//! - The match clock is cumulative; a phase-start fact carries its own `[start, end]`.
//! - Stoppages carve the running time of a video-mode phase (in timer mode they are
//!   markers and carve nothing).
//! - A phase whose start anchor carries a match clock re-anchors the match clock there;
//!   otherwise it continues from the end of the previous phase.
//! - A shootout is degenerate: the match clock stays at its start, only video advances.

use vstd::prelude::*;

use crate::clock::{sat, FactAnchor, MatchClock, Seconds, VideoClock};
use crate::configuration::PhaseKind;
use crate::facts::{ControlFact, MatchFact, MatchFactPayload, PhaseStartPayload, StoppageKind};
use crate::ids::FactId;
use crate::projection::time_segment::{TimeSegment, TimeSegmentKind};
use crate::seqs::{count_where, first_index, lemma_count_where_bound, lemma_count_where_step,
    lemma_first_index_is, lemma_first_index_none};
use crate::sorting::{sorted_seq, stable_sort, KeyOrder};

verus! {

/// A phase as found in the fact log (in order of appearance after sorting by start).
#[derive(Debug, Clone, Copy, PartialEq, Eq, Structural)]
pub struct Phase {
    pub fact_id: FactId,
    pub kind: PhaseKind,
    pub match_elapsed_start: Option<Seconds>,
    pub match_elapsed_end: Option<Seconds>,
    pub video_elapsed_start: Option<Seconds>,
    pub video_elapsed_end: Option<Seconds>,
}

/// No two phases share a fact id (so a fact id names one phase).
pub open spec fn distinct_phase_ids(phases: Seq<Phase>) -> bool {
    forall|a: int, b: int| 0 <= a < b < phases.len() ==> (#[trigger] phases[a]).fact_id != (#[trigger] phases[b]).fact_id
}

/// Time segments and phases of a fact log.
#[derive(Debug, Clone, PartialEq)]
pub struct SegmentResolver {
    pub segments: Vec<TimeSegment>,
    /// Phases made from the phase-start facts, ordered by their start.
    pub phases: Vec<Phase>,
}

/// A phase-start fact.
#[derive(Debug, Clone, Copy, PartialEq, Eq, Structural)]
pub struct PhaseEntry {
    pub fact_id: FactId,
    pub payload: PhaseStartPayload,
}

/// A stoppage fact (without its note).
#[derive(Debug, Clone, Copy, PartialEq, Eq, Structural)]
pub struct StoppageEntry {
    pub fact_id: FactId,
    pub kind: StoppageKind,
    pub start_anchor: FactAnchor,
    pub end_anchor: Option<FactAnchor>,
}

/// A stoppage together with the reading it is ordered by inside its phase.
#[derive(Debug, Clone, Copy, PartialEq, Eq, Structural)]
pub struct KeyedStoppage {
    pub key: i64,
    pub entry: StoppageEntry,
}

/// The phase-start facts of `facts`, in log order.
pub open spec fn phase_entries(facts: Seq<MatchFact>) -> Seq<PhaseEntry>
    decreases facts.len(),
{
    if facts.len() == 0 {
        Seq::empty()
    } else {
        let rest = phase_entries(facts.drop_last());
        match facts.last().payload {
            MatchFactPayload::Control(ControlFact::PhaseStart(p)) =>
                rest.push(PhaseEntry { fact_id: facts.last().id, payload: p }),
            _ => rest,
        }
    }
}

/// The stoppage facts of `facts`, in log order.
pub open spec fn stoppage_entries(facts: Seq<MatchFact>) -> Seq<StoppageEntry>
    decreases facts.len(),
{
    if facts.len() == 0 {
        Seq::empty()
    } else {
        let rest = stoppage_entries(facts.drop_last());
        match facts.last().payload {
            MatchFactPayload::Control(ControlFact::Stoppage(p)) => rest.push(StoppageEntry {
                fact_id: facts.last().id,
                kind: p.kind,
                start_anchor: p.start_anchor,
                end_anchor: p.end_anchor,
            }),
            _ => rest,
        }
    }
}

/// The reading phases are ordered by: video seconds, else match seconds, else zero.
pub open spec fn primary_ms(a: FactAnchor) -> i64 {
    match a.video_ms() {
        Some(v) => v,
        None => match a.match_ms() {
            Some(m) => m,
            None => 0,
        },
    }
}

impl KeyOrder for PhaseEntry {
    open spec fn key_le(self, other: Self) -> bool {
        primary_ms(self.payload.start_anchor) <= primary_ms(other.payload.start_anchor)
    }

    proof fn lemma_total(a: Self, b: Self) {
    }

    proof fn lemma_trans(a: Self, b: Self, c: Self) {
    }

    fn le(&self, other: &Self) -> (r: bool) {
        primary_seconds(self.payload.start_anchor).millis <= primary_seconds(other.payload.start_anchor).millis
    }
}

impl KeyOrder for KeyedStoppage {
    open spec fn key_le(self, other: Self) -> bool {
        self.key <= other.key
    }

    proof fn lemma_total(a: Self, b: Self) {
    }

    proof fn lemma_trans(a: Self, b: Self, c: Self) {
    }

    fn le(&self, other: &Self) -> (r: bool) {
        self.key <= other.key
    }
}

fn primary_seconds(anchor: FactAnchor) -> (r: Seconds)
    ensures
        r.millis == primary_ms(anchor),
{
    match anchor.video_elapsed_seconds() {
        Some(v) => v,
        None => match anchor.match_elapsed_seconds() {
            Some(m) => m,
            None => Seconds::zero(),
        },
    }
}

// ── the derivation, stated over sequences ──

/// Match-clock start of a phase: its explicit match clock, else the running baseline.
pub open spec fn phase_match_start(e: PhaseEntry, rolling: i64) -> i64 {
    match e.payload.start_anchor.match_ms() {
        Some(m) => m,
        None => rolling,
    }
}

/// The phase has video readings at both ends (video mode).
pub open spec fn has_video_range(e: PhaseEntry) -> bool {
    e.payload.start_anchor.video_ms() is Some && e.payload.end_anchor.video_ms() is Some
}

/// Whether stoppage `s` starts inside the phase: on the video axis when the phase has
/// a video range, else on the match axis when the phase end carries a match clock.
pub open spec fn stoppage_in_phase(e: PhaseEntry, match_start: i64, s: StoppageEntry) -> bool {
    if has_video_range(e) {
        match s.start_anchor.video_ms() {
            Some(x) => e.payload.start_anchor.video_ms().unwrap() <= x && x < e.payload.end_anchor.video_ms().unwrap(),
            None => false,
        }
    } else {
        match (e.payload.end_anchor.match_ms(), s.start_anchor.match_ms()) {
            (Some(me), Some(x)) => match_start <= x && x < me,
            _ => false,
        }
    }
}

/// The reading a contained stoppage is ordered by.
pub open spec fn stoppage_key(e: PhaseEntry, s: StoppageEntry) -> i64 {
    if has_video_range(e) {
        s.start_anchor.video_ms().unwrap()
    } else {
        s.start_anchor.match_ms().unwrap()
    }
}

/// The stoppages inside the phase, with their keys, in log order.
pub open spec fn keyed_in_phase(e: PhaseEntry, match_start: i64, stops: Seq<StoppageEntry>) -> Seq<KeyedStoppage>
    decreases stops.len(),
{
    if stops.len() == 0 {
        Seq::empty()
    } else {
        let rest = keyed_in_phase(e, match_start, stops.drop_last());
        if stoppage_in_phase(e, match_start, stops.last()) {
            rest.push(KeyedStoppage { key: stoppage_key(e, stops.last()), entry: stops.last() })
        } else {
            rest
        }
    }
}

/// The stoppages inside the phase, stably ordered by their start.
pub open spec fn contained_stoppages(e: PhaseEntry, match_start: i64, stops: Seq<StoppageEntry>) -> Seq<KeyedStoppage> {
    sorted_seq(keyed_in_phase(e, match_start, stops))
}

/// Video time a stoppage takes out of `[vs, ve)` (zero unless both its ends carry video).
pub open spec fn stopped_part(vs: i64, ve: i64, s: StoppageEntry) -> i64 {
    match (s.start_anchor.video_ms(), s.end_anchor) {
        (Some(st), Some(end_anchor)) => match end_anchor.video_ms() {
            Some(en) => {
                let cs = if st >= vs { st } else { vs };
                let ce = if en <= ve { en } else { ve };
                let d = sat(ce - cs);
                if d >= 0 { d } else { 0 }
            },
            None => 0,
        },
        _ => 0,
    }
}

/// Sum of the stopped parts of `stops`, accumulated in order.
pub open spec fn stopped_total(vs: i64, ve: i64, stops: Seq<KeyedStoppage>) -> i64
    decreases stops.len(),
{
    if stops.len() == 0 {
        0
    } else {
        sat(stopped_total(vs, ve, stops.drop_last()) + stopped_part(vs, ve, stops.last().entry))
    }
}

/// Running (not stopped) video time of a video-mode phase.
pub open spec fn running_total(vs: i64, ve: i64, stops: Seq<KeyedStoppage>) -> i64 {
    let d = sat(sat(ve - vs) - stopped_total(vs, ve, stops));
    if d >= 0 { d } else { 0 }
}

/// Match-clock end of a phase: its explicit match clock; for a shootout its start; for
/// a video-mode phase its start plus the running time; else its start.
pub open spec fn phase_match_end(e: PhaseEntry, match_start: i64, stops: Seq<KeyedStoppage>) -> i64 {
    match e.payload.end_anchor.match_ms() {
        Some(m) => m,
        None => {
            if e.payload.kind == PhaseKind::Shootout {
                match_start
            } else if has_video_range(e) {
                sat(match_start + running_total(
                    e.payload.start_anchor.video_ms().unwrap(),
                    e.payload.end_anchor.video_ms().unwrap(),
                    stops,
                ))
            } else {
                match_start
            }
        },
    }
}

pub open spec fn opt_seconds(x: Option<i64>) -> Option<Seconds> {
    match x {
        Some(m) => Some(Seconds { millis: m }),
        None => None,
    }
}

/// Where the carving of a video-mode phase stands after some stoppages.
pub struct CarveState {
    pub cursor_match: i64,
    pub cursor_video: i64,
    pub prev: FactId,
    pub segments: Seq<TimeSegment>,
}

/// Carving step for one stoppage: a running segment up to its start, then a stopped
/// segment over its (clamped) video range.
pub open spec fn carve_step(st: CarveState, kind: PhaseKind, video_end: i64, s: StoppageEntry) -> CarveState {
    match s.start_anchor.video_ms() {
        None => st,
        Some(s_start) => {
            let s_end = match s.end_anchor {
                Some(a) => match a.video_ms() {
                    Some(x) => x,
                    None => s_start,
                },
                None => s_start,
            };
            let cs = if s_start >= st.cursor_video { s_start } else { st.cursor_video };
            let ce = if s_end <= video_end { s_end } else { video_end };
            let st1 = if cs > st.cursor_video {
                let d = sat(cs - st.cursor_video);
                CarveState {
                    cursor_match: sat(st.cursor_match + d),
                    cursor_video: cs,
                    prev: st.prev,
                    segments: st.segments.push(TimeSegment {
                        kind: TimeSegmentKind::Running,
                        phase_kind: Some(kind),
                        match_elapsed_start: Seconds { millis: st.cursor_match },
                        match_elapsed_end: Some(Seconds { millis: sat(st.cursor_match + d) }),
                        video_elapsed_start: Some(Seconds { millis: st.cursor_video }),
                        video_elapsed_end: Some(Seconds { millis: cs }),
                        start_fact_id: Some(st.prev),
                        end_fact_id: Some(s.fact_id),
                        stoppage_kind: None,
                    }),
                }
            } else {
                st
            };
            if ce > cs {
                CarveState {
                    cursor_match: st1.cursor_match,
                    cursor_video: ce,
                    prev: s.fact_id,
                    segments: st1.segments.push(TimeSegment {
                        kind: TimeSegmentKind::Stopped,
                        phase_kind: Some(kind),
                        match_elapsed_start: Seconds { millis: st1.cursor_match },
                        match_elapsed_end: Some(Seconds { millis: st1.cursor_match }),
                        video_elapsed_start: Some(Seconds { millis: cs }),
                        video_elapsed_end: Some(Seconds { millis: ce }),
                        start_fact_id: Some(s.fact_id),
                        end_fact_id: Some(s.fact_id),
                        stoppage_kind: Some(s.kind),
                    }),
                }
            } else {
                st1
            }
        },
    }
}

/// The carving state after all of `stops`, in order.
pub open spec fn carve_all(init: CarveState, kind: PhaseKind, video_end: i64, stops: Seq<KeyedStoppage>) -> CarveState
    decreases stops.len(),
{
    if stops.len() == 0 {
        init
    } else {
        carve_step(carve_all(init, kind, video_end, stops.drop_last()), kind, video_end, stops.last().entry)
    }
}

/// The segments of a video-mode regular phase.
pub open spec fn carved_segments(
    phase_id: FactId,
    kind: PhaseKind,
    match_start: i64,
    video_start: i64,
    video_end: i64,
    stops: Seq<KeyedStoppage>,
) -> Seq<TimeSegment> {
    let st = carve_all(
        CarveState { cursor_match: match_start, cursor_video: video_start, prev: phase_id, segments: Seq::empty() },
        kind,
        video_end,
        stops,
    );
    if video_end > st.cursor_video {
        let d = sat(video_end - st.cursor_video);
        st.segments.push(TimeSegment {
            kind: TimeSegmentKind::Running,
            phase_kind: Some(kind),
            match_elapsed_start: Seconds { millis: st.cursor_match },
            match_elapsed_end: Some(Seconds { millis: sat(st.cursor_match + d) }),
            video_elapsed_start: Some(Seconds { millis: st.cursor_video }),
            video_elapsed_end: Some(Seconds { millis: video_end }),
            start_fact_id: Some(st.prev),
            end_fact_id: Some(phase_id),
            stoppage_kind: None,
        })
    } else {
        st.segments
    }
}

// ── the carving tiles the phase ──

/// Video start of a stoppage (meaningful when it has one).
pub open spec fn stop_start(s: KeyedStoppage) -> i64 {
    s.entry.start_anchor.video_ms().unwrap()
}

/// Video end of a stoppage as the carving reads it: its end anchor's video clock, else
/// its start.
pub open spec fn stop_end(s: KeyedStoppage) -> i64 {
    match s.entry.end_anchor {
        Some(a) => match a.video_ms() {
            Some(x) => x,
            None => stop_start(s),
        },
        None => stop_start(s),
    }
}

/// The stoppages of a video-mode phase `[vs, ve)` lie in it one after the other: each
/// starts inside it, in order of start, and none starts before an earlier one ends.
pub open spec fn stoppages_in_sequence(vs: i64, ve: i64, stops: Seq<KeyedStoppage>) -> bool {
    &&& forall|k: int| 0 <= k < stops.len() ==> (#[trigger] stops[k]).entry.start_anchor.video_ms() is Some
        && vs <= stop_start(stops[k]) < ve
    &&& forall|i: int, j: int| 0 <= i < j < stops.len() ==> stop_start(#[trigger] stops[i]) <= stop_start(#[trigger] stops[j])
        && stop_end(stops[i]) <= stop_start(stops[j])
}

/// One segment of a carving: both video ends known and in order, a match-clock end; a
/// stopped segment keeps the match clock still, a running one advances it as far as
/// the video.
pub open spec fn carved_piece(t: TimeSegment) -> bool {
    &&& t.video_elapsed_start is Some
    &&& t.video_elapsed_end is Some
    &&& t.match_elapsed_end is Some
    &&& t.video_elapsed_start.unwrap().millis < t.video_elapsed_end.unwrap().millis
    &&& t.kind == TimeSegmentKind::Stopped ==> t.match_elapsed_end.unwrap().millis == t.match_elapsed_start.millis
    &&& t.kind == TimeSegmentKind::Running ==> t.match_elapsed_end.unwrap().millis - t.match_elapsed_start.millis
        == t.video_elapsed_end.unwrap().millis - t.video_elapsed_start.unwrap().millis
}

/// `segs` run without gap or overlap from (match `m0`, video `v0`) to (match `m1`,
/// video `v1`): each starts where the one before ends, on both clocks.
#[verifier::opaque]
pub open spec fn tiles_from(segs: Seq<TimeSegment>, m0: int, v0: int, m1: int, v1: int) -> bool {
    &&& segs.len() == 0 ==> m1 == m0 && v1 == v0
    &&& segs.len() > 0 ==> segs[0].match_elapsed_start.millis == m0 && segs[0].video_elapsed_start.unwrap().millis == v0
        && segs.last().match_elapsed_end.unwrap().millis == m1 && segs.last().video_elapsed_end.unwrap().millis == v1
    &&& forall|i: int| 0 <= i < segs.len() ==> carved_piece(#[trigger] segs[i])
    &&& forall|i: int| 0 <= i && i + 1 < segs.len() ==> (#[trigger] segs[i]).match_elapsed_end.unwrap().millis
        == segs[i + 1].match_elapsed_start.millis && segs[i].video_elapsed_end.unwrap().millis
        == segs[i + 1].video_elapsed_start.unwrap().millis
}

proof fn lemma_tiles_empty(segs: Seq<TimeSegment>, m0: int, v0: int, m1: int, v1: int)
    requires
        tiles_from(segs, m0, v0, m1, v1),
        segs.len() == 0,
    ensures
        m1 == m0 && v1 == v0,
{
    reveal(tiles_from);
}

#[verifier::spinoff_prover]
#[verifier::rlimit(40)]
proof fn lemma_tiles_push(segs: Seq<TimeSegment>, m0: int, v0: int, m1: int, v1: int, t: TimeSegment)
    requires
        tiles_from(segs, m0, v0, m1, v1),
        carved_piece(t),
        t.match_elapsed_start.millis == m1,
        t.video_elapsed_start.unwrap().millis == v1,
    ensures
        tiles_from(segs.push(t), m0, v0, t.match_elapsed_end.unwrap().millis as int, t.video_elapsed_end.unwrap().millis as int),
{
    reveal(tiles_from);
    let s2 = segs.push(t);
    assert forall|i: int| 0 <= i < s2.len() implies carved_piece(#[trigger] s2[i]) by {
        if i < segs.len() {
            assert(s2[i] == segs[i]);
        }
    }
    assert forall|i: int| 0 <= i && i + 1 < s2.len() implies (#[trigger] s2[i]).match_elapsed_end.unwrap().millis
        == s2[i + 1].match_elapsed_start.millis && s2[i].video_elapsed_end.unwrap().millis
        == s2[i + 1].video_elapsed_start.unwrap().millis by {
        if i + 1 < segs.len() {
            assert(s2[i] == segs[i]);
            assert(s2[i + 1] == segs[i + 1]);
        } else {
            assert(s2[i] == segs.last());
        }
    }
}

/// One carving step on a stoppage that starts at or after the cursor: the tiling grows
/// to the new cursor, the video cursor moves to the stoppage start and then over its
/// stopped part, and the match cursor moves by the running part only.
proof fn lemma_carve_one(prev: CarveState, kind: PhaseKind, ms: i64, vs: i64, ve: i64, s: KeyedStoppage)
    requires
        tiles_from(prev.segments, ms as int, vs as int, prev.cursor_match as int, prev.cursor_video as int),
        s.entry.start_anchor.video_ms() is Some,
        vs <= prev.cursor_video <= stop_start(s) < ve,
        ve - vs <= i64::MAX,
        ms <= prev.cursor_match,
        prev.cursor_match + (stop_start(s) - prev.cursor_video) <= i64::MAX,
    ensures
        tiles_from(carve_step(prev, kind, ve, s.entry).segments, ms as int, vs as int,
            carve_step(prev, kind, ve, s.entry).cursor_match as int, carve_step(prev, kind, ve, s.entry).cursor_video as int),
        stop_start(s) <= carve_step(prev, kind, ve, s.entry).cursor_video <= ve,
        carve_step(prev, kind, ve, s.entry).cursor_video <= stop_start(s)
            || carve_step(prev, kind, ve, s.entry).cursor_video <= stop_end(s),
        stopped_part(vs, ve, s.entry) == carve_step(prev, kind, ve, s.entry).cursor_video - stop_start(s),
        carve_step(prev, kind, ve, s.entry).cursor_match == prev.cursor_match + (stop_start(s) - prev.cursor_video),
{
    let cs = stop_start(s);
    let s_end = stop_end(s);
    let ce = if s_end <= ve { s_end } else { ve };
    let st1 = if cs > prev.cursor_video {
        let d = sat(cs - prev.cursor_video);
        let t = TimeSegment {
            kind: TimeSegmentKind::Running,
            phase_kind: Some(kind),
            match_elapsed_start: Seconds { millis: prev.cursor_match },
            match_elapsed_end: Some(Seconds { millis: sat(prev.cursor_match + d) }),
            video_elapsed_start: Some(Seconds { millis: prev.cursor_video }),
            video_elapsed_end: Some(Seconds { millis: cs }),
            start_fact_id: Some(prev.prev),
            end_fact_id: Some(s.entry.fact_id),
            stoppage_kind: None,
        };
        lemma_tiles_push(prev.segments, ms as int, vs as int, prev.cursor_match as int, prev.cursor_video as int, t);
        CarveState {
            cursor_match: sat(prev.cursor_match + d),
            cursor_video: cs,
            prev: prev.prev,
            segments: prev.segments.push(t),
        }
    } else {
        prev
    };
    if ce > cs {
        let t = TimeSegment {
            kind: TimeSegmentKind::Stopped,
            phase_kind: Some(kind),
            match_elapsed_start: Seconds { millis: st1.cursor_match },
            match_elapsed_end: Some(Seconds { millis: st1.cursor_match }),
            video_elapsed_start: Some(Seconds { millis: cs }),
            video_elapsed_end: Some(Seconds { millis: ce }),
            start_fact_id: Some(s.entry.fact_id),
            end_fact_id: Some(s.entry.fact_id),
            stoppage_kind: Some(s.entry.kind),
        };
        lemma_tiles_push(st1.segments, ms as int, vs as int, st1.cursor_match as int, st1.cursor_video as int, t);
    }
}

/// The carving after the first `n` stoppages: its segments tile the phase from its start
/// to the cursor, the cursor lies before every later stoppage, and the match cursor is
/// the video run so far less the stopped time.
proof fn lemma_carve_prefix(phase_id: FactId, kind: PhaseKind, ms: i64, vs: i64, ve: i64, stops: Seq<KeyedStoppage>, n: int)
    requires
        0 <= n <= stops.len(),
        vs < ve,
        ve - vs <= i64::MAX,
        ms + (ve - vs) <= i64::MAX,
        stoppages_in_sequence(vs, ve, stops),
    ensures
        tiles_from(
            carve_all(CarveState { cursor_match: ms, cursor_video: vs, prev: phase_id, segments: Seq::empty() }, kind, ve, stops.take(n)).segments,
            ms as int,
            vs as int,
            carve_all(CarveState { cursor_match: ms, cursor_video: vs, prev: phase_id, segments: Seq::empty() }, kind, ve, stops.take(n)).cursor_match as int,
            carve_all(CarveState { cursor_match: ms, cursor_video: vs, prev: phase_id, segments: Seq::empty() }, kind, ve, stops.take(n)).cursor_video as int,
        ),
        vs <= carve_all(CarveState { cursor_match: ms, cursor_video: vs, prev: phase_id, segments: Seq::empty() }, kind, ve, stops.take(n)).cursor_video <= ve,
        forall|j: int| n <= j < stops.len() ==> carve_all(
            CarveState { cursor_match: ms, cursor_video: vs, prev: phase_id, segments: Seq::empty() }, kind, ve, stops.take(n),
        ).cursor_video <= stop_start(#[trigger] stops[j]),
        0 <= stopped_total(vs, ve, stops.take(n)),
        stopped_total(vs, ve, stops.take(n)) <= carve_all(
            CarveState { cursor_match: ms, cursor_video: vs, prev: phase_id, segments: Seq::empty() }, kind, ve, stops.take(n),
        ).cursor_video - vs,
        carve_all(CarveState { cursor_match: ms, cursor_video: vs, prev: phase_id, segments: Seq::empty() }, kind, ve, stops.take(n)).cursor_match
            == ms + (carve_all(CarveState { cursor_match: ms, cursor_video: vs, prev: phase_id, segments: Seq::empty() }, kind, ve, stops.take(n)).cursor_video - vs)
            - stopped_total(vs, ve, stops.take(n)),
    decreases n,
{
    let init = CarveState { cursor_match: ms, cursor_video: vs, prev: phase_id, segments: Seq::empty() };
    if n == 0 {
        assert(stops.take(0) == Seq::<KeyedStoppage>::empty());
        assert forall|j: int| 0 <= j < stops.len() implies vs <= stop_start(#[trigger] stops[j]) by {}
        reveal(tiles_from);
    } else {
        lemma_carve_prefix(phase_id, kind, ms, vs, ve, stops, n - 1);
        let pre = stops.take(n - 1);
        assert(stops.take(n).drop_last() == pre);
        assert(stops.take(n).last() == stops[n - 1]);
        let prev = carve_all(init, kind, ve, pre);
        let s = stops[n - 1];
        assert(carve_all(init, kind, ve, stops.take(n)) == carve_step(prev, kind, ve, s.entry));
        assert(prev.cursor_video <= stop_start(stops[n - 1]));
        lemma_carve_one(prev, kind, ms, vs, ve, s);
        let st = carve_step(prev, kind, ve, s.entry);
        assert(stopped_total(vs, ve, stops.take(n)) == sat(stopped_total(vs, ve, pre) + stopped_part(vs, ve, s.entry)));
        assert forall|j: int| n <= j < stops.len() implies st.cursor_video <= stop_start(#[trigger] stops[j]) by {
            assert(stop_start(stops[n - 1]) <= stop_start(stops[j]) && stop_end(stops[n - 1]) <= stop_start(stops[j]));
        }
    }
}

/// The segments carved out of a video-mode phase `[vs, ve)` tile it: there is at least
/// one; the first starts at the phase start on both clocks and the last ends at the
/// phase's video end; each starts where the one before ends, on both clocks; a stopped
/// segment keeps the match clock still and a running one advances it as far as the
/// video; and the last match-clock end is the phase start plus the running time.  (The
/// stoppages lie in the phase one after the other; the clocks stay within `i64`.)
pub proof fn lemma_carved_segments_tile(phase_id: FactId, kind: PhaseKind, ms: i64, vs: i64, ve: i64, stops: Seq<KeyedStoppage>)
    requires
        vs < ve,
        ve - vs <= i64::MAX,
        ms + (ve - vs) <= i64::MAX,
        stoppages_in_sequence(vs, ve, stops),
    ensures
        carved_segments(phase_id, kind, ms, vs, ve, stops).len() > 0,
        tiles_from(carved_segments(phase_id, kind, ms, vs, ve, stops), ms as int, vs as int, ms + running_total(vs, ve, stops), ve as int),
{
    let init = CarveState { cursor_match: ms, cursor_video: vs, prev: phase_id, segments: Seq::empty() };
    lemma_carve_prefix(phase_id, kind, ms, vs, ve, stops, stops.len() as int);
    assert(stops.take(stops.len() as int) == stops);
    let st = carve_all(init, kind, ve, stops);
    if st.segments.len() == 0 {
        lemma_tiles_empty(st.segments, ms as int, vs as int, st.cursor_match as int, st.cursor_video as int);
    }
    if ve > st.cursor_video {
        let d = sat(ve - st.cursor_video);
        let t = TimeSegment {
            kind: TimeSegmentKind::Running,
            phase_kind: Some(kind),
            match_elapsed_start: Seconds { millis: st.cursor_match },
            match_elapsed_end: Some(Seconds { millis: sat(st.cursor_match + d) }),
            video_elapsed_start: Some(Seconds { millis: st.cursor_video }),
            video_elapsed_end: Some(Seconds { millis: ve }),
            start_fact_id: Some(st.prev),
            end_fact_id: Some(phase_id),
            stoppage_kind: None,
        };
        lemma_tiles_push(st.segments, ms as int, vs as int, st.cursor_match as int, st.cursor_video as int, t);
    }
}

/// The segments of one phase: a degenerate running segment for a shootout, the carved
/// segments in video mode, a single running segment without video otherwise.
pub open spec fn phase_segments(e: PhaseEntry, match_start: i64, match_end: i64, stops: Seq<KeyedStoppage>) -> Seq<TimeSegment> {
    let vs = e.payload.start_anchor.video_ms();
    let ve = e.payload.end_anchor.video_ms();
    if e.payload.kind == PhaseKind::Shootout {
        seq![TimeSegment {
            kind: TimeSegmentKind::Running,
            phase_kind: Some(PhaseKind::Shootout),
            match_elapsed_start: Seconds { millis: match_start },
            match_elapsed_end: Some(Seconds { millis: match_start }),
            video_elapsed_start: opt_seconds(vs),
            video_elapsed_end: opt_seconds(ve),
            start_fact_id: Some(e.fact_id),
            end_fact_id: Some(e.fact_id),
            stoppage_kind: None,
        }]
    } else if has_video_range(e) {
        carved_segments(e.fact_id, e.payload.kind, match_start, vs.unwrap(), ve.unwrap(), stops)
    } else {
        seq![TimeSegment {
            kind: TimeSegmentKind::Running,
            phase_kind: Some(e.payload.kind),
            match_elapsed_start: Seconds { millis: match_start },
            match_elapsed_end: Some(Seconds { millis: match_end }),
            video_elapsed_start: None,
            video_elapsed_end: None,
            start_fact_id: Some(e.fact_id),
            end_fact_id: Some(e.fact_id),
            stoppage_kind: None,
        }]
    }
}

/// The phase record of one phase-start fact.
pub open spec fn phase_record(e: PhaseEntry, match_start: i64, match_end: i64) -> Phase {
    Phase {
        fact_id: e.fact_id,
        kind: e.payload.kind,
        match_elapsed_start: Some(Seconds { millis: match_start }),
        match_elapsed_end: Some(Seconds { millis: match_end }),
        video_elapsed_start: opt_seconds(e.payload.start_anchor.video_ms()),
        video_elapsed_end: opt_seconds(e.payload.end_anchor.video_ms()),
    }
}

/// Phases and segments of the (sorted) phase-start facts, the match-clock baseline
/// rolling forward from `rolling`.
pub open spec fn rolling_build(phases: Seq<PhaseEntry>, stops: Seq<StoppageEntry>, rolling: i64) -> (Seq<Phase>, Seq<TimeSegment>)
    decreases phases.len(),
{
    if phases.len() == 0 {
        (Seq::empty(), Seq::empty())
    } else {
        let e = phases[0];
        let ms = phase_match_start(e, rolling);
        let contained = contained_stoppages(e, ms, stops);
        let me = phase_match_end(e, ms, contained);
        let rest = rolling_build(phases.drop_first(), stops, me);
        (seq![phase_record(e, ms, me)] + rest.0, phase_segments(e, ms, me, contained) + rest.1)
    }
}

/// The phases and segments a fact log yields.
pub open spec fn resolve(facts: Seq<MatchFact>) -> (Seq<Phase>, Seq<TimeSegment>) {
    rolling_build(sorted_seq(phase_entries(facts)), stoppage_entries(facts), 0)
}


/// The phases resolved from phase entries in order: one per entry, with its fact id
/// and both match-clock ends; an entry's explicit match-clock start is kept; the first
/// entry without one starts at `rolling` and every later one starts where the phase
/// before it ended (the match clock rolls forward); and a phase whose end carries no
/// match clock does not end before it starts.
pub proof fn lemma_rolling_phases(entries: Seq<PhaseEntry>, stops: Seq<StoppageEntry>, rolling: i64)
    ensures
        rolling_build(entries, stops, rolling).0.len() == entries.len(),
        forall|k: int| 0 <= k < entries.len() ==> {
            let p = #[trigger] rolling_build(entries, stops, rolling).0[k];
            &&& p.fact_id == entries[k].fact_id
            &&& p.match_elapsed_start is Some
            &&& p.match_elapsed_end is Some
            &&& (entries[k].payload.start_anchor.match_ms() matches Some(m) ==> p.match_elapsed_start.unwrap().millis == m)
            &&& (entries[k].payload.end_anchor.match_ms() is None
                ==> p.match_elapsed_start.unwrap().millis <= p.match_elapsed_end.unwrap().millis)
        },
        entries.len() > 0 && entries[0].payload.start_anchor.match_ms() is None
            ==> rolling_build(entries, stops, rolling).0[0].match_elapsed_start.unwrap().millis == rolling,
        forall|k: int| 0 <= k && k + 1 < entries.len() && (#[trigger] entries[k + 1]).payload.start_anchor.match_ms() is None
            ==> rolling_build(entries, stops, rolling).0[k + 1].match_elapsed_start.unwrap().millis
                == rolling_build(entries, stops, rolling).0[k].match_elapsed_end.unwrap().millis,
    decreases entries.len(),
{
    if entries.len() > 0 {
        let e = entries[0];
        let ms = phase_match_start(e, rolling);
        let contained = contained_stoppages(e, ms, stops);
        let me = phase_match_end(e, ms, contained);
        let rest_entries = entries.drop_first();
        lemma_rolling_phases(rest_entries, stops, me);
        let rest = rolling_build(rest_entries, stops, me);
        let all = rolling_build(entries, stops, rolling).0;
        assert(all == seq![phase_record(e, ms, me)] + rest.0);
        if e.payload.end_anchor.match_ms() is None && e.payload.kind != PhaseKind::Shootout && has_video_range(e) {
            let rt = running_total(e.payload.start_anchor.video_ms().unwrap(), e.payload.end_anchor.video_ms().unwrap(), contained);
            assert(rt >= 0);
            assert(me == sat(ms + rt));
        }
        assert forall|k: int| 0 <= k < entries.len() implies {
            let p = #[trigger] all[k];
            &&& p.fact_id == entries[k].fact_id
            &&& p.match_elapsed_start is Some
            &&& p.match_elapsed_end is Some
            &&& (entries[k].payload.start_anchor.match_ms() matches Some(m) ==> p.match_elapsed_start.unwrap().millis == m)
            &&& (entries[k].payload.end_anchor.match_ms() is None
                ==> p.match_elapsed_start.unwrap().millis <= p.match_elapsed_end.unwrap().millis)
        } by {
            if k > 0 {
                assert(all[k] == rest.0[k - 1]);
                assert(entries[k] == rest_entries[k - 1]);
            }
        }
        assert forall|k: int| 0 <= k && k + 1 < entries.len() && (#[trigger] entries[k + 1]).payload.start_anchor.match_ms() is None
            implies all[k + 1].match_elapsed_start.unwrap().millis == all[k].match_elapsed_end.unwrap().millis by {
            assert(all[k + 1] == rest.0[k]);
            assert(entries[k + 1] == rest_entries[k]);
            if k > 0 {
                assert(all[k] == rest.0[k - 1]);
            }
        }
    }
}

/// The phases of a fact log roll the match clock forward: taking the phase starts in
/// start order, each resolved phase has its fact's id; one whose start carries no match
/// clock starts at 0 when it comes first and otherwise where the phase before it ended;
/// and a phase whose end carries no match clock does not end before it starts.
pub proof fn lemma_resolved_phases_roll_forward(facts: Seq<MatchFact>)
    ensures
        resolve(facts).0.len() == sorted_seq(phase_entries(facts)).len(),
        forall|k: int| 0 <= k < resolve(facts).0.len() ==> {
            let p = #[trigger] resolve(facts).0[k];
            let e = sorted_seq(phase_entries(facts))[k];
            &&& p.fact_id == e.fact_id
            &&& (e.payload.start_anchor.match_ms() matches Some(m) ==> p.match_elapsed_start == Some(Seconds { millis: m }))
            &&& (e.payload.end_anchor.match_ms() is None ==> p.match_elapsed_start.unwrap().millis <= p.match_elapsed_end.unwrap().millis)
            &&& p.match_elapsed_start is Some && p.match_elapsed_end is Some
        },
        resolve(facts).0.len() > 0 && sorted_seq(phase_entries(facts))[0].payload.start_anchor.match_ms() is None
            ==> resolve(facts).0[0].match_elapsed_start == Some(Seconds { millis: 0 }),
        forall|k: int| 0 <= k && k + 1 < resolve(facts).0.len()
            && (#[trigger] sorted_seq(phase_entries(facts))[k + 1]).payload.start_anchor.match_ms() is None
            ==> resolve(facts).0[k + 1].match_elapsed_start == resolve(facts).0[k].match_elapsed_end,
{
    let entries = sorted_seq(phase_entries(facts));
    lemma_rolling_phases(entries, stoppage_entries(facts), 0);
    let ph = resolve(facts).0;
    assert forall|k: int| 0 <= k < ph.len() implies {
        let p = #[trigger] ph[k];
        let e = entries[k];
        &&& p.fact_id == e.fact_id
        &&& (e.payload.start_anchor.match_ms() matches Some(m) ==> p.match_elapsed_start == Some(Seconds { millis: m }))
        &&& (e.payload.end_anchor.match_ms() is None ==> p.match_elapsed_start.unwrap().millis <= p.match_elapsed_end.unwrap().millis)
        &&& p.match_elapsed_start is Some && p.match_elapsed_end is Some
    } by {
        assert(ph[k] == rolling_build(entries, stoppage_entries(facts), 0).0[k]);
    }
    assert forall|k: int| 0 <= k && k + 1 < ph.len() && (#[trigger] entries[k + 1]).payload.start_anchor.match_ms() is None
        implies ph[k + 1].match_elapsed_start == ph[k].match_elapsed_end by {
        assert(ph[k + 1].match_elapsed_start.unwrap().millis == ph[k].match_elapsed_end.unwrap().millis);
    }
}

// ── the derivation, executed ──

fn extract_phase_starts(facts: &[MatchFact]) -> (r: Vec<PhaseEntry>)
    ensures
        r@ == phase_entries(facts@),
{
    let mut out: Vec<PhaseEntry> = Vec::new();
    let mut i: usize = 0;
    while i < facts.len()
        invariant
            i <= facts.len(),
            out@ == phase_entries(facts@.take(i as int)),
        decreases facts.len() - i,
    {
        proof {
            assert(facts@.take(i + 1).drop_last() == facts@.take(i as int));
        }
        match &facts[i].payload {
            MatchFactPayload::Control(ControlFact::PhaseStart(payload)) => {
                out.push(PhaseEntry { fact_id: facts[i].id, payload: *payload });
            },
            _ => {},
        }
        i += 1;
    }
    assert(facts@.take(facts.len() as int) == facts@);
    out
}

fn extract_stoppages(facts: &[MatchFact]) -> (r: Vec<StoppageEntry>)
    ensures
        r@ == stoppage_entries(facts@),
{
    let mut out: Vec<StoppageEntry> = Vec::new();
    let mut i: usize = 0;
    while i < facts.len()
        invariant
            i <= facts.len(),
            out@ == stoppage_entries(facts@.take(i as int)),
        decreases facts.len() - i,
    {
        proof {
            assert(facts@.take(i + 1).drop_last() == facts@.take(i as int));
        }
        match &facts[i].payload {
            MatchFactPayload::Control(ControlFact::Stoppage(payload)) => {
                out.push(StoppageEntry {
                    fact_id: facts[i].id,
                    kind: payload.kind,
                    start_anchor: payload.start_anchor,
                    end_anchor: payload.end_anchor,
                });
            },
            _ => {},
        }
        i += 1;
    }
    assert(facts@.take(facts.len() as int) == facts@);
    out
}

/// The stoppages that start inside the phase, stably ordered by their start.
fn stoppages_contained(e: &PhaseEntry, match_start: Seconds, stops: &Vec<StoppageEntry>) -> (r: Vec<KeyedStoppage>)
    ensures
        r@ == contained_stoppages(*e, match_start.millis, stops@),
{
    let video_start = e.payload.start_anchor.video_elapsed_seconds();
    let video_end = e.payload.end_anchor.video_elapsed_seconds();
    let end_match = e.payload.end_anchor.match_elapsed_seconds();
    let mut keyed: Vec<KeyedStoppage> = Vec::new();
    let mut i: usize = 0;
    while i < stops.len()
        invariant
            i <= stops.len(),
            video_start == (match e.payload.start_anchor.video_ms() { Some(m) => Some(Seconds { millis: m }), None => None::<Seconds> }),
            video_end == (match e.payload.end_anchor.video_ms() { Some(m) => Some(Seconds { millis: m }), None => None::<Seconds> }),
            end_match == (match e.payload.end_anchor.match_ms() { Some(m) => Some(Seconds { millis: m }), None => None::<Seconds> }),
            keyed@ == keyed_in_phase(*e, match_start.millis, stops@.take(i as int)),
        decreases stops.len() - i,
    {
        proof {
            assert(stops@.take(i + 1).drop_last() == stops@.take(i as int));
        }
        let s = stops[i];
        match (video_start, video_end) {
            (Some(vs), Some(ve)) => {
                match s.start_anchor.video_elapsed_seconds() {
                    Some(x) => {
                        if x.millis >= vs.millis && x.millis < ve.millis {
                            keyed.push(KeyedStoppage { key: x.millis, entry: s });
                        }
                    },
                    None => {},
                }
            },
            _ => {
                match (end_match, s.start_anchor.match_elapsed_seconds()) {
                    (Some(me), Some(x)) => {
                        if x.millis >= match_start.millis && x.millis < me.millis {
                            keyed.push(KeyedStoppage { key: x.millis, entry: s });
                        }
                    },
                    _ => {},
                }
            },
        }
        i += 1;
    }
    assert(stops@.take(stops.len() as int) == stops@);
    stable_sort(keyed)
}

/// Running video time of a video-mode phase: its length minus the stopped parts.
fn total_running_duration(video_start: Seconds, video_end: Seconds, stops: &Vec<KeyedStoppage>) -> (r: Seconds)
    ensures
        r.millis == running_total(video_start.millis, video_end.millis, stops@),
{
    let total = video_end.minus(video_start);
    let mut stopped = Seconds::zero();
    let mut i: usize = 0;
    while i < stops.len()
        invariant
            i <= stops.len(),
            stopped.millis == stopped_total(video_start.millis, video_end.millis, stops@.take(i as int)),
        decreases stops.len() - i,
    {
        proof {
            assert(stops@.take(i + 1).drop_last() == stops@.take(i as int));
        }
        let entry = stops[i].entry;
        let part = match (entry.start_anchor.video_elapsed_seconds(), entry.end_anchor) {
            (Some(s), Some(end_anchor)) => match end_anchor.video_elapsed_seconds() {
                Some(e) => {
                    let clamped_start = s.max(video_start);
                    let clamped_end = e.min(video_end);
                    Seconds::zero().max(clamped_end.minus(clamped_start))
                },
                None => Seconds::zero(),
            },
            _ => Seconds::zero(),
        };
        stopped = stopped.plus(part);
        i += 1;
    }
    assert(stops@.take(stops.len() as int) == stops@);
    Seconds::zero().max(total.minus(stopped))
}

fn carve_regular_phase_segments(
    phase_fact_id: FactId,
    kind: PhaseKind,
    match_start: Seconds,
    video_start: Seconds,
    video_end: Seconds,
    stops: &Vec<KeyedStoppage>,
) -> (r: Vec<TimeSegment>)
    ensures
        r@ == carved_segments(phase_fact_id, kind, match_start.millis, video_start.millis, video_end.millis, stops@),
{
    let ghost init = CarveState {
        cursor_match: match_start.millis,
        cursor_video: video_start.millis,
        prev: phase_fact_id,
        segments: Seq::empty(),
    };
    let mut result: Vec<TimeSegment> = Vec::new();
    let mut cursor_match = match_start;
    let mut cursor_video = video_start;
    let mut prev_fact_id = phase_fact_id;
    let mut i: usize = 0;
    while i < stops.len()
        invariant
            i <= stops.len(),
            ({
                let st = carve_all(init, kind, video_end.millis, stops@.take(i as int));
                st.cursor_match == cursor_match.millis && st.cursor_video == cursor_video.millis
                    && st.prev == prev_fact_id && st.segments == result@
            }),
        decreases stops.len() - i,
    {
        proof {
            assert(stops@.take(i + 1).drop_last() == stops@.take(i as int));
        }
        let stoppage = stops[i].entry;
        match stoppage.start_anchor.video_elapsed_seconds() {
            None => {},
            Some(s_start) => {
                let s_end = match stoppage.end_anchor {
                    Some(a) => match a.video_elapsed_seconds() {
                        Some(x) => x,
                        None => s_start,
                    },
                    None => s_start,
                };
                let clamped_start = s_start.max(cursor_video);
                let clamped_end = s_end.min(video_end);
                if clamped_start.millis > cursor_video.millis {
                    let duration = clamped_start.minus(cursor_video);
                    result.push(TimeSegment {
                        kind: TimeSegmentKind::Running,
                        phase_kind: Some(kind),
                        match_elapsed_start: cursor_match,
                        match_elapsed_end: Some(cursor_match.plus(duration)),
                        video_elapsed_start: Some(cursor_video),
                        video_elapsed_end: Some(clamped_start),
                        start_fact_id: Some(prev_fact_id),
                        end_fact_id: Some(stoppage.fact_id),
                        stoppage_kind: None,
                    });
                    cursor_match = cursor_match.plus(duration);
                    cursor_video = clamped_start;
                }
                if clamped_end.millis > clamped_start.millis {
                    result.push(TimeSegment {
                        kind: TimeSegmentKind::Stopped,
                        phase_kind: Some(kind),
                        match_elapsed_start: cursor_match,
                        match_elapsed_end: Some(cursor_match),
                        video_elapsed_start: Some(clamped_start),
                        video_elapsed_end: Some(clamped_end),
                        start_fact_id: Some(stoppage.fact_id),
                        end_fact_id: Some(stoppage.fact_id),
                        stoppage_kind: Some(stoppage.kind),
                    });
                    cursor_video = clamped_end;
                    prev_fact_id = stoppage.fact_id;
                }
            },
        }
        i += 1;
    }
    assert(stops@.take(stops.len() as int) == stops@);
    if video_end.millis > cursor_video.millis {
        let duration = video_end.minus(cursor_video);
        result.push(TimeSegment {
            kind: TimeSegmentKind::Running,
            phase_kind: Some(kind),
            match_elapsed_start: cursor_match,
            match_elapsed_end: Some(cursor_match.plus(duration)),
            video_elapsed_start: Some(cursor_video),
            video_elapsed_end: Some(video_end),
            start_fact_id: Some(prev_fact_id),
            end_fact_id: Some(phase_fact_id),
            stoppage_kind: None,
        });
    }
    result
}

fn build_segments(e: &PhaseEntry, match_start: Seconds, match_end: Seconds, stops: &Vec<KeyedStoppage>) -> (r: Vec<TimeSegment>)
    ensures
        r@ == phase_segments(*e, match_start.millis, match_end.millis, stops@),
{
    let video_start = e.payload.start_anchor.video_elapsed_seconds();
    let video_end = e.payload.end_anchor.video_elapsed_seconds();
    if e.payload.kind == PhaseKind::Shootout {
        let mut v: Vec<TimeSegment> = Vec::new();
        v.push(TimeSegment {
            kind: TimeSegmentKind::Running,
            phase_kind: Some(PhaseKind::Shootout),
            match_elapsed_start: match_start,
            match_elapsed_end: Some(match_start),
            video_elapsed_start: video_start,
            video_elapsed_end: video_end,
            start_fact_id: Some(e.fact_id),
            end_fact_id: Some(e.fact_id),
            stoppage_kind: None,
        });
        return v;
    }
    match (video_start, video_end) {
        (Some(vs), Some(ve)) => carve_regular_phase_segments(e.fact_id, e.payload.kind, match_start, vs, ve, stops),
        _ => {
            let mut v: Vec<TimeSegment> = Vec::new();
            v.push(TimeSegment {
                kind: TimeSegmentKind::Running,
                phase_kind: Some(e.payload.kind),
                match_elapsed_start: match_start,
                match_elapsed_end: Some(match_end),
                video_elapsed_start: None,
                video_elapsed_end: None,
                start_fact_id: Some(e.fact_id),
                end_fact_id: Some(e.fact_id),
                stoppage_kind: None,
            });
            v
        },
    }
}

proof fn lemma_rolling_build_unfold(phases: Seq<PhaseEntry>, stops: Seq<StoppageEntry>, i: int, rolling: i64)
    requires
        0 <= i < phases.len(),
    ensures
        ({
            let e = phases[i];
            let ms = phase_match_start(e, rolling);
            let contained = contained_stoppages(e, ms, stops);
            let me = phase_match_end(e, ms, contained);
            let rest = rolling_build(phases.subrange(i + 1, phases.len() as int), stops, me);
            rolling_build(phases.subrange(i, phases.len() as int), stops, rolling)
                == (seq![phase_record(e, ms, me)] + rest.0, phase_segments(e, ms, me, contained) + rest.1)
        }),
{
    let sub = phases.subrange(i, phases.len() as int);
    assert(sub.drop_first() == phases.subrange(i + 1, phases.len() as int));
    assert(sub[0] == phases[i]);
}

fn build_rolling(sorted_phases: &Vec<PhaseEntry>, all_stoppages: &Vec<StoppageEntry>) -> (r: SegmentResolver)
    ensures
        r.phases@ == rolling_build(sorted_phases@, all_stoppages@, 0).0,
        r.segments@ == rolling_build(sorted_phases@, all_stoppages@, 0).1,
{
    let mut phase_list: Vec<Phase> = Vec::new();
    let mut segment_list: Vec<TimeSegment> = Vec::new();
    let mut rolling_match = Seconds::zero();
    let ghost whole = rolling_build(sorted_phases@, all_stoppages@, 0);
    let mut i: usize = 0;
    assert(sorted_phases@.subrange(0, sorted_phases@.len() as int) == sorted_phases@);
    while i < sorted_phases.len()
        invariant
            i <= sorted_phases.len(),
            whole == rolling_build(sorted_phases@, all_stoppages@, 0),
            ({
                let rest = rolling_build(sorted_phases@.subrange(i as int, sorted_phases@.len() as int), all_stoppages@, rolling_match.millis);
                phase_list@ + rest.0 == whole.0 && segment_list@ + rest.1 == whole.1
            }),
        decreases sorted_phases.len() - i,
    {
        let e = sorted_phases[i];
        proof {
            lemma_rolling_build_unfold(sorted_phases@, all_stoppages@, i as int, rolling_match.millis);
        }
        let match_start = match e.payload.start_anchor.match_elapsed_seconds() {
            Some(explicit) => explicit,
            None => rolling_match,
        };
        let contained = stoppages_contained(&e, match_start, all_stoppages);
        let match_end = match e.payload.end_anchor.match_elapsed_seconds() {
            Some(explicit) => explicit,
            None => {
                if e.payload.kind == PhaseKind::Shootout {
                    match_start
                } else {
                    match (e.payload.start_anchor.video_elapsed_seconds(), e.payload.end_anchor.video_elapsed_seconds()) {
                        (Some(vs), Some(ve)) => match_start.plus(total_running_duration(vs, ve, &contained)),
                        _ => match_start,
                    }
                }
            },
        };
        let record = Phase {
            fact_id: e.fact_id,
            kind: e.payload.kind,
            match_elapsed_start: Some(match_start),
            match_elapsed_end: Some(match_end),
            video_elapsed_start: e.payload.start_anchor.video_elapsed_seconds(),
            video_elapsed_end: e.payload.end_anchor.video_elapsed_seconds(),
        };
        let segs = build_segments(&e, match_start, match_end, &contained);
        let ghost before_phases = phase_list@;
        let ghost before_segments = segment_list@;
        phase_list.push(record);
        let mut segs_mut = segs;
        segment_list.append(&mut segs_mut);
        proof {
            assert(record == phase_record(e, match_start.millis, match_end.millis));
            assert(phase_list@ == before_phases + seq![record]);
            assert(before_phases + seq![record] + rolling_build(sorted_phases@.subrange(i + 1, sorted_phases@.len() as int), all_stoppages@, match_end.millis).0
                == before_phases + (seq![record] + rolling_build(sorted_phases@.subrange(i + 1, sorted_phases@.len() as int), all_stoppages@, match_end.millis).0));
            assert(segment_list@ == before_segments + segs@);
            assert(before_segments + segs@ + rolling_build(sorted_phases@.subrange(i + 1, sorted_phases@.len() as int), all_stoppages@, match_end.millis).1
                == before_segments + (segs@ + rolling_build(sorted_phases@.subrange(i + 1, sorted_phases@.len() as int), all_stoppages@, match_end.millis).1));
        }
        rolling_match = match_end;
        i += 1;
    }
    proof {
        let empty_rest = rolling_build(sorted_phases@.subrange(i as int, sorted_phases@.len() as int), all_stoppages@, rolling_match.millis);
        assert(sorted_phases@.subrange(i as int, sorted_phases@.len() as int).len() == 0);
        assert(phase_list@ + empty_rest.0 == phase_list@);
        assert(segment_list@ + empty_rest.1 == segment_list@);
    }
    SegmentResolver { segments: segment_list, phases: phase_list }
}

// ── lookups ──

/// Half-open `[start, end)`; a degenerate range (`start == end`) holds its single point.
pub open spec fn contains_match_clock(value: int, start: int, end: int) -> bool {
    if start == end {
        value == start
    } else {
        start <= value && value < end
    }
}

pub open spec fn video_pred(v: int) -> spec_fn(TimeSegment) -> bool {
    |s: TimeSegment| s.covers_video(v)
}

pub open spec fn running_match_pred(m: int) -> spec_fn(TimeSegment) -> bool {
    |s: TimeSegment| s.kind == TimeSegmentKind::Running && s.covers_match(m)
}

pub open spec fn stopped_match_pred(m: int) -> spec_fn(TimeSegment) -> bool {
    |s: TimeSegment| s.kind == TimeSegmentKind::Stopped && s.covers_match(m)
}

/// The phase's match-clock range holds `m`.
pub open spec fn phase_holds(p: Phase, m: int) -> bool {
    match (p.match_elapsed_start, p.match_elapsed_end) {
        (Some(st), Some(en)) => contains_match_clock(m, st.millis as int, en.millis as int),
        _ => false,
    }
}

pub open spec fn phase_pred(m: int) -> spec_fn(Phase) -> bool {
    |p: Phase| phase_holds(p, m)
}

/// A regular phase with both match-clock ends: the phases `phase_index` counts.
pub open spec fn counted_regular() -> spec_fn(Phase) -> bool {
    |p: Phase| p.kind == PhaseKind::Regular && p.match_elapsed_start is Some && p.match_elapsed_end is Some
}

/// The first segment containing video position `v`.
pub open spec fn segment_at_video(segs: Seq<TimeSegment>, v: int) -> Option<TimeSegment> {
    match first_index(segs, video_pred(v)) {
        Some(i) => Some(segs[i]),
        None => None,
    }
}

/// The first running segment containing match position `m`, else the first stopped one.
pub open spec fn segment_at_match(segs: Seq<TimeSegment>, m: int) -> Option<TimeSegment> {
    match first_index(segs, running_match_pred(m)) {
        Some(i) => Some(segs[i]),
        None => match first_index(segs, stopped_match_pred(m)) {
            Some(j) => Some(segs[j]),
            None => None,
        },
    }
}

/// Video position → match clock, through the first segment holding the position.
pub open spec fn match_clock_at(segs: Seq<TimeSegment>, v: int) -> Option<MatchClock> {
    match segment_at_video(segs, v) {
        Some(seg) => Some(MatchClock { elapsed_seconds: Seconds { millis: seg.match_at_video(v) } }),
        None => None,
    }
}

/// Match clock → video position: through the first running segment holding it when that
/// segment knows its video start, else through the first stopped one likewise.
pub open spec fn video_clock_at(segs: Seq<TimeSegment>, m: int) -> Option<VideoClock> {
    let from_running = match first_index(segs, running_match_pred(m)) {
        Some(i) => segs[i].video_at_match(m),
        None => None,
    };
    match from_running {
        Some(x) => Some(VideoClock { elapsed_seconds: Seconds { millis: x } }),
        None => match first_index(segs, stopped_match_pred(m)) {
            Some(j) => match segs[j].video_at_match(m) {
                Some(y) => Some(VideoClock { elapsed_seconds: Seconds { millis: y } }),
                None => None,
            },
            None => None,
        },
    }
}

/// The first phase whose match-clock range holds `m`.
pub open spec fn phase_at(phases: Seq<Phase>, m: int) -> Option<Phase> {
    match first_index(phases, phase_pred(m)) {
        Some(i) => Some(phases[i]),
        None => None,
    }
}

/// Index, among the regular phases, of the phase holding `m` (`None` for a shootout or
/// when no phase holds it).
pub open spec fn regular_index_at(phases: Seq<Phase>, m: int) -> Option<nat> {
    match first_index(phases, phase_pred(m)) {
        Some(i) => if phases[i].kind == PhaseKind::Regular {
            Some(count_where(phases.take(i), counted_regular()))
        } else {
            None
        },
        None => None,
    }
}

fn find_video_segment(segs: &Vec<TimeSegment>, v: Seconds) -> (r: Option<usize>)
    ensures
        match r {
            Some(i) => i < segs@.len() && first_index(segs@, video_pred(v.millis as int)) == Some(i as int),
            None => first_index(segs@, video_pred(v.millis as int)) is None,
        },
{
    let mut i: usize = 0;
    while i < segs.len()
        invariant
            i <= segs.len(),
            forall|j: int| 0 <= j < i ==> !video_pred(v.millis as int)(#[trigger] segs@[j]),
        decreases segs.len() - i,
    {
        if segs[i].contains_video_elapsed(v) {
            proof {
                lemma_first_index_is(segs@, video_pred(v.millis as int), i as int);
            }
            return Some(i);
        }
        i += 1;
    }
    proof {
        lemma_first_index_none(segs@, video_pred(v.millis as int));
    }
    None
}

fn find_match_segment(segs: &Vec<TimeSegment>, m: Seconds, kind: TimeSegmentKind) -> (r: Option<usize>)
    ensures
        ({
            let f = if kind == TimeSegmentKind::Running { running_match_pred(m.millis as int) } else { stopped_match_pred(m.millis as int) };
            match r {
                Some(i) => i < segs@.len() && first_index(segs@, f) == Some(i as int),
                None => first_index(segs@, f) is None,
            }
        }),
{
    let ghost f = if kind == TimeSegmentKind::Running { running_match_pred(m.millis as int) } else { stopped_match_pred(m.millis as int) };
    let mut i: usize = 0;
    while i < segs.len()
        invariant
            i <= segs.len(),
            f == (if kind == TimeSegmentKind::Running { running_match_pred(m.millis as int) } else { stopped_match_pred(m.millis as int) }),
            forall|j: int| 0 <= j < i ==> !f(#[trigger] segs@[j]),
        decreases segs.len() - i,
    {
        if segs[i].kind == kind && segs[i].contains_match_elapsed(m) {
            proof {
                lemma_first_index_is(segs@, f, i as int);
            }
            return Some(i);
        }
        i += 1;
    }
    proof {
        lemma_first_index_none(segs@, f);
    }
    None
}

fn find_phase(phases: &Vec<Phase>, m: Seconds) -> (r: Option<usize>)
    ensures
        match r {
            Some(i) => i < phases@.len() && first_index(phases@, phase_pred(m.millis as int)) == Some(i as int),
            None => first_index(phases@, phase_pred(m.millis as int)) is None,
        },
{
    let mut i: usize = 0;
    while i < phases.len()
        invariant
            i <= phases.len(),
            forall|j: int| 0 <= j < i ==> !phase_pred(m.millis as int)(#[trigger] phases@[j]),
        decreases phases.len() - i,
    {
        let holds = match (phases[i].match_elapsed_start, phases[i].match_elapsed_end) {
            (Some(st), Some(en)) => {
                if st.millis == en.millis {
                    m.millis == st.millis
                } else {
                    m.millis >= st.millis && m.millis < en.millis
                }
            },
            _ => false,
        };
        if holds {
            proof {
                lemma_first_index_is(phases@, phase_pred(m.millis as int), i as int);
            }
            return Some(i);
        }
        i += 1;
    }
    proof {
        lemma_first_index_none(phases@, phase_pred(m.millis as int));
    }
    None
}

impl SegmentResolver {
    /// Video clock → match clock, through the segment holding the video position.
    pub fn resolve_match_clock(&self, video: VideoClock) -> (r: Option<MatchClock>)
        ensures
            r == match_clock_at(self.segments@, video.elapsed_seconds.millis as int),
    {
        match find_video_segment(&self.segments, video.elapsed_seconds) {
            Some(i) => Some(MatchClock {
                elapsed_seconds: self.segments[i].match_elapsed_for_video_elapsed(video.elapsed_seconds),
            }),
            None => None,
        }
    }

    /// Match clock → video clock; running segments take precedence over stopped ones
    /// (a stopped segment holds one match position at many video positions).
    pub fn resolve_video_clock(&self, match_clock: MatchClock) -> (r: Option<VideoClock>)
        ensures
            r == video_clock_at(self.segments@, match_clock.elapsed_seconds.millis as int),
    {
        let m = match_clock.elapsed_seconds;
        if let Some(i) = find_match_segment(&self.segments, m, TimeSegmentKind::Running) {
            if let Some(v) = self.segments[i].video_elapsed_for_match_elapsed(m) {
                return Some(VideoClock { elapsed_seconds: v });
            }
        }
        if let Some(j) = find_match_segment(&self.segments, m, TimeSegmentKind::Stopped) {
            if let Some(v) = self.segments[j].video_elapsed_for_match_elapsed(m) {
                return Some(VideoClock { elapsed_seconds: v });
            }
        }
        None
    }

    /// The kind of the phase holding a match-clock position (the first in order at a
    /// shared boundary).
    pub fn phase_kind(&self, match_elapsed_seconds: Seconds) -> (r: Option<PhaseKind>)
        ensures
            r == (match phase_at(self.phases@, match_elapsed_seconds.millis as int) {
                Some(p) => Some(p.kind),
                None => None::<PhaseKind>,
            }),
    {
        match find_phase(&self.phases, match_elapsed_seconds) {
            Some(i) => Some(self.phases[i].kind),
            None => None,
        }
    }

    /// The index among regular phases of the phase holding a match-clock position
    /// (`None` for a shootout).
    pub fn phase_index(&self, match_elapsed_seconds: Seconds) -> (r: Option<usize>)
        ensures
            match r {
                Some(k) => regular_index_at(self.phases@, match_elapsed_seconds.millis as int) == Some(k as nat),
                None => regular_index_at(self.phases@, match_elapsed_seconds.millis as int) is None,
            },
    {
        let found = find_phase(&self.phases, match_elapsed_seconds);
        let i = match found {
            Some(i) => i,
            None => return None,
        };
        if self.phases[i].kind != PhaseKind::Regular {
            return None;
        }
        let mut count: usize = 0;
        let mut j: usize = 0;
        while j < i
            invariant
                j <= i,
                i < self.phases@.len(),
                count == count_where(self.phases@.take(j as int), counted_regular()),
            decreases i - j,
        {
            proof {
                lemma_count_where_step(self.phases@, counted_regular(), j as int);
                lemma_count_where_bound(self.phases@.take(j as int), counted_regular());
            }
            let p = self.phases[j];
            if p.kind == PhaseKind::Regular && p.match_elapsed_start.is_some() && p.match_elapsed_end.is_some() {
                count += 1;
            }
            j += 1;
        }
        Some(count)
    }

    /// The phase holding a match-clock position.
    pub fn phase_for_match_elapsed(&self, seconds: Seconds) -> (r: Option<&Phase>)
        ensures
            match r {
                Some(p) => phase_at(self.phases@, seconds.millis as int) == Some(*p),
                None => phase_at(self.phases@, seconds.millis as int) is None,
            },
    {
        match find_phase(&self.phases, seconds) {
            Some(i) => Some(&self.phases[i]),
            None => None,
        }
    }

    /// The segment holding a video position.
    pub fn segment_for_video_elapsed(&self, seconds: Seconds) -> (r: Option<&TimeSegment>)
        ensures
            match r {
                Some(s) => segment_at_video(self.segments@, seconds.millis as int) == Some(*s),
                None => segment_at_video(self.segments@, seconds.millis as int) is None,
            },
    {
        match find_video_segment(&self.segments, seconds) {
            Some(i) => Some(&self.segments[i]),
            None => None,
        }
    }

    /// The segment holding a match-clock position, running segments first.
    pub fn segment_for_match_elapsed(&self, seconds: Seconds) -> (r: Option<&TimeSegment>)
        ensures
            match r {
                Some(s) => segment_at_match(self.segments@, seconds.millis as int) == Some(*s),
                None => segment_at_match(self.segments@, seconds.millis as int) is None,
            },
    {
        if let Some(i) = find_match_segment(&self.segments, seconds, TimeSegmentKind::Running) {
            return Some(&self.segments[i]);
        }
        match find_match_segment(&self.segments, seconds, TimeSegmentKind::Stopped) {
            Some(j) => Some(&self.segments[j]),
            None => None,
        }
    }

    /// Builds the segments and phases of a fact log; see [`resolve`].
    pub fn build(facts: &[MatchFact]) -> (r: SegmentResolver)
        ensures
            r.phases@ == resolve(facts@).0,
            r.segments@ == resolve(facts@).1,
    {
        let phase_starts = extract_phase_starts(facts);
        let stoppages = extract_stoppages(facts);
        let sorted_phases = stable_sort(phase_starts);
        build_rolling(&sorted_phases, &stoppages)
    }
}

} // verus!
