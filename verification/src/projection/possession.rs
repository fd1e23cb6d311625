//! Possession intervals derived from possession facts.
//!
//! A possession fact records only where a team's possession begins and, when its
//! source knows it, where it ends.  The end of an interval is the explicit end, else
//! the first goal of the same team inside the interval, else the next possession start
//! in the same phase (or the phase end) — and every candidate is clamped to that last
//! bound, so intervals never overlap.

use vstd::prelude::*;

use crate::clock::{sat, FactAnchor, Seconds};
use crate::entities::Match;
use crate::facts::{MatchFact, MatchFactPayload, PlayEventKind};
use crate::ids::{FactId, TeamId};
use crate::projection::segment_resolver::{distinct_phase_ids, phase_at, phase_holds, phase_pred, resolve};
use crate::projection::time_segment::TimeSegment;
use crate::projection::segment_resolver::Phase;
use crate::projection::timeline::{anchor_clocks, resolve_anchor_clocks, resolved_log, ResolvedFact, TimelineProjection};
use crate::seqs::{count_where, first_index, lemma_count_where_bound, lemma_first_index_is, lemma_first_index_none};
use crate::sorting::{lemma_sorted_seq_len, lemma_sorted_seq_stable, sorted_seq, stable_sort, KeyOrder};

verus! {

/// The interval of one possession fact.
#[derive(Debug, Clone, Copy, PartialEq, Eq, Structural)]
pub struct PossessionSegment {
    /// The possession fact that declared the interval.
    pub fact_id: FactId,
    /// The team holding the ball.
    pub team_id: TeamId,
    /// The phase the interval belongs to (intervals never cross phases).
    pub phase_fact_id: FactId,
    /// Start (match clock): the fact's own time.
    pub match_elapsed_start: Seconds,
    /// End (match clock), never before the start.
    pub match_elapsed_end: Seconds,
    pub video_elapsed_start: Option<Seconds>,
    /// Video end taken from the same source as the match-clock end (`None` when that
    /// source has no video position).
    pub video_elapsed_end: Option<Seconds>,
    /// Same phase and same team as the interval just before: a redundant declaration,
    /// not counted as a possession.
    pub is_redundant: bool,
}

impl PossessionSegment {
    /// Length in match-clock time (playing time, not video time); never negative.
    pub fn match_elapsed_duration(&self) -> (r: Seconds)
        ensures
            r.millis == (if sat(self.match_elapsed_end.millis - self.match_elapsed_start.millis) >= 0 {
                sat(self.match_elapsed_end.millis - self.match_elapsed_start.millis)
            } else {
                0
            }),
    {
        Seconds::zero().max(self.match_elapsed_end.minus(self.match_elapsed_start))
    }
}

/// Possession intervals and the number of possessions.
#[derive(Debug, Clone, PartialEq)]
pub struct PossessionProjection {
    /// Ascending by match-clock start; equal starts keep log order.
    pub segments: Vec<PossessionSegment>,
    /// Number of team changes (the intervals that are not redundant).
    pub possession_count: usize,
    /// Possession facts that could not become an interval: no resolvable match clock,
    /// or outside every phase.
    pub unresolved_fact_ids: Vec<FactId>,
}

/// An end point: a match-clock position with the video position from the same source.
#[derive(Debug, Clone, Copy, PartialEq, Eq, Structural)]
pub struct EndPoint {
    pub match_end: Seconds,
    pub video_end: Option<Seconds>,
}

/// A resolved possession fact, before its end is decided.
#[derive(Debug, Clone, Copy, PartialEq, Eq, Structural)]
pub struct PossessionRow {
    pub fact_id: FactId,
    pub team_id: TeamId,
    pub phase_fact_id: FactId,
    pub phase_match_end: Seconds,
    pub phase_video_end: Option<Seconds>,
    pub match_start: Seconds,
    pub video_start: Option<Seconds>,
    /// The explicit end resolved to (match clock, video clock), when its match clock
    /// resolves.
    pub explicit_end: Option<EndPoint>,
}

impl KeyOrder for PossessionRow {
    open spec fn key_le(self, other: Self) -> bool {
        self.match_start.millis <= other.match_start.millis
    }

    proof fn lemma_total(a: Self, b: Self) {
    }

    proof fn lemma_trans(a: Self, b: Self, c: Self) {
    }

    fn le(&self, other: &Self) -> (r: bool) {
        self.match_start.millis <= other.match_start.millis
    }
}

/// A goal with a team and a resolved match clock.
#[derive(Debug, Clone, Copy, PartialEq, Eq, Structural)]
pub struct GoalMark {
    pub seconds: Seconds,
    pub video: Option<Seconds>,
    pub team_id: TeamId,
}

impl KeyOrder for GoalMark {
    open spec fn key_le(self, other: Self) -> bool {
        self.seconds.millis <= other.seconds.millis
    }

    proof fn lemma_total(a: Self, b: Self) {
    }

    proof fn lemma_trans(a: Self, b: Self, c: Self) {
    }

    fn le(&self, other: &Self) -> (r: bool) {
        self.seconds.millis <= other.seconds.millis
    }
}

/// An end anchor resolved to (match clock, video clock); `None` when its match clock
/// does not resolve (an end without a match position cannot bound anything).
pub open spec fn resolved_end(anchor: FactAnchor, segs: Seq<TimeSegment>) -> Option<EndPoint> {
    let (mc, vc) = anchor_clocks(anchor, segs);
    match mc {
        Some(m) => Some(EndPoint { match_end: m.elapsed_seconds, video_end: match vc { Some(v) => Some(v.elapsed_seconds), None => None } }),
        None => None,
    }
}

/// The rows of the resolvable possession facts and the ids of the others, in log order.
pub open spec fn possession_rows(rf: Seq<ResolvedFact>, phases: Seq<Phase>, segs: Seq<TimeSegment>) -> (Seq<PossessionRow>, Seq<FactId>)
    decreases rf.len(),
{
    if rf.len() == 0 {
        (Seq::empty(), Seq::empty())
    } else {
        let (rows, unresolved) = possession_rows(rf.drop_last(), phases, segs);
        let r = rf.last();
        match r.fact.payload {
            MatchFactPayload::Possession(p) => match r.resolved_match_clock {
                None => (rows, unresolved.push(r.fact.id)),
                Some(mc) => match phase_at(phases, mc.elapsed_seconds.millis as int) {
                    None => (rows, unresolved.push(r.fact.id)),
                    Some(ph) => match ph.match_elapsed_end {
                        None => (rows, unresolved.push(r.fact.id)),
                        Some(pme) => (rows.push(PossessionRow {
                            fact_id: r.fact.id,
                            team_id: p.team_id,
                            phase_fact_id: ph.fact_id,
                            phase_match_end: pme,
                            phase_video_end: ph.video_elapsed_end,
                            match_start: mc.elapsed_seconds,
                            video_start: match r.resolved_video_clock { Some(v) => Some(v.elapsed_seconds), None => None },
                            explicit_end: match p.end_anchor {
                                Some(a) => resolved_end(a, segs),
                                None => None,
                            },
                        }), unresolved),
                    },
                },
            },
            _ => (rows, unresolved),
        }
    }
}

/// The goals with a team and a resolved match clock, in timeline order.
pub open spec fn goal_marks(rf: Seq<ResolvedFact>) -> Seq<GoalMark>
    decreases rf.len(),
{
    if rf.len() == 0 {
        Seq::empty()
    } else {
        let rest = goal_marks(rf.drop_last());
        let r = rf.last();
        match (r.fact.payload, r.resolved_match_clock) {
            (MatchFactPayload::Play(p), Some(mc)) => {
                if p.kind == PlayEventKind::Goal && p.team_id is Some {
                    rest.push(GoalMark {
                        seconds: mc.elapsed_seconds,
                        video: match r.resolved_video_clock { Some(v) => Some(v.elapsed_seconds), None => None },
                        team_id: p.team_id.unwrap(),
                    })
                } else {
                    rest
                }
            },
            _ => rest,
        }
    }
}

/// A goal of `team` in `(start, bound]`.
pub open spec fn goal_in(team: TeamId, start: int, bound: int) -> spec_fn(GoalMark) -> bool {
    |g: GoalMark| start < g.seconds.millis && g.seconds.millis <= bound && g.team_id == team
}

/// The upper bound of row `i`: the next row's start when it is in the same phase, else
/// the phase end.
pub open spec fn row_bound(rows: Seq<PossessionRow>, i: int) -> (Seconds, Option<Seconds>) {
    if i + 1 < rows.len() && rows[i + 1].phase_fact_id == rows[i].phase_fact_id {
        (rows[i + 1].match_start, rows[i + 1].video_start)
    } else {
        (rows[i].phase_match_end, rows[i].phase_video_end)
    }
}

/// The interval of row `i` among the sorted rows, with the sorted goals.
pub open spec fn segment_of(rows: Seq<PossessionRow>, goals: Seq<GoalMark>, i: int) -> PossessionSegment {
    let row = rows[i];
    let (bm, bv) = row_bound(rows, i);
    let candidate = match row.explicit_end {
        Some(e) => Some(e),
        None => match first_index(goals, goal_in(row.team_id, row.match_start.millis as int, bm.millis as int)) {
            Some(k) => Some(EndPoint { match_end: goals[k].seconds, video_end: goals[k].video }),
            None => None,
        },
    };
    let (me, ve) = match candidate {
        Some(e) => if e.match_end.millis <= bm.millis { (e.match_end, e.video_end) } else { (bm, bv) },
        None => (bm, bv),
    };
    PossessionSegment {
        fact_id: row.fact_id,
        team_id: row.team_id,
        phase_fact_id: row.phase_fact_id,
        match_elapsed_start: row.match_start,
        match_elapsed_end: if me.millis >= row.match_start.millis { me } else { row.match_start },
        video_elapsed_start: row.video_start,
        video_elapsed_end: ve,
        is_redundant: i > 0 && rows[i - 1].phase_fact_id == row.phase_fact_id && rows[i - 1].team_id == row.team_id,
    }
}

/// The intervals of a timeline, in order of start.
pub open spec fn possession_segments(rf: Seq<ResolvedFact>, phases: Seq<Phase>, segs: Seq<TimeSegment>) -> Seq<PossessionSegment> {
    let rows = sorted_seq(possession_rows(rf, phases, segs).0);
    let goals = sorted_seq(goal_marks(rf));
    Seq::new(rows.len(), |i: int| segment_of(rows, goals, i))
}

pub open spec fn not_redundant() -> spec_fn(PossessionSegment) -> bool {
    |s: PossessionSegment| !s.is_redundant
}

/// The possession projection of a timeline.
pub open spec fn possession_of(p: PossessionProjection, rf: Seq<ResolvedFact>, phases: Seq<Phase>, segs: Seq<TimeSegment>) -> bool {
    &&& p.segments@ == possession_segments(rf, phases, segs)
    &&& p.possession_count == count_where(p.segments@, not_redundant())
    &&& p.unresolved_fact_ids@ == possession_rows(rf, phases, segs).1
}

fn resolve_end_anchor(anchor: FactAnchor, timeline: &TimelineProjection) -> (r: Option<EndPoint>)
    ensures
        r == resolved_end(anchor, timeline.resolver.segments@),
{
    let (mc, vc) = resolve_anchor_clocks(anchor, &timeline.resolver);
    match mc {
        Some(m) => Some(EndPoint {
            match_end: m.elapsed_seconds,
            video_end: match vc {
                Some(v) => Some(v.elapsed_seconds),
                None => None,
            },
        }),
        None => None,
    }
}

fn collect_rows(timeline: &TimelineProjection) -> (r: (Vec<PossessionRow>, Vec<FactId>))
    ensures
        (r.0@, r.1@) == possession_rows(timeline.resolved_facts@, timeline.resolver.phases@, timeline.resolver.segments@),
{
    let ghost rf = timeline.resolved_facts@;
    let ghost phases = timeline.resolver.phases@;
    let ghost segs = timeline.resolver.segments@;
    let mut rows: Vec<PossessionRow> = Vec::new();
    let mut unresolved: Vec<FactId> = Vec::new();
    let mut i: usize = 0;
    while i < timeline.resolved_facts.len()
        invariant
            i <= rf.len(),
            rf == timeline.resolved_facts@,
            phases == timeline.resolver.phases@,
            segs == timeline.resolver.segments@,
            (rows@, unresolved@) == possession_rows(rf.take(i as int), phases, segs),
        decreases rf.len() - i,
    {
        proof {
            assert(rf.take(i + 1).drop_last() == rf.take(i as int));
        }
        let resolved = &timeline.resolved_facts[i];
        match &resolved.fact.payload {
            MatchFactPayload::Possession(p) => {
                match resolved.resolved_match_clock {
                    None => unresolved.push(resolved.fact.id),
                    Some(mc) => match timeline.resolver.phase_for_match_elapsed(mc.elapsed_seconds) {
                        None => unresolved.push(resolved.fact.id),
                        Some(ph) => match ph.match_elapsed_end {
                            None => unresolved.push(resolved.fact.id),
                            Some(pme) => {
                                let explicit_end = match p.end_anchor {
                                    Some(a) => resolve_end_anchor(a, timeline),
                                    None => None,
                                };
                                rows.push(PossessionRow {
                                    fact_id: resolved.fact.id,
                                    team_id: p.team_id,
                                    phase_fact_id: ph.fact_id,
                                    phase_match_end: pme,
                                    phase_video_end: ph.video_elapsed_end,
                                    match_start: mc.elapsed_seconds,
                                    video_start: match resolved.resolved_video_clock {
                                        Some(v) => Some(v.elapsed_seconds),
                                        None => None,
                                    },
                                    explicit_end,
                                });
                            },
                        },
                    },
                }
            },
            _ => {},
        }
        i += 1;
    }
    assert(rf.take(rf.len() as int) == rf);
    (rows, unresolved)
}

fn collect_goals(timeline: &TimelineProjection) -> (r: Vec<GoalMark>)
    ensures
        r@ == goal_marks(timeline.resolved_facts@),
{
    let ghost rf = timeline.resolved_facts@;
    let mut goals: Vec<GoalMark> = Vec::new();
    let mut i: usize = 0;
    while i < timeline.resolved_facts.len()
        invariant
            i <= rf.len(),
            rf == timeline.resolved_facts@,
            goals@ == goal_marks(rf.take(i as int)),
        decreases rf.len() - i,
    {
        proof {
            assert(rf.take(i + 1).drop_last() == rf.take(i as int));
        }
        let resolved = &timeline.resolved_facts[i];
        match (&resolved.fact.payload, resolved.resolved_match_clock) {
            (MatchFactPayload::Play(p), Some(mc)) => {
                if p.kind == PlayEventKind::Goal {
                    if let Some(team_id) = p.team_id {
                        goals.push(GoalMark {
                            seconds: mc.elapsed_seconds,
                            video: match resolved.resolved_video_clock {
                                Some(v) => Some(v.elapsed_seconds),
                                None => None,
                            },
                            team_id,
                        });
                    }
                }
            },
            _ => {},
        }
        i += 1;
    }
    assert(rf.take(rf.len() as int) == rf);
    goals
}

/// The first goal of `team_id` in `(start, bound]`.
fn first_goal_in(goals: &Vec<GoalMark>, team_id: TeamId, start: Seconds, bound: Seconds) -> (r: Option<EndPoint>)
    ensures
        r == (match first_index(goals@, goal_in(team_id, start.millis as int, bound.millis as int)) {
            Some(k) => Some(EndPoint { match_end: goals@[k].seconds, video_end: goals@[k].video }),
            None => None,
        }),
{
    let ghost f = goal_in(team_id, start.millis as int, bound.millis as int);
    let mut i: usize = 0;
    while i < goals.len()
        invariant
            i <= goals@.len(),
            f == goal_in(team_id, start.millis as int, bound.millis as int),
            forall|j: int| 0 <= j < i ==> !f(#[trigger] goals@[j]),
        decreases goals@.len() - i,
    {
        let g = goals[i];
        if start.millis < g.seconds.millis && g.seconds.millis <= bound.millis && g.team_id == team_id {
            proof {
                lemma_first_index_is(goals@, f, i as int);
            }
            return Some(EndPoint { match_end: g.seconds, video_end: g.video });
        }
        i += 1;
    }
    proof {
        lemma_first_index_none(goals@, f);
    }
    None
}

impl PossessionProjection {
    /// The possession projection of a timeline; see [`possession_segments`] (`_match_` is
    /// unused; it keeps the entry points alike).
    pub fn build_with_timeline(_match_: &Match, timeline: &TimelineProjection) -> (r: PossessionProjection)
        ensures
            possession_of(r, timeline.resolved_facts@, timeline.resolver.phases@, timeline.resolver.segments@),
    {
        let (rows_unsorted, unresolved) = collect_rows(timeline);
        let rows = stable_sort(rows_unsorted);
        let goals = stable_sort(collect_goals(timeline));
        let ghost srows = rows@;
        let ghost sgoals = goals@;
        let mut segments: Vec<PossessionSegment> = Vec::new();
        let mut count: usize = 0;
        let mut i: usize = 0;
        while i < rows.len()
            invariant
                i <= srows.len(),
                srows == rows@,
                sgoals == goals@,
                segments@.len() == i,
                forall|k: int| 0 <= k < i ==> #[trigger] segments@[k] == segment_of(srows, sgoals, k),
                count == count_where(segments@, not_redundant()),
            decreases srows.len() - i,
        {
            let row = rows[i];
            let (bound_match, bound_video) = if i + 1 < rows.len() && rows[i + 1].phase_fact_id == row.phase_fact_id {
                (rows[i + 1].match_start, rows[i + 1].video_start)
            } else {
                (row.phase_match_end, row.phase_video_end)
            };
            let candidate = match row.explicit_end {
                Some(e) => Some(e),
                None => first_goal_in(&goals, row.team_id, row.match_start, bound_match),
            };
            let (match_end, video_end) = match candidate {
                Some(e) => if e.match_end.millis <= bound_match.millis { (e.match_end, e.video_end) } else { (bound_match, bound_video) },
                None => (bound_match, bound_video),
            };
            let is_redundant = i > 0 && rows[i - 1].phase_fact_id == row.phase_fact_id && rows[i - 1].team_id == row.team_id;
            let seg = PossessionSegment {
                fact_id: row.fact_id,
                team_id: row.team_id,
                phase_fact_id: row.phase_fact_id,
                match_elapsed_start: row.match_start,
                match_elapsed_end: match_end.max(row.match_start),
                video_elapsed_start: row.video_start,
                video_elapsed_end: video_end,
                is_redundant,
            };
            let ghost before = segments@;
            proof {
                lemma_count_where_bound(before, not_redundant());
            }
            segments.push(seg);
            proof {
                assert(segments@.drop_last() == before);
            }
            if !is_redundant {
                count = count + 1;
            }
            i += 1;
        }
        proof {
            assert(segments@ =~= possession_segments(timeline.resolved_facts@, timeline.resolver.phases@, timeline.resolver.segments@));
        }
        PossessionProjection { segments, possession_count: count, unresolved_fact_ids: unresolved }
    }

    /// Builds the timeline of `facts`, then the possession projection.
    pub fn build(match_: &Match, facts: &[MatchFact]) -> (r: PossessionProjection)
        ensures
            possession_of(r, resolved_log(facts@), resolve(facts@).0, resolve(facts@).1),
    {
        let timeline = TimelineProjection::build(match_, facts);
        proof {
            timeline.lemma_built_from(facts@);
        }
        Self::build_with_timeline(match_, &timeline)
    }

    /// The interval declared by fact `fact_id`.
    pub fn segment(&self, fact_id: FactId) -> (r: Option<&PossessionSegment>)
        ensures
            match r {
                Some(s) => first_index(self.segments@, |s: PossessionSegment| s.fact_id == fact_id) matches Some(k)
                    && self.segments@[k] == *s,
                None => first_index(self.segments@, |s: PossessionSegment| s.fact_id == fact_id) is None,
            },
    {
        let ghost f = |s: PossessionSegment| s.fact_id == fact_id;
        let mut i: usize = 0;
        while i < self.segments.len()
            invariant
                i <= self.segments@.len(),
                f == |s: PossessionSegment| s.fact_id == fact_id,
                forall|j: int| 0 <= j < i ==> !f(#[trigger] self.segments@[j]),
            decreases self.segments@.len() - i,
        {
            if self.segments[i].fact_id == fact_id {
                proof {
                    lemma_first_index_is(self.segments@, f, i as int);
                }
                return Some(&self.segments[i]);
            }
            i += 1;
        }
        proof {
            lemma_first_index_none(self.segments@, f);
        }
        None
    }
}

/// Possession intervals never run backwards and never overlap within a phase: each
/// ends at or after its start, the intervals are ordered by start, and an interval ends
/// no later than the next interval of the same phase begins.  There is one interval per
/// possession fact that resolved.
pub proof fn lemma_possession_intervals(rf: Seq<ResolvedFact>, phases: Seq<Phase>, segs: Seq<TimeSegment>)
    ensures
        possession_segments(rf, phases, segs).len() == possession_rows(rf, phases, segs).0.len(),
        forall|i: int|
            0 <= i < possession_segments(rf, phases, segs).len() ==> (#[trigger] possession_segments(rf, phases, segs)[i]).match_elapsed_start.millis
                <= possession_segments(rf, phases, segs)[i].match_elapsed_end.millis,
        forall|i: int, j: int|
            0 <= i < j < possession_segments(rf, phases, segs).len() ==> (#[trigger] possession_segments(rf, phases, segs)[i]).match_elapsed_start.millis
                <= (#[trigger] possession_segments(rf, phases, segs)[j]).match_elapsed_start.millis,
        forall|i: int|
            0 <= i && i + 1 < possession_segments(rf, phases, segs).len()
                && (#[trigger] possession_segments(rf, phases, segs)[i]).phase_fact_id == possession_segments(rf, phases, segs)[i + 1].phase_fact_id
                ==> possession_segments(rf, phases, segs)[i].match_elapsed_end.millis
                <= possession_segments(rf, phases, segs)[i + 1].match_elapsed_start.millis,
{
    let rows = sorted_seq(possession_rows(rf, phases, segs).0);
    let goals = sorted_seq(goal_marks(rf));
    let out = possession_segments(rf, phases, segs);
    lemma_sorted_seq_len(possession_rows(rf, phases, segs).0);
    crate::sorting::lemma_sorted_seq_sorted(possession_rows(rf, phases, segs).0);
    assert forall|i: int, j: int| 0 <= i < j < out.len() implies (#[trigger] out[i]).match_elapsed_start.millis
        <= (#[trigger] out[j]).match_elapsed_start.millis by {
        assert(rows[i].key_le(rows[j]));
    }
    assert forall|i: int|
        0 <= i && i + 1 < out.len() && (#[trigger] out[i]).phase_fact_id == out[i + 1].phase_fact_id
        implies out[i].match_elapsed_end.millis <= out[i + 1].match_elapsed_start.millis by {
        assert(rows[i].key_le(rows[i + 1]));
        assert(out[i] == segment_of(rows, goals, i));
        assert(out[i + 1] == segment_of(rows, goals, i + 1));
    }
}

/// The timeline positions of the facts behind the rows, in row order.
pub open spec fn row_sources(rf: Seq<ResolvedFact>, phases: Seq<Phase>, segs: Seq<TimeSegment>) -> Seq<int>
    decreases rf.len(),
{
    if rf.len() == 0 {
        Seq::empty()
    } else {
        let q = row_sources(rf.drop_last(), phases, segs);
        if possession_rows(rf, phases, segs).0.len() > possession_rows(rf.drop_last(), phases, segs).0.len() {
            q.push(rf.len() - 1)
        } else {
            q
        }
    }
}

/// Each row comes from a possession fact, rows keep timeline order, and a row starts
/// inside a phase whose end it records.
proof fn lemma_rows_from_timeline(rf: Seq<ResolvedFact>, phases: Seq<Phase>, segs: Seq<TimeSegment>)
    ensures
        row_sources(rf, phases, segs).len() == possession_rows(rf, phases, segs).0.len(),
        forall|i: int| 0 <= i < row_sources(rf, phases, segs).len() ==> 0 <= #[trigger] row_sources(rf, phases, segs)[i] < rf.len()
            && rf[row_sources(rf, phases, segs)[i]].fact.id == possession_rows(rf, phases, segs).0[i].fact_id,
        forall|i: int, j: int| 0 <= i < j < row_sources(rf, phases, segs).len()
            ==> #[trigger] row_sources(rf, phases, segs)[i] < #[trigger] row_sources(rf, phases, segs)[j],
        forall|i: int| 0 <= i < possession_rows(rf, phases, segs).0.len()
            ==> (#[trigger] possession_rows(rf, phases, segs).0[i]).match_start.millis <= possession_rows(rf, phases, segs).0[i].phase_match_end.millis
            && exists|j: int| 0 <= j < phases.len() && (#[trigger] phases[j]).fact_id == possession_rows(rf, phases, segs).0[i].phase_fact_id
                && phases[j].match_elapsed_end == Some(possession_rows(rf, phases, segs).0[i].phase_match_end),
    decreases rf.len(),
{
    if rf.len() > 0 {
        let t = rf.drop_last();
        lemma_rows_from_timeline(t, phases, segs);
        let rows0 = possession_rows(t, phases, segs).0;
        let rows = possession_rows(rf, phases, segs).0;
        let q = row_sources(rf, phases, segs);
        let q0 = row_sources(t, phases, segs);
        assert forall|i: int| 0 <= i < q0.len() implies rf[q0[i]] == t[q0[i]] by {}
        if rows.len() > rows0.len() {
            let r = rf.last();
            let p = r.fact.payload->Possession_0;
            let mc = r.resolved_match_clock.unwrap();
            let m = mc.elapsed_seconds.millis as int;
            let k = first_index(phases, phase_pred(m)).unwrap();
            assert(phases[k] == phase_at(phases, m).unwrap());
            assert(phase_holds(phases[k], m));
            assert(rows == rows0.push(rows[rows.len() - 1]));
            assert forall|i: int| 0 <= i < rows.len() implies (#[trigger] rows[i]).match_start.millis <= rows[i].phase_match_end.millis
                && exists|j: int| 0 <= j < phases.len() && (#[trigger] phases[j]).fact_id == rows[i].phase_fact_id
                    && phases[j].match_elapsed_end == Some(rows[i].phase_match_end) by {
                if i < rows0.len() {
                    assert(rows[i] == rows0[i]);
                } else {
                    assert(phases[k].fact_id == rows[i].phase_fact_id);
                }
            }
        } else {
            assert(rows == rows0);
        }
    }
}

/// Each possession interval ends within its phase: some phase carrying the interval's
/// phase fact id ends (on the match clock) no earlier than the interval; when no two
/// phases share a fact id, that is every phase carrying the id.
pub proof fn lemma_possession_ends_within_phase(rf: Seq<ResolvedFact>, phases: Seq<Phase>, segs: Seq<TimeSegment>)
    ensures
        forall|k: int| 0 <= k < possession_segments(rf, phases, segs).len() ==> exists|j: int|
            0 <= j < phases.len() && (#[trigger] phases[j]).fact_id == (#[trigger] possession_segments(rf, phases, segs)[k]).phase_fact_id
                && phases[j].match_elapsed_end is Some
                && possession_segments(rf, phases, segs)[k].match_elapsed_end.millis <= phases[j].match_elapsed_end.unwrap().millis,
        distinct_phase_ids(phases) ==> forall|k: int, j: int|
            0 <= k < possession_segments(rf, phases, segs).len() && 0 <= j < phases.len()
                && (#[trigger] phases[j]).fact_id == (#[trigger] possession_segments(rf, phases, segs)[k]).phase_fact_id
                ==> phases[j].match_elapsed_end is Some
                && possession_segments(rf, phases, segs)[k].match_elapsed_end.millis <= phases[j].match_elapsed_end.unwrap().millis,
{
    let rows0 = possession_rows(rf, phases, segs).0;
    let rows = sorted_seq(rows0);
    let goals = sorted_seq(goal_marks(rf));
    let out = possession_segments(rf, phases, segs);
    lemma_sorted_seq_len(rows0);
    crate::sorting::lemma_sorted_seq_sorted(rows0);
    lemma_rows_from_timeline(rf, phases, segs);
    let p = lemma_sorted_seq_stable(rows0);
    assert forall|k: int| 0 <= k < out.len() implies exists|j: int|
        0 <= j < phases.len() && (#[trigger] phases[j]).fact_id == (#[trigger] out[k]).phase_fact_id
            && phases[j].match_elapsed_end is Some
            && out[k].match_elapsed_end.millis <= phases[j].match_elapsed_end.unwrap().millis by {
        assert(out[k] == segment_of(rows, goals, k));
        let row = rows[k];
        assert(row == rows0[p[k]]);
        assert(rows0[p[k]].match_start.millis <= rows0[p[k]].phase_match_end.millis);
        if k + 1 < rows.len() && rows[k + 1].phase_fact_id == row.phase_fact_id {
            let nxt = rows[k + 1];
            assert(nxt == rows0[p[k + 1]]);
            assert(rows[k].key_le(rows[k + 1]));
            assert(rows0[p[k + 1]].match_start.millis <= rows0[p[k + 1]].phase_match_end.millis);
            let j2 = choose|j2: int| 0 <= j2 < phases.len() && (#[trigger] phases[j2]).fact_id == rows0[p[k + 1]].phase_fact_id
                && phases[j2].match_elapsed_end == Some(rows0[p[k + 1]].phase_match_end);
            assert(phases[j2].fact_id == out[k].phase_fact_id);
        } else {
            let j = choose|j: int| 0 <= j < phases.len() && (#[trigger] phases[j]).fact_id == rows0[p[k]].phase_fact_id
                && phases[j].match_elapsed_end == Some(rows0[p[k]].phase_match_end);
            assert(phases[j].fact_id == out[k].phase_fact_id);
        }
    }
    if distinct_phase_ids(phases) {
        assert forall|k: int, j: int|
            0 <= k < out.len() && 0 <= j < phases.len() && (#[trigger] phases[j]).fact_id == (#[trigger] out[k]).phase_fact_id
            implies phases[j].match_elapsed_end is Some
            && out[k].match_elapsed_end.millis <= phases[j].match_elapsed_end.unwrap().millis by {
            let w = choose|w: int| 0 <= w < phases.len() && (#[trigger] phases[w]).fact_id == out[k].phase_fact_id
                && phases[w].match_elapsed_end is Some
                && out[k].match_elapsed_end.millis <= phases[w].match_elapsed_end.unwrap().millis;
            if w < j {
                assert(phases[w].fact_id != phases[j].fact_id);
            } else if j < w {
                assert(phases[j].fact_id != phases[w].fact_id);
            }
        }
    }
}

/// Intervals that start at the same time keep the order of their possession facts in
/// the timeline: `pos[k]` is the timeline position of the fact behind interval `k`.
pub proof fn lemma_possession_equal_starts_keep_order(rf: Seq<ResolvedFact>, phases: Seq<Phase>, segs: Seq<TimeSegment>)
    -> (pos: Seq<int>)
    ensures
        pos.len() == possession_segments(rf, phases, segs).len(),
        forall|k: int| 0 <= k < pos.len() ==> 0 <= #[trigger] pos[k] < rf.len()
            && rf[pos[k]].fact.id == possession_segments(rf, phases, segs)[k].fact_id,
        forall|k: int, l: int| 0 <= k < l < pos.len()
            && (#[trigger] possession_segments(rf, phases, segs)[k]).match_elapsed_start.millis
                == (#[trigger] possession_segments(rf, phases, segs)[l]).match_elapsed_start.millis
            ==> pos[k] < pos[l],
{
    let rows0 = possession_rows(rf, phases, segs).0;
    let rows = sorted_seq(rows0);
    let goals = sorted_seq(goal_marks(rf));
    let out = possession_segments(rf, phases, segs);
    let q = row_sources(rf, phases, segs);
    lemma_sorted_seq_len(rows0);
    lemma_rows_from_timeline(rf, phases, segs);
    let p = lemma_sorted_seq_stable(rows0);
    let pos = Seq::new(out.len(), |k: int| q[p[k]]);
    assert forall|k: int| 0 <= k < pos.len() implies 0 <= #[trigger] pos[k] < rf.len() && rf[pos[k]].fact.id == out[k].fact_id by {
        assert(out[k] == segment_of(rows, goals, k));
        assert(rows[k] == rows0[p[k]]);
        assert(0 <= q[p[k]] < rf.len());
    }
    assert forall|k: int, l: int| 0 <= k < l < pos.len()
        && (#[trigger] out[k]).match_elapsed_start.millis == (#[trigger] out[l]).match_elapsed_start.millis
        implies pos[k] < pos[l] by {
        assert(out[k] == segment_of(rows, goals, k));
        assert(out[l] == segment_of(rows, goals, l));
        assert(rows[l].key_le(rows[k]));
        assert(p[k] < p[l]);
        assert(q[p[k]] < q[p[l]]);
    }
    pos
}

/// A resolved fact that declares a possession.
pub open spec fn is_possession_entry(r: ResolvedFact) -> bool {
    r.fact.payload is Possession
}

proof fn lemma_rows_account_for_possessions(rf: Seq<ResolvedFact>, phases: Seq<Phase>, segs: Seq<TimeSegment>)
    ensures
        possession_rows(rf, phases, segs).0.len() + possession_rows(rf, phases, segs).1.len()
            == count_where(rf, |r: ResolvedFact| is_possession_entry(r)),
    decreases rf.len(),
{
    if rf.len() > 0 {
        lemma_rows_account_for_possessions(rf.drop_last(), phases, segs);
    }
}

/// No possession fact is dropped: each one either makes an interval or is listed as
/// unresolved, so the intervals and the unresolved ids together number the possession
/// facts of the log.
pub proof fn lemma_possessions_accounted_for(rf: Seq<ResolvedFact>, phases: Seq<Phase>, segs: Seq<TimeSegment>)
    ensures
        possession_segments(rf, phases, segs).len() + possession_rows(rf, phases, segs).1.len()
            == count_where(rf, |r: ResolvedFact| is_possession_entry(r)),
{
    lemma_possession_intervals(rf, phases, segs);
    lemma_rows_account_for_possessions(rf, phases, segs);
}

} // verus!
