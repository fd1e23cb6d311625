//! Score progression: the running score over match time, for the goal-difference chart.

use vstd::prelude::*;

use crate::clock::Seconds;
use crate::configuration::PhaseKind;
use crate::entities::Match;
use crate::facts::{MatchFact, MatchFactPayload, PlayEventKind};
use crate::ids::FactId;
use crate::projection::segment_resolver::Phase;
use crate::projection::segment_resolver::resolve;
use crate::projection::timeline::{resolved_log, ResolvedFact, TimelineProjection};
use crate::sorting::{lemma_sorted_seq_len, sorted_seq, stable_sort, KeyOrder};

verus! {

/// The running score as a step function.
///
/// `points` doubles every goal: one point just before it and one just after, so a
/// chart drawn through the points is the step function itself.  It starts at
/// `(0, 0:0)` and ends at `(total_seconds, final score)`.
#[derive(Debug, Clone, PartialEq)]
pub struct ScoreProgressionProjection {
    pub points: Vec<ScoreProgressionPoint>,
    /// Match-clock spans of the regular phases, in order.
    pub phase_spans: Vec<ScoreProgressionPhaseSpan>,
    pub total_seconds: Seconds,
    /// Largest lead of either side (at least 1), for the chart's scale.
    pub max_abs_diff: i64,
}

#[derive(Debug, Clone, Copy, PartialEq, Eq, Structural)]
pub struct ScoreProgressionPoint {
    pub cumulative_seconds: Seconds,
    pub home_score: i64,
    pub away_score: i64,
}

impl ScoreProgressionPoint {
    /// away − home: negative while home leads.
    pub fn diff(&self) -> (r: i64)
        requires
            i64::MIN <= self.away_score - self.home_score <= i64::MAX,
        ensures
            r == self.away_score - self.home_score,
    {
        self.away_score - self.home_score
    }
}

/// Match-clock span of one regular phase.
#[derive(Debug, Clone, Copy, PartialEq, Eq, Structural)]
pub struct ScoreProgressionPhaseSpan {
    pub phase_fact_id: FactId,
    /// Index among the spans (regular phases), from zero.
    pub regular_index: usize,
    pub start_seconds: Seconds,
    pub end_seconds: Seconds,
}

/// A goal at a match-clock position, credited home or not.
#[derive(Debug, Clone, Copy, PartialEq, Eq, Structural)]
pub struct GoalRow {
    pub cumulative_ms: i64,
    pub is_home: bool,
}

impl KeyOrder for GoalRow {
    open spec fn key_le(self, other: Self) -> bool {
        self.cumulative_ms <= other.cumulative_ms
    }

    proof fn lemma_total(a: Self, b: Self) {
    }

    proof fn lemma_trans(a: Self, b: Self, c: Self) {
    }

    fn le(&self, other: &Self) -> (r: bool) {
        self.cumulative_ms <= other.cumulative_ms
    }
}

/// The spans of the regular phases that have both match-clock ends, numbered in order.
pub open spec fn regular_spans(phases: Seq<Phase>) -> Seq<ScoreProgressionPhaseSpan>
    decreases phases.len(),
{
    if phases.len() == 0 {
        Seq::empty()
    } else {
        let rest = regular_spans(phases.drop_last());
        let p = phases.last();
        match (p.kind, p.match_elapsed_start, p.match_elapsed_end) {
            (PhaseKind::Regular, Some(s), Some(e)) => rest.push(ScoreProgressionPhaseSpan {
                phase_fact_id: p.fact_id,
                regular_index: rest.len() as usize,
                start_seconds: s,
                end_seconds: e,
            }),
            _ => rest,
        }
    }
}

/// The largest span end, or zero when larger.
pub open spec fn max_span_end(spans: Seq<ScoreProgressionPhaseSpan>) -> i64
    decreases spans.len(),
{
    if spans.len() == 0 {
        0
    } else {
        let m = max_span_end(spans.drop_last());
        let e = spans.last().end_seconds.millis;
        if m >= e { m } else { e }
    }
}

/// The goals of the timeline that resolve to a match clock, in timeline order.
pub open spec fn goal_rows(rf: Seq<ResolvedFact>, m: Match) -> Seq<GoalRow>
    decreases rf.len(),
{
    if rf.len() == 0 {
        Seq::empty()
    } else {
        let rest = goal_rows(rf.drop_last(), m);
        let r = rf.last();
        match (r.fact.payload, r.resolved_match_clock) {
            (MatchFactPayload::Play(p), Some(mc)) => {
                if p.kind == PlayEventKind::Goal {
                    rest.push(GoalRow { cumulative_ms: mc.elapsed_seconds.millis, is_home: p.team_id == Some(m.home_team_id) })
                } else {
                    rest
                }
            },
            _ => rest,
        }
    }
}

/// Running totals after `rows`: (points so far without the opening one, home, away,
/// largest lead).
pub open spec fn progress(rows: Seq<GoalRow>) -> (Seq<ScoreProgressionPoint>, int, int, int)
    decreases rows.len(),
{
    if rows.len() == 0 {
        (Seq::empty(), 0, 0, 0)
    } else {
        let (pts, h, a, mx) = progress(rows.drop_last());
        let row = rows.last();
        let t = Seconds { millis: row.cumulative_ms };
        let h2 = if row.is_home { h + 1 } else { h };
        let a2 = if row.is_home { a } else { a + 1 };
        let d = if a2 - h2 >= 0 { a2 - h2 } else { h2 - a2 };
        (
            pts.push(ScoreProgressionPoint { cumulative_seconds: t, home_score: h as i64, away_score: a as i64 })
                .push(ScoreProgressionPoint { cumulative_seconds: t, home_score: h2 as i64, away_score: a2 as i64 }),
            h2,
            a2,
            if mx >= d { mx } else { d },
        )
    }
}

/// The score progression of a timeline: `None` when there is no regular phase with a
/// match-clock range or no goal that resolves to a match clock.
pub open spec fn progression(rf: Seq<ResolvedFact>, phases: Seq<Phase>, m: Match) -> Option<(Seq<ScoreProgressionPoint>, Seq<ScoreProgressionPhaseSpan>, i64, i64)> {
    let spans = regular_spans(phases);
    let rows = sorted_seq(goal_rows(rf, m));
    if spans.len() == 0 || rows.len() == 0 {
        None
    } else {
        let me = max_span_end(spans);
        let total = if me >= 1000 { me } else { 1000 };
        let (pts, h, a, mx) = progress(rows);
        Some((
            seq![ScoreProgressionPoint { cumulative_seconds: Seconds { millis: 0 }, home_score: 0, away_score: 0 }]
                + pts.push(ScoreProgressionPoint { cumulative_seconds: Seconds { millis: total }, home_score: h as i64, away_score: a as i64 }),
            spans,
            total,
            if mx >= 1 { mx as i64 } else { 1 },
        ))
    }
}

proof fn lemma_progress_bounds(rows: Seq<GoalRow>)
    ensures
        0 <= progress(rows).1 <= rows.len(),
        0 <= progress(rows).2 <= rows.len(),
        progress(rows).1 + progress(rows).2 == rows.len(),
        0 <= progress(rows).3 <= rows.len(),
        progress(rows).0.len() == 2 * rows.len(),
    decreases rows.len(),
{
    if rows.len() > 0 {
        lemma_progress_bounds(rows.drop_last());
    }
}

proof fn lemma_goal_rows_len(rf: Seq<ResolvedFact>, m: Match)
    ensures
        goal_rows(rf, m).len() <= rf.len(),
    decreases rf.len(),
{
    if rf.len() > 0 {
        lemma_goal_rows_len(rf.drop_last(), m);
    }
}


fn spans_of(phases_v: &Vec<Phase>) -> (r: (Vec<ScoreProgressionPhaseSpan>, Seconds))
    ensures
        r.0@ == regular_spans(phases_v@),
        r.1.millis == max_span_end(r.0@),
{
    let ghost phases = phases_v@;
    let mut spans: Vec<ScoreProgressionPhaseSpan> = Vec::new();
    let mut max_end = Seconds::zero();
    let mut i: usize = 0;
    while i < phases_v.len()
        invariant
            i <= phases.len(),
            phases == phases_v@,
            spans@ == regular_spans(phases.take(i as int)),
            spans@.len() <= i,
            max_end.millis == max_span_end(spans@),
        decreases phases.len() - i,
    {
        proof {
            assert(phases.take(i + 1).drop_last() == phases.take(i as int));
        }
        let p = phases_v[i];
        if p.kind == PhaseKind::Regular {
            match (p.match_elapsed_start, p.match_elapsed_end) {
                (Some(start), Some(end)) => {
                    let ghost before = spans@;
                    spans.push(ScoreProgressionPhaseSpan {
                        phase_fact_id: p.fact_id,
                        regular_index: spans.len(),
                        start_seconds: start,
                        end_seconds: end,
                    });
                    proof {
                        assert(spans@.drop_last() == before);
                    }
                    max_end = max_end.max(end);
                },
                _ => {},
            }
        }
        i += 1;
    }
    assert(phases.take(phases.len() as int) == phases);
    (spans, max_end)
}

fn goal_rows_of(match_: &Match, timeline: &TimelineProjection) -> (r: Vec<GoalRow>)
    ensures
        r@ == goal_rows(timeline.resolved_facts@, *match_),
{
    let ghost rf = timeline.resolved_facts@;
    let mut rows: Vec<GoalRow> = Vec::new();
    let mut j: usize = 0;
    while j < timeline.resolved_facts.len()
        invariant
            j <= rf.len(),
            rf == timeline.resolved_facts@,
            rows@ == goal_rows(rf.take(j as int), *match_),
        decreases rf.len() - j,
    {
        proof {
            assert(rf.take(j + 1).drop_last() == rf.take(j as int));
        }
        let r = &timeline.resolved_facts[j];
        match (&r.fact.payload, r.resolved_match_clock) {
            (MatchFactPayload::Play(p), Some(mc)) => {
                if p.kind == PlayEventKind::Goal {
                    rows.push(GoalRow {
                        cumulative_ms: mc.elapsed_seconds.millis,
                        is_home: p.team_id == Some(match_.home_team_id),
                    });
                }
            },
            _ => {},
        }
        j += 1;
    }
    assert(rf.take(rf.len() as int) == rf);
    rows
}

fn progress_points(sorted: &Vec<GoalRow>) -> (r: (Vec<ScoreProgressionPoint>, i64, i64, i64))
    requires
        sorted@.len() <= i64::MAX,
    ensures
        ({
            let (pts, h, a, mx) = progress(sorted@);
            &&& r.0@ == seq![ScoreProgressionPoint { cumulative_seconds: Seconds { millis: 0 }, home_score: 0, away_score: 0 }] + pts
            &&& r.1 == h && r.2 == a && r.3 == mx
        }),
{
    let mut points: Vec<ScoreProgressionPoint> = Vec::new();
    points.push(ScoreProgressionPoint { cumulative_seconds: Seconds::zero(), home_score: 0, away_score: 0 });
    let mut home: i64 = 0;
    let mut away: i64 = 0;
    let mut max_abs: i64 = 0;
    let mut k: usize = 0;
    while k < sorted.len()
        invariant
            k <= sorted@.len(),
            sorted@.len() <= i64::MAX,
            ({
                let (pts, h, a, mx) = progress(sorted@.take(k as int));
                &&& points@ == seq![ScoreProgressionPoint { cumulative_seconds: Seconds { millis: 0 }, home_score: 0, away_score: 0 }] + pts
                &&& home == h && away == a && max_abs == mx
            }),
        decreases sorted@.len() - k,
    {
        proof {
            assert(sorted@.take(k + 1).drop_last() == sorted@.take(k as int));
            lemma_progress_bounds(sorted@.take(k as int));
        }
        let row = sorted[k];
        let t = Seconds::from_millis(row.cumulative_ms);
        points.push(ScoreProgressionPoint { cumulative_seconds: t, home_score: home, away_score: away });
        if row.is_home {
            home = home + 1;
        } else {
            away = away + 1;
        }
        points.push(ScoreProgressionPoint { cumulative_seconds: t, home_score: home, away_score: away });
        let d = if away >= home { away - home } else { home - away };
        if d > max_abs {
            max_abs = d;
        }
        k += 1;
    }
    assert(sorted@.take(sorted@.len() as int) == sorted@);
    (points, home, away, max_abs)
}

impl ScoreProgressionProjection {
    /// Builds the timeline of `facts`, then the progression.
    pub fn build(match_: &Match, facts: &[MatchFact]) -> (r: Option<ScoreProgressionProjection>)
        requires
            facts@.len() <= i64::MAX,
        ensures
            match (r, progression(resolved_log(facts@), resolve(facts@).0, *match_)) {
                (None, None) => true,
                (Some(p), Some((pts, spans, total, mx))) => p.points@ == pts && p.phase_spans@ == spans
                    && p.total_seconds.millis == total && p.max_abs_diff == mx,
                _ => false,
            },
    {
        let timeline = TimelineProjection::build(match_, facts);
        proof {
            timeline.lemma_built_from(facts@);
        }
        Self::build_with_timeline(match_, &timeline)
    }

    /// The progression of a timeline; see [`progression`].  Goals whose match clock does
    /// not resolve are left out (the header score may then exceed the final point).
    pub fn build_with_timeline(match_: &Match, timeline: &TimelineProjection) -> (r: Option<ScoreProgressionProjection>)
        requires
            timeline.resolved_facts@.len() <= i64::MAX,
        ensures
            match (r, progression(timeline.resolved_facts@, timeline.resolver.phases@, *match_)) {
                (None, None) => true,
                (Some(p), Some((pts, spans, total, mx))) => p.points@ == pts && p.phase_spans@ == spans
                    && p.total_seconds.millis == total && p.max_abs_diff == mx,
                _ => false,
            },
    {
        let ghost phases = timeline.resolver.phases@;
        let ghost rf = timeline.resolved_facts@;
        let (spans, max_end) = spans_of(&timeline.resolver.phases);
        if spans.len() == 0 {
            return None;
        }
        let total_seconds = max_end.max(Seconds::from_millis(1000));
        let rows = goal_rows_of(match_, timeline);
        if rows.len() == 0 {
            proof {
                lemma_sorted_seq_len(rows@);
            }
            return None;
        }
        let sorted = stable_sort(rows);
        proof {
            lemma_sorted_seq_len(goal_rows(rf, *match_));
            lemma_goal_rows_len(rf, *match_);
        }
        let (mut points, home, away, max_abs) = progress_points(&sorted);
        points.push(ScoreProgressionPoint { cumulative_seconds: total_seconds, home_score: home, away_score: away });
        Some(ScoreProgressionProjection {
            points,
            phase_spans: spans,
            total_seconds,
            max_abs_diff: if max_abs >= 1 { max_abs } else { 1 },
        })
    }
}

proof fn lemma_progress_points(rows: Seq<GoalRow>)
    requires
        rows.len() <= i64::MAX,
    ensures
        progress(rows).0.len() == 2 * rows.len(),
        progress(rows).1 + progress(rows).2 == rows.len(),
        forall|k: int|
            0 <= k < rows.len() ==> {
                &&& (#[trigger] progress(rows).0[2 * k]).cumulative_seconds.millis == rows[k].cumulative_ms
                &&& progress(rows).0[2 * k + 1].cumulative_seconds == progress(rows).0[2 * k].cumulative_seconds
                &&& progress(rows).0[2 * k].home_score + progress(rows).0[2 * k].away_score == k
                &&& progress(rows).0[2 * k + 1].home_score + progress(rows).0[2 * k + 1].away_score == k + 1
            },
    decreases rows.len(),
{
    if rows.len() > 0 {
        let prev = rows.drop_last();
        lemma_progress_points(prev);
        lemma_progress_bounds(prev);
        let (pts0, h, a, mx) = progress(prev);
        let pts = progress(rows).0;
        assert forall|k: int| 0 <= k < rows.len() implies {
            &&& (#[trigger] pts[2 * k]).cumulative_seconds.millis == rows[k].cumulative_ms
            &&& pts[2 * k + 1].cumulative_seconds == pts[2 * k].cumulative_seconds
            &&& pts[2 * k].home_score + pts[2 * k].away_score == k
            &&& pts[2 * k + 1].home_score + pts[2 * k + 1].away_score == k + 1
        } by {
            if k < prev.len() {
                assert(pts[2 * k] == pts0[2 * k]);
                assert(pts[2 * k + 1] == pts0[2 * k + 1]);
                assert(rows[k] == prev[k]);
            }
        }
    }
}

/// A progression doubles every goal it counts.  After the opening `0:0` point at zero
/// seconds, the `k`-th counted goal (in time order) gives two points at its time: the
/// score before it (`k` goals in all) and after it (`k + 1`).  The goal times never
/// decrease, and the closing point carries as many goals as were counted.  The largest
/// lead is at least 1.
pub proof fn lemma_progression_steps(rf: Seq<ResolvedFact>, phases: Seq<Phase>, m: Match)
    requires
        rf.len() <= i64::MAX,
    ensures
        progression(rf, phases, m) matches Some((pts, spans, total, lead)) ==> {
            let rows = sorted_seq(goal_rows(rf, m));
            &&& pts.len() == 2 * rows.len() + 2
            &&& pts[0] == (ScoreProgressionPoint { cumulative_seconds: Seconds { millis: 0 }, home_score: 0, away_score: 0 })
            &&& forall|k: int|
                0 <= k < rows.len() ==> {
                    &&& (#[trigger] pts[1 + 2 * k]).cumulative_seconds.millis == rows[k].cumulative_ms
                    &&& pts[2 + 2 * k].cumulative_seconds == pts[1 + 2 * k].cumulative_seconds
                    &&& pts[1 + 2 * k].home_score + pts[1 + 2 * k].away_score == k
                    &&& pts[2 + 2 * k].home_score + pts[2 + 2 * k].away_score == k + 1
                }
            &&& forall|k: int, l: int| 0 <= k < l < rows.len() ==> (#[trigger] rows[k]).cumulative_ms <= (#[trigger] rows[l]).cumulative_ms
            &&& pts.last().home_score + pts.last().away_score == rows.len()
            &&& lead >= 1
        },
{
    let rows = sorted_seq(goal_rows(rf, m));
    lemma_goal_rows_len(rf, m);
    lemma_sorted_seq_len(goal_rows(rf, m));
    crate::sorting::lemma_sorted_seq_sorted(goal_rows(rf, m));
    lemma_progress_points(rows);
    lemma_progress_bounds(rows);
    if progression(rf, phases, m) is Some {
        let (pts0, h, a, mx) = progress(rows);
        let spans = regular_spans(phases);
        let me = max_span_end(spans);
        let total = if me >= 1000 { me } else { 1000 };
        let pts = seq![ScoreProgressionPoint { cumulative_seconds: Seconds { millis: 0 }, home_score: 0, away_score: 0 }]
            + pts0.push(ScoreProgressionPoint { cumulative_seconds: Seconds { millis: total }, home_score: h as i64, away_score: a as i64 });
        assert(progression(rf, phases, m) == Some((pts, spans, total, if mx >= 1 { mx as i64 } else { 1 })));
        assert forall|k: int| 0 <= k < rows.len() implies {
            &&& (#[trigger] pts[1 + 2 * k]).cumulative_seconds.millis == rows[k].cumulative_ms
            &&& pts[2 + 2 * k].cumulative_seconds == pts[1 + 2 * k].cumulative_seconds
            &&& pts[1 + 2 * k].home_score + pts[1 + 2 * k].away_score == k
            &&& pts[2 + 2 * k].home_score + pts[2 + 2 * k].away_score == k + 1
        } by {
            assert(pts[1 + 2 * k] == pts0[2 * k]);
            assert(pts[2 + 2 * k] == pts0[2 * k + 1]);
        }
        assert forall|k: int, l: int| 0 <= k < l < rows.len() implies (#[trigger] rows[k]).cumulative_ms <= (#[trigger] rows[l]).cumulative_ms by {
            assert(rows[k].key_le(rows[l]));
        }
    }
}

/// The lead at a point: how far one side is ahead, whichever it is.
pub open spec fn lead_at(p: ScoreProgressionPoint) -> int {
    if p.away_score >= p.home_score {
        p.away_score - p.home_score
    } else {
        p.home_score - p.away_score
    }
}

proof fn lemma_progress_lead(rows: Seq<GoalRow>)
    requires
        rows.len() <= i64::MAX,
    ensures
        forall|i: int| 0 <= i < progress(rows).0.len() ==> lead_at(#[trigger] progress(rows).0[i]) <= progress(rows).3,
        (if progress(rows).2 >= progress(rows).1 { progress(rows).2 - progress(rows).1 } else { progress(rows).1 - progress(rows).2 })
            <= progress(rows).3,
        progress(rows).3 == 0 || exists|i: int| 0 <= i < progress(rows).0.len() && lead_at(#[trigger] progress(rows).0[i]) == progress(rows).3,
    decreases rows.len(),
{
    lemma_progress_bounds(rows);
    if rows.len() > 0 {
        let prev = rows.drop_last();
        lemma_progress_lead(prev);
        lemma_progress_bounds(prev);
        let (pts0, h, a, mx) = progress(prev);
        let pts = progress(rows).0;
        assert(pts.len() == pts0.len() + 2);
        assert forall|i: int| 0 <= i < pts.len() implies lead_at(#[trigger] pts[i]) <= progress(rows).3 by {
            if i < pts0.len() {
                assert(pts[i] == pts0[i]);
            }
        }
        if progress(rows).3 != mx {
            assert(lead_at(pts[pts.len() - 1]) == progress(rows).3);
        } else if mx != 0 {
            let w = choose|w: int| 0 <= w < pts0.len() && lead_at(#[trigger] pts0[w]) == mx;
            assert(pts[w] == pts0[w]);
        }
    }
}

/// `scale` is the largest lead over `pts`, and at least 1: at least the lead at every
/// point, and 1 or the lead at some point.
pub open spec fn largest_lead(pts: Seq<ScoreProgressionPoint>, scale: i64) -> bool {
    &&& scale >= 1
    &&& forall|i: int| 0 <= i < pts.len() ==> lead_at(#[trigger] pts[i]) <= scale
    &&& (scale == 1 || exists|i: int| 0 <= i < pts.len() && lead_at(#[trigger] pts[i]) == scale)
}

/// The scale of a progression is the largest lead of either side: it is at least the
/// lead at every point, at least 1, and it is 1 or the lead at some point.
pub proof fn lemma_progression_lead(rf: Seq<ResolvedFact>, phases: Seq<Phase>, m: Match)
    requires
        rf.len() <= i64::MAX,
    ensures
        progression(rf, phases, m) matches Some((pts, spans, total, scale)) ==> largest_lead(pts, scale),
{
    let rows = sorted_seq(goal_rows(rf, m));
    lemma_goal_rows_len(rf, m);
    lemma_sorted_seq_len(goal_rows(rf, m));
    lemma_progress_lead(rows);
    lemma_progress_bounds(rows);
    if progression(rf, phases, m) is Some {
        let (pts0, h, a, mx) = progress(rows);
        let spans = regular_spans(phases);
        let me = max_span_end(spans);
        let total = if me >= 1000 { me } else { 1000 };
        let first = ScoreProgressionPoint { cumulative_seconds: Seconds { millis: 0 }, home_score: 0, away_score: 0 };
        let last = ScoreProgressionPoint { cumulative_seconds: Seconds { millis: total }, home_score: h as i64, away_score: a as i64 };
        let pts = seq![first] + pts0.push(last);
        let scale: i64 = if mx >= 1 { mx as i64 } else { 1 };
        assert(progression(rf, phases, m) == Some((pts, spans, total, scale)));
        assert forall|i: int| 0 <= i < pts.len() implies lead_at(#[trigger] pts[i]) <= scale by {
            if i == 0 {
            } else if i <= pts0.len() {
                assert(pts[i] == pts0[i - 1]);
            } else {
                assert(pts[i] == last);
                assert(lead_at(last) == (if a >= h { a - h } else { h - a }));
            }
        }
        assert(scale >= 1);
        if scale != 1 {
            assert(mx != 0);
            let w = choose|w: int| 0 <= w < pts0.len() && lead_at(#[trigger] pts0[w]) == mx;
            assert(pts[w + 1] == pts0[w]);
            assert(lead_at(pts[w + 1]) == scale);
        }
        assert(largest_lead(pts, scale));
    }
}

} // verus!
