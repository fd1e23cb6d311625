//! The summary: score, goal / missed-shot tallies per team, player and phase.

use vstd::prelude::*;

use crate::configuration::PhaseKind;
use crate::entities::Match;
use crate::facts::{MatchFact, MatchFactPayload, PlayEventKind};
use crate::ids::{FactId, PlayerId, TeamId};
use crate::projection::segment_resolver::{distinct_phase_ids, phase_at, Phase};
use crate::projection::timeline::{ResolvedFact, TimelineProjection};
use crate::seqs::{
    count_where, lemma_count_where_bound, lemma_count_where_disjoint, lemma_count_where_map, lemma_count_where_mono,
    lemma_count_where_none, lemma_count_where_step,
};

verus! {

/// Score and tallies of a fact log.
///
/// Team and player tallies depend only on the plays (kind, team, player) and count
/// every goal; the per-phase tallies need resolved clocks and exist only when built
/// from a timeline (`build` leaves them empty).
#[derive(Debug, Clone, PartialEq)]
pub struct SummaryProjection {
    pub home_score: i64,
    pub away_score: i64,
    pub home_team: TeamSummaryLine,
    pub away_team: TeamSummaryLine,
    pub player_stats: Vec<PlayerStatLine>,
    /// Per phase with at least one tallied play, in resolver order.
    pub phase_summaries: Vec<PhaseSummaryLine>,
}

#[derive(Debug, Clone, Copy, PartialEq, Eq, Structural)]
pub struct TeamSummaryLine {
    pub team_id: TeamId,
    pub goals: i64,
    pub shot_misses: i64,
}

impl TeamSummaryLine {
    /// Goals plus missed shots.
    pub fn shot_attempts(&self) -> (r: i64)
        requires
            i64::MIN <= self.goals + self.shot_misses <= i64::MAX,
        ensures
            r == self.goals + self.shot_misses,
    {
        self.goals + self.shot_misses
    }
}

#[derive(Debug, Clone, Copy, PartialEq, Eq, Structural)]
pub struct PlayerStatLine {
    pub player_id: PlayerId,
    pub goals: i64,
    pub shot_misses: i64,
}

impl PlayerStatLine {
    /// Goals plus missed shots.
    pub fn shot_attempts(&self) -> (r: i64)
        requires
            i64::MIN <= self.goals + self.shot_misses <= i64::MAX,
        ensures
            r == self.goals + self.shot_misses,
    {
        self.goals + self.shot_misses
    }
}

/// Home / away tallies of one phase. `regular_index` counts regular phases from zero
/// (`None` for a shootout); labels are the UI's business.
#[derive(Debug, Clone, Copy, PartialEq, Eq, Structural)]
pub struct PhaseSummaryLine {
    pub phase_fact_id: FactId,
    pub kind: PhaseKind,
    pub regular_index: Option<usize>,
    pub home_goals: i64,
    pub home_shot_misses: i64,
    pub away_goals: i64,
    pub away_shot_misses: i64,
}

impl PhaseSummaryLine {
    pub fn home_attempts(&self) -> (r: i64)
        requires
            i64::MIN <= self.home_goals + self.home_shot_misses <= i64::MAX,
        ensures
            r == self.home_goals + self.home_shot_misses,
    {
        self.home_goals + self.home_shot_misses
    }

    pub fn away_attempts(&self) -> (r: i64)
        requires
            i64::MIN <= self.away_goals + self.away_shot_misses <= i64::MAX,
        ensures
            r == self.away_goals + self.away_shot_misses,
    {
        self.away_goals + self.away_shot_misses
    }
}

// ── what is counted ──

/// A play of this kind credited to this team.
pub open spec fn team_play(team: TeamId, kind: PlayEventKind) -> spec_fn(MatchFact) -> bool {
    |f: MatchFact| match f.payload {
        MatchFactPayload::Play(p) => p.kind == kind && p.team_id == Some(team),
        _ => false,
    }
}

/// A play of this kind credited to the away team (and not to the home team, should the
/// two ids coincide).
pub open spec fn away_play(home: TeamId, away: TeamId, kind: PlayEventKind) -> spec_fn(MatchFact) -> bool {
    |f: MatchFact| match f.payload {
        MatchFactPayload::Play(p) => p.kind == kind && p.team_id == Some(away) && p.team_id != Some(home),
        _ => false,
    }
}

/// A play of this kind by this player.
pub open spec fn player_play(player: PlayerId, kind: PlayEventKind) -> spec_fn(MatchFact) -> bool {
    |f: MatchFact| match f.payload {
        MatchFactPayload::Play(p) => p.kind == kind && p.player_id == Some(player),
        _ => false,
    }
}

/// A goal or missed shot by this player.
pub open spec fn player_shot(player: PlayerId) -> spec_fn(MatchFact) -> bool {
    |f: MatchFact| match f.payload {
        MatchFactPayload::Play(p) => (p.kind == PlayEventKind::Goal || p.kind == PlayEventKind::ShotMissed)
            && p.player_id == Some(player),
        _ => false,
    }
}

/// The home and away lines of a fact log.
pub open spec fn team_lines(m: Match, facts: Seq<MatchFact>) -> (TeamSummaryLine, TeamSummaryLine) {
    (
        TeamSummaryLine {
            team_id: m.home_team_id,
            goals: count_where(facts, team_play(m.home_team_id, PlayEventKind::Goal)) as i64,
            shot_misses: count_where(facts, team_play(m.home_team_id, PlayEventKind::ShotMissed)) as i64,
        },
        TeamSummaryLine {
            team_id: m.away_team_id,
            goals: count_where(facts, away_play(m.home_team_id, m.away_team_id, PlayEventKind::Goal)) as i64,
            shot_misses: count_where(facts, away_play(m.home_team_id, m.away_team_id, PlayEventKind::ShotMissed)) as i64,
        },
    )
}

/// The player lines of a fact log: one per player with a goal or missed shot, in
/// ascending id order, with that player's counts.
pub open spec fn player_lines_of(lines: Seq<PlayerStatLine>, facts: Seq<MatchFact>) -> bool {
    &&& forall|a: int, b: int| 0 <= a < b < lines.len() ==> (#[trigger] lines[a]).player_id.0 < (#[trigger] lines[b]).player_id.0
    &&& forall|k: int| 0 <= k < lines.len() ==> {
        let l = #[trigger] lines[k];
        &&& l.goals == count_where(facts, player_play(l.player_id, PlayEventKind::Goal))
        &&& l.shot_misses == count_where(facts, player_play(l.player_id, PlayEventKind::ShotMissed))
        &&& count_where(facts, player_shot(l.player_id)) > 0
    }
    &&& forall|pid: PlayerId| #[trigger] count_where(facts, player_shot(pid)) > 0 ==>
        exists|k: int| 0 <= k < lines.len() && (#[trigger] lines[k]).player_id == pid
}

proof fn lemma_count_split(facts: Seq<MatchFact>, pid: PlayerId)
    ensures
        count_where(facts, player_shot(pid)) == count_where(facts, player_play(pid, PlayEventKind::Goal))
            + count_where(facts, player_play(pid, PlayEventKind::ShotMissed)),
    decreases facts.len(),
{
    if facts.len() > 0 {
        lemma_count_split(facts.drop_last(), pid);
    }
}

/// Adds fact `i` (a goal or missed shot by `pid`) to the player lines.
fn tally_player(lines: &mut Vec<PlayerStatLine>, facts: &[MatchFact], i: usize, pid: PlayerId, is_goal: bool)
    requires
        i < facts@.len(),
        facts@.len() <= i64::MAX,
        facts@[i as int].payload matches MatchFactPayload::Play(p) && p.player_id == Some(pid)
            && (p.kind == PlayEventKind::Goal || p.kind == PlayEventKind::ShotMissed)
            && (is_goal <==> p.kind == PlayEventKind::Goal),
        player_lines_of(old(lines)@, facts@.take(i as int)),
    ensures
        player_lines_of(final(lines)@, facts@.take(i + 1)),
{
    let ghost pre = facts@.take(i as int);
    let ghost post = facts@.take(i + 1);
    let ghost old_lines = lines@;
    proof {
        assert(post.drop_last() == pre);
        lemma_count_split(pre, pid);
        lemma_count_where_bound(pre, player_shot(pid));
    }
    let mut pos: usize = 0;
    while pos < lines.len() && lines[pos].player_id.0 < pid.0
        invariant
            pos <= lines@.len(),
            lines@ == old_lines,
            forall|k: int| 0 <= k < pos ==> (#[trigger] lines@[k]).player_id.0 < pid.0,
        decreases lines@.len() - pos,
    {
        pos += 1;
    }
    let ghost mut inserted = false;
    if pos < lines.len() && lines[pos].player_id.0 == pid.0 {
        let mut line = lines[pos];
        if is_goal { line.goals = line.goals + 1; } else { line.shot_misses = line.shot_misses + 1; }
        lines.set(pos, line);
    } else {
        proof {
            inserted = true;
            if count_where(pre, player_shot(pid)) > 0 {
                let k = choose|k: int| 0 <= k < old_lines.len() && (#[trigger] old_lines[k]).player_id == pid;
                if k > pos {
                    assert(old_lines[pos as int].player_id.0 < old_lines[k].player_id.0);
                }
            }
        }
        lines.insert(pos, PlayerStatLine {
            player_id: pid,
            goals: if is_goal { 1 } else { 0 },
            shot_misses: if is_goal { 0 } else { 1 },
        });
    }
    proof {
        assert forall|k: int| 0 <= k < lines@.len() implies {
            let l = #[trigger] lines@[k];
            &&& l.goals == count_where(post, player_play(l.player_id, PlayEventKind::Goal))
            &&& l.shot_misses == count_where(post, player_play(l.player_id, PlayEventKind::ShotMissed))
            &&& count_where(post, player_shot(l.player_id)) > 0
        } by {
            let l = lines@[k];
            lemma_count_where_step(facts@, player_play(l.player_id, PlayEventKind::Goal), i as int);
            lemma_count_where_step(facts@, player_play(l.player_id, PlayEventKind::ShotMissed), i as int);
            lemma_count_where_step(facts@, player_shot(l.player_id), i as int);
            if l.player_id != pid {
                if inserted {
                    let ko = if k < pos { k } else { k - 1 };
                    assert(old_lines[ko] == l);
                } else {
                    assert(old_lines[k] == l);
                }
            }
        }
        assert forall|q: PlayerId| #[trigger] count_where(post, player_shot(q)) > 0 implies
            exists|k: int| 0 <= k < lines@.len() && (#[trigger] lines@[k]).player_id == q by {
            lemma_count_where_step(facts@, player_shot(q), i as int);
            if q == pid {
                assert(lines@[pos as int].player_id == pid);
            } else {
                assert(count_where(pre, player_shot(q)) > 0);
                let k = choose|k: int| 0 <= k < old_lines.len() && (#[trigger] old_lines[k]).player_id == q;
                if !inserted {
                    assert(old_lines[pos as int].player_id == pid);
                    assert(lines@[k] == old_lines[k]);
                } else if k < pos {
                    assert(lines@[k] == old_lines[k]);
                } else {
                    assert(lines@[k + 1] == old_lines[k]);
                }
            }
        }
        assert forall|a: int, b: int| 0 <= a < b < lines@.len() implies
            (#[trigger] lines@[a]).player_id.0 < (#[trigger] lines@[b]).player_id.0 by {
            if inserted {
                if a < pos && b > pos {
                    assert(old_lines[a].player_id.0 < pid.0);
                } else if a == pos && b > pos {
                    assert(old_lines[b - 1].player_id.0 >= old_lines[pos as int].player_id.0);
                }
            }
        }
    }
}

/// A goal or missed shot by a player without a team line (no player) changes only the
/// team tallies.
proof fn lemma_player_lines_no_player(facts: Seq<MatchFact>, i: int, lines: Seq<PlayerStatLine>)
    requires
        0 <= i < facts.len(),
        facts[i].payload matches MatchFactPayload::Play(p) && p.player_id is None,
        player_lines_of(lines, facts.take(i)),
    ensures
        player_lines_of(lines, facts.take(i + 1)),
{
    let post = facts.take(i + 1);
    assert forall|k: int| 0 <= k < lines.len() implies {
        let l = #[trigger] lines[k];
        &&& l.goals == count_where(post, player_play(l.player_id, PlayEventKind::Goal))
        &&& l.shot_misses == count_where(post, player_play(l.player_id, PlayEventKind::ShotMissed))
        &&& count_where(post, player_shot(l.player_id)) > 0
    } by {
        let l = lines[k];
        lemma_count_where_step(facts, player_play(l.player_id, PlayEventKind::Goal), i);
        lemma_count_where_step(facts, player_play(l.player_id, PlayEventKind::ShotMissed), i);
        lemma_count_where_step(facts, player_shot(l.player_id), i);
    }
    assert forall|q: PlayerId| #[trigger] count_where(post, player_shot(q)) > 0 implies
        exists|k: int| 0 <= k < lines.len() && (#[trigger] lines[k]).player_id == q by {
        lemma_count_where_step(facts, player_shot(q), i);
    }
}

/// Adds fact `i` to the team lines.
proof fn lemma_team_step(facts: Seq<MatchFact>, i: int, m: Match)
    requires
        0 <= i < facts.len(),
    ensures
        ({
            let (h0, a0) = team_lines(m, facts.take(i));
            let (h1, a1) = team_lines(m, facts.take(i + 1));
            let f = facts[i];
            let home = m.home_team_id;
            let away = m.away_team_id;
            &&& h1.goals == h0.goals + (if team_play(home, PlayEventKind::Goal)(f) { 1int } else { 0 })
            &&& h1.shot_misses == h0.shot_misses + (if team_play(home, PlayEventKind::ShotMissed)(f) { 1int } else { 0 })
            &&& a1.goals == a0.goals + (if away_play(home, away, PlayEventKind::Goal)(f) { 1int } else { 0 })
            &&& a1.shot_misses == a0.shot_misses + (if away_play(home, away, PlayEventKind::ShotMissed)(f) { 1int } else { 0 })
        }) || facts.len() > i64::MAX,
{
    if facts.len() <= i64::MAX {
        let home = m.home_team_id;
        let away = m.away_team_id;
        lemma_count_where_step(facts, team_play(home, PlayEventKind::Goal), i);
        lemma_count_where_step(facts, team_play(home, PlayEventKind::ShotMissed), i);
        lemma_count_where_step(facts, away_play(home, away, PlayEventKind::Goal), i);
        lemma_count_where_step(facts, away_play(home, away, PlayEventKind::ShotMissed), i);
        lemma_count_where_bound(facts.take(i + 1), team_play(home, PlayEventKind::Goal));
        lemma_count_where_bound(facts.take(i + 1), team_play(home, PlayEventKind::ShotMissed));
        lemma_count_where_bound(facts.take(i + 1), away_play(home, away, PlayEventKind::Goal));
        lemma_count_where_bound(facts.take(i + 1), away_play(home, away, PlayEventKind::ShotMissed));
    }
}

/// Team lines and player lines of a fact log.
fn aggregate_core(match_: &Match, facts: &[MatchFact]) -> (r: (TeamSummaryLine, TeamSummaryLine, Vec<PlayerStatLine>))
    requires
        facts@.len() <= i64::MAX,
    ensures
        (r.0, r.1) == team_lines(*match_, facts@),
        player_lines_of(r.2@, facts@),
{
    let home_id = match_.home_team_id;
    let away_id = match_.away_team_id;
    let mut home = TeamSummaryLine { team_id: home_id, goals: 0, shot_misses: 0 };
    let mut away = TeamSummaryLine { team_id: away_id, goals: 0, shot_misses: 0 };
    let mut lines: Vec<PlayerStatLine> = Vec::new();
    let mut i: usize = 0;
    while i < facts.len()
        invariant
            i <= facts.len(),
            facts@.len() <= i64::MAX,
            home_id == match_.home_team_id,
            away_id == match_.away_team_id,
            (home, away) == team_lines(*match_, facts@.take(i as int)),
            player_lines_of(lines@, facts@.take(i as int)),
        decreases facts.len() - i,
    {
        proof {
            lemma_team_step(facts@, i as int, *match_);
        }
        match &facts[i].payload {
            MatchFactPayload::Play(play) => {
                if play.kind == PlayEventKind::Goal || play.kind == PlayEventKind::ShotMissed {
                    let is_goal = play.kind == PlayEventKind::Goal;
                    if play.team_id == Some(home_id) {
                        if is_goal { home.goals = home.goals + 1; } else { home.shot_misses = home.shot_misses + 1; }
                    } else if play.team_id == Some(away_id) {
                        if is_goal { away.goals = away.goals + 1; } else { away.shot_misses = away.shot_misses + 1; }
                    }
                    match play.player_id {
                        Some(pid) => tally_player(&mut lines, facts, i, pid, is_goal),
                        None => {
                            proof { lemma_player_lines_no_player(facts@, i as int, lines@); }
                        },
                    }
                } else {
                    proof { lemma_unchanged_step(facts@, i as int, lines@, *match_); }
                }
            },
            _ => {
                proof { lemma_unchanged_step(facts@, i as int, lines@, *match_); }
            },
        }
        i += 1;
    }
    assert(facts@.take(facts.len() as int) == facts@);
    (home, away, lines)
}

/// A fact that is neither a goal nor a missed shot changes no tally.
proof fn lemma_unchanged_step(facts: Seq<MatchFact>, i: int, lines: Seq<PlayerStatLine>, m: Match)
    requires
        0 <= i < facts.len(),
        !(facts[i].payload matches MatchFactPayload::Play(p) && (p.kind == PlayEventKind::Goal || p.kind == PlayEventKind::ShotMissed)),
        player_lines_of(lines, facts.take(i)),
    ensures
        team_lines(m, facts.take(i + 1)) == team_lines(m, facts.take(i)),
        player_lines_of(lines, facts.take(i + 1)),
{
    lemma_count_where_step(facts, team_play(m.home_team_id, PlayEventKind::Goal), i);
    lemma_count_where_step(facts, team_play(m.home_team_id, PlayEventKind::ShotMissed), i);
    lemma_count_where_step(facts, away_play(m.home_team_id, m.away_team_id, PlayEventKind::Goal), i);
    lemma_count_where_step(facts, away_play(m.home_team_id, m.away_team_id, PlayEventKind::ShotMissed), i);
    let post = facts.take(i + 1);
    assert forall|k: int| 0 <= k < lines.len() implies {
        let l = #[trigger] lines[k];
        &&& l.goals == count_where(post, player_play(l.player_id, PlayEventKind::Goal))
        &&& l.shot_misses == count_where(post, player_play(l.player_id, PlayEventKind::ShotMissed))
        &&& count_where(post, player_shot(l.player_id)) > 0
    } by {
        let l = lines[k];
        lemma_count_where_step(facts, player_play(l.player_id, PlayEventKind::Goal), i);
        lemma_count_where_step(facts, player_play(l.player_id, PlayEventKind::ShotMissed), i);
        lemma_count_where_step(facts, player_shot(l.player_id), i);
    }
    assert forall|q: PlayerId| #[trigger] count_where(post, player_shot(q)) > 0 implies
        exists|k: int| 0 <= k < lines.len() && (#[trigger] lines[k]).player_id == q by {
        lemma_count_where_step(facts, player_shot(q), i);
    }
}


// ── per-phase tallies ──

/// The phase (its fact id) a resolved goal or missed shot falls in, by its resolved
/// match clock; `None` for other facts or when no phase holds the clock.
pub open spec fn tallied_phase(all: Seq<Phase>, r: ResolvedFact) -> Option<FactId> {
    match r.fact.payload {
        MatchFactPayload::Play(p) => {
            if p.kind == PlayEventKind::Goal || p.kind == PlayEventKind::ShotMissed {
                match r.resolved_match_clock {
                    Some(mc) => match phase_at(all, mc.elapsed_seconds.millis as int) {
                        Some(ph) => Some(ph.fact_id),
                        None => None,
                    },
                    None => None,
                }
            } else {
                None
            }
        },
        _ => None,
    }
}

/// A goal or missed shot that falls in phase `fid`.
pub open spec fn in_phase(all: Seq<Phase>, fid: FactId) -> spec_fn(ResolvedFact) -> bool {
    |r: ResolvedFact| tallied_phase(all, r) == Some(fid)
}

/// A play of `kind` in phase `fid` credited to the home side (`home_side`) or to the
/// away side (and not the home side).
pub open spec fn in_phase_for(all: Seq<Phase>, fid: FactId, m: Match, kind: PlayEventKind, home_side: bool) -> spec_fn(ResolvedFact) -> bool {
    |r: ResolvedFact| tallied_phase(all, r) == Some(fid) && match r.fact.payload {
        MatchFactPayload::Play(p) => p.kind == kind && if home_side {
            p.team_id == Some(m.home_team_id)
        } else {
            p.team_id == Some(m.away_team_id) && p.team_id != Some(m.home_team_id)
        },
        _ => false,
    }
}

/// The line of phase `p` (regular index `idx`) over the resolved facts.
pub open spec fn phase_line(all: Seq<Phase>, rf: Seq<ResolvedFact>, m: Match, p: Phase, idx: Option<usize>) -> PhaseSummaryLine {
    PhaseSummaryLine {
        phase_fact_id: p.fact_id,
        kind: p.kind,
        regular_index: idx,
        home_goals: count_where(rf, in_phase_for(all, p.fact_id, m, PlayEventKind::Goal, true)) as i64,
        home_shot_misses: count_where(rf, in_phase_for(all, p.fact_id, m, PlayEventKind::ShotMissed, true)) as i64,
        away_goals: count_where(rf, in_phase_for(all, p.fact_id, m, PlayEventKind::Goal, false)) as i64,
        away_shot_misses: count_where(rf, in_phase_for(all, p.fact_id, m, PlayEventKind::ShotMissed, false)) as i64,
    }
}

/// The lines of `phases` (the regular ones numbered from `reg`), keeping only phases in
/// which some goal or missed shot falls.
pub open spec fn phase_lines(all: Seq<Phase>, rf: Seq<ResolvedFact>, m: Match, phases: Seq<Phase>, reg: nat) -> Seq<PhaseSummaryLine>
    decreases phases.len(),
{
    if phases.len() == 0 {
        Seq::empty()
    } else {
        let p = phases[0];
        let idx = if p.kind == PhaseKind::Regular { Some(reg as usize) } else { None };
        let next = if p.kind == PhaseKind::Regular { reg + 1 } else { reg };
        let rest = phase_lines(all, rf, m, phases.drop_first(), next);
        if count_where(rf, in_phase(all, p.fact_id)) > 0 {
            seq![phase_line(all, rf, m, p, idx)] + rest
        } else {
            rest
        }
    }
}

/// The facts of a timeline, in order.
pub open spec fn timeline_facts(rf: Seq<ResolvedFact>) -> Seq<MatchFact> {
    rf.map_values(|r: ResolvedFact| r.fact)
}

impl SummaryProjection {
    /// Team lines and player lines of `facts`, with the given phase lines.
    pub open spec fn tallies(self, m: Match, facts: Seq<MatchFact>) -> bool {
        let (home, away) = team_lines(m, facts);
        &&& self.home_team == home
        &&& self.away_team == away
        &&& self.home_score == home.goals
        &&& self.away_score == away.goals
        &&& player_lines_of(self.player_stats@, facts)
    }

    /// Score and team / player tallies only; `phase_summaries` is empty.
    pub fn build(match_: &Match, facts: &[MatchFact]) -> (r: SummaryProjection)
        requires
            facts@.len() <= i64::MAX,
        ensures
            r.tallies(*match_, facts@),
            r.phase_summaries@ == Seq::<PhaseSummaryLine>::empty(),
    {
        let (home, away, player_stats) = aggregate_core(match_, facts);
        SummaryProjection {
            home_score: home.goals,
            away_score: away.goals,
            home_team: home,
            away_team: away,
            player_stats,
            phase_summaries: Vec::new(),
        }
    }

    /// Score, team / player tallies, and the per-phase tallies through the timeline's
    /// resolver. A goal whose match clock falls in no phase counts in the score but in no
    /// phase line, so summed over the phase lines each side's goals and missed shots never
    /// exceed that side's totals (the phases told apart by their fact ids).
    pub fn build_with_timeline(match_: &Match, timeline: &TimelineProjection) -> (r: SummaryProjection)
        requires
            timeline.resolved_facts@.len() <= i64::MAX,
        ensures
            r.tallies(*match_, timeline_facts(timeline.resolved_facts@)),
            r.phase_summaries@ == phase_lines(
                timeline.resolver.phases@,
                timeline.resolved_facts@,
                *match_,
                timeline.resolver.phases@,
                0,
            ),
            distinct_phase_ids(timeline.resolver.phases@) ==> {
                &&& lines_total(r.phase_summaries@, PlayEventKind::Goal, true) <= r.home_score
                &&& lines_total(r.phase_summaries@, PlayEventKind::Goal, false) <= r.away_score
                &&& lines_total(r.phase_summaries@, PlayEventKind::ShotMissed, true) <= r.home_team.shot_misses
                &&& lines_total(r.phase_summaries@, PlayEventKind::ShotMissed, false) <= r.away_team.shot_misses
            },
    {
        let mut facts: Vec<MatchFact> = Vec::new();
        let mut i: usize = 0;
        while i < timeline.resolved_facts.len()
            invariant
                i <= timeline.resolved_facts@.len(),
                facts@ == timeline_facts(timeline.resolved_facts@).take(i as int),
            decreases timeline.resolved_facts@.len() - i,
        {
            facts.push(timeline.resolved_facts[i].fact.duplicate());
            i += 1;
        }
        assert(facts@ == timeline_facts(timeline.resolved_facts@));
        let (home, away, player_stats) = aggregate_core(match_, facts.as_slice());
        let r = SummaryProjection {
            home_score: home.goals,
            away_score: away.goals,
            home_team: home,
            away_team: away,
            player_stats,
            phase_summaries: build_phase_summaries(match_, timeline),
        };
        proof {
            if distinct_phase_ids(timeline.resolver.phases@) {
                lemma_phase_lines_within_totals(*match_, *timeline, r);
            }
        }
        r
    }
}

/// The phase each resolved fact is tallied in.
fn tallied_phases(timeline: &TimelineProjection) -> (r: Vec<Option<FactId>>)
    ensures
        r@.len() == timeline.resolved_facts@.len(),
        forall|k: int| 0 <= k < r@.len() ==> #[trigger] r@[k] == tallied_phase(timeline.resolver.phases@, timeline.resolved_facts@[k]),
{
    let mut out: Vec<Option<FactId>> = Vec::new();
    let mut i: usize = 0;
    while i < timeline.resolved_facts.len()
        invariant
            i <= timeline.resolved_facts@.len(),
            out@.len() == i,
            forall|k: int| 0 <= k < i ==> #[trigger] out@[k] == tallied_phase(timeline.resolver.phases@, timeline.resolved_facts@[k]),
        decreases timeline.resolved_facts@.len() - i,
    {
        let r = &timeline.resolved_facts[i];
        let id = match &r.fact.payload {
            MatchFactPayload::Play(p) => {
                if p.kind == PlayEventKind::Goal || p.kind == PlayEventKind::ShotMissed {
                    match r.resolved_match_clock {
                        Some(mc) => match timeline.resolver.phase_for_match_elapsed(mc.elapsed_seconds) {
                            Some(ph) => Some(ph.fact_id),
                            None => None,
                        },
                        None => None,
                    }
                } else {
                    None
                }
            },
            _ => None,
        };
        out.push(id);
        i += 1;
    }
    out
}

/// The tallies of one phase.
fn tally_phase(match_: &Match, timeline: &TimelineProjection, ids: &Vec<Option<FactId>>, p: Phase, idx: Option<usize>) -> (r: (bool, PhaseSummaryLine))
    requires
        timeline.resolved_facts@.len() <= i64::MAX,
        ids@.len() == timeline.resolved_facts@.len(),
        forall|k: int| 0 <= k < ids@.len() ==> #[trigger] ids@[k] == tallied_phase(timeline.resolver.phases@, timeline.resolved_facts@[k]),
    ensures
        r.0 == (count_where(timeline.resolved_facts@, in_phase(timeline.resolver.phases@, p.fact_id)) > 0),
        r.1 == phase_line(timeline.resolver.phases@, timeline.resolved_facts@, *match_, p, idx),
{
    let ghost all = timeline.resolver.phases@;
    let ghost rf = timeline.resolved_facts@;
    let mut any: usize = 0;
    let mut line = PhaseSummaryLine {
        phase_fact_id: p.fact_id,
        kind: p.kind,
        regular_index: idx,
        home_goals: 0,
        home_shot_misses: 0,
        away_goals: 0,
        away_shot_misses: 0,
    };
    let mut i: usize = 0;
    while i < ids.len()
        invariant
            i <= ids@.len(),
            ids@.len() == rf.len(),
            rf == timeline.resolved_facts@,
            all == timeline.resolver.phases@,
            rf.len() <= i64::MAX,
            forall|k: int| 0 <= k < ids@.len() ==> #[trigger] ids@[k] == tallied_phase(all, rf[k]),
            any == count_where(rf.take(i as int), in_phase(all, p.fact_id)),
            line == phase_line(all, rf.take(i as int), *match_, p, idx),
        decreases ids@.len() - i,
    {
        proof {
            let t = rf.take(i as int);
            lemma_count_where_step(rf, in_phase(all, p.fact_id), i as int);
            lemma_count_where_step(rf, in_phase_for(all, p.fact_id, *match_, PlayEventKind::Goal, true), i as int);
            lemma_count_where_step(rf, in_phase_for(all, p.fact_id, *match_, PlayEventKind::ShotMissed, true), i as int);
            lemma_count_where_step(rf, in_phase_for(all, p.fact_id, *match_, PlayEventKind::Goal, false), i as int);
            lemma_count_where_step(rf, in_phase_for(all, p.fact_id, *match_, PlayEventKind::ShotMissed, false), i as int);
            lemma_count_where_bound(t, in_phase(all, p.fact_id));
            lemma_count_where_bound(t, in_phase_for(all, p.fact_id, *match_, PlayEventKind::Goal, true));
            lemma_count_where_bound(t, in_phase_for(all, p.fact_id, *match_, PlayEventKind::ShotMissed, true));
            lemma_count_where_bound(t, in_phase_for(all, p.fact_id, *match_, PlayEventKind::Goal, false));
            lemma_count_where_bound(t, in_phase_for(all, p.fact_id, *match_, PlayEventKind::ShotMissed, false));
        }
        if ids[i] == Some(p.fact_id) {
            any = any + 1;
            match &timeline.resolved_facts[i].fact.payload {
                MatchFactPayload::Play(play) => {
                    let is_home = play.team_id == Some(match_.home_team_id);
                    let is_away = play.team_id == Some(match_.away_team_id);
                    if play.kind == PlayEventKind::Goal {
                        if is_home {
                            line.home_goals = line.home_goals + 1;
                        } else if is_away {
                            line.away_goals = line.away_goals + 1;
                        }
                    } else if play.kind == PlayEventKind::ShotMissed {
                        if is_home {
                            line.home_shot_misses = line.home_shot_misses + 1;
                        } else if is_away {
                            line.away_shot_misses = line.away_shot_misses + 1;
                        }
                    }
                },
                _ => {},
            }
        }
        i += 1;
    }
    assert(rf.take(rf.len() as int) == rf);
    (any > 0, line)
}

proof fn lemma_phase_lines_unfold(all: Seq<Phase>, rf: Seq<ResolvedFact>, m: Match, phases: Seq<Phase>, i: int, reg: nat)
    requires
        0 <= i < phases.len(),
    ensures
        ({
            let p = phases[i];
            let idx = if p.kind == PhaseKind::Regular { Some(reg as usize) } else { None };
            let next = if p.kind == PhaseKind::Regular { reg + 1 } else { reg };
            let rest = phase_lines(all, rf, m, phases.subrange(i + 1, phases.len() as int), next);
            phase_lines(all, rf, m, phases.subrange(i, phases.len() as int), reg)
                == if count_where(rf, in_phase(all, p.fact_id)) > 0 { seq![phase_line(all, rf, m, p, idx)] + rest } else { rest }
        }),
{
    let sub = phases.subrange(i, phases.len() as int);
    assert(sub.drop_first() == phases.subrange(i + 1, phases.len() as int));
}

fn build_phase_summaries(match_: &Match, timeline: &TimelineProjection) -> (r: Vec<PhaseSummaryLine>)
    requires
        timeline.resolved_facts@.len() <= i64::MAX,
    ensures
        r@ == phase_lines(timeline.resolver.phases@, timeline.resolved_facts@, *match_, timeline.resolver.phases@, 0),
{
    let ghost all = timeline.resolver.phases@;
    let ghost rf = timeline.resolved_facts@;
    let ids = tallied_phases(timeline);
    let ghost whole = phase_lines(all, rf, *match_, all, 0);
    let mut result: Vec<PhaseSummaryLine> = Vec::new();
    let mut regular_index: usize = 0;
    let mut i: usize = 0;
    assert(all.subrange(0, all.len() as int) == all);
    while i < timeline.resolver.phases.len()
        invariant
            i <= all.len(),
            all == timeline.resolver.phases@,
            rf == timeline.resolved_facts@,
            rf.len() <= i64::MAX,
            regular_index <= i,
            ids@.len() == rf.len(),
            forall|k: int| 0 <= k < ids@.len() ==> #[trigger] ids@[k] == tallied_phase(all, rf[k]),
            whole == phase_lines(all, rf, *match_, all, 0),
            result@ + phase_lines(all, rf, *match_, all.subrange(i as int, all.len() as int), regular_index as nat) == whole,
        decreases all.len() - i,
    {
        let phase = timeline.resolver.phases[i];
        proof {
            lemma_phase_lines_unfold(all, rf, *match_, all, i as int, regular_index as nat);
        }
        let idx = match phase.kind {
            PhaseKind::Regular => {
                let current = regular_index;
                regular_index = regular_index + 1;
                Some(current)
            },
            PhaseKind::Shootout => None,
        };
        let (any, line) = tally_phase(match_, timeline, &ids, phase, idx);
        if any {
            let ghost before = result@;
            result.push(line);
            proof {
                let rest = phase_lines(all, rf, *match_, all.subrange(i + 1, all.len() as int), regular_index as nat);
                assert(before + seq![line] + rest == before + (seq![line] + rest));
            }
        }
        i += 1;
    }
    proof {
        assert(all.subrange(i as int, all.len() as int).len() == 0);
        assert(result@ + Seq::<PhaseSummaryLine>::empty() == result@);
    }
    result
}

// ── phase lines against the totals ──

/// The count of a phase line for plays of `kind` by the home side (`home_side`) or the
/// away side.
pub open spec fn line_count(l: PhaseSummaryLine, kind: PlayEventKind, home_side: bool) -> int {
    if kind == PlayEventKind::Goal {
        if home_side { l.home_goals as int } else { l.away_goals as int }
    } else {
        if home_side { l.home_shot_misses as int } else { l.away_shot_misses as int }
    }
}

/// The counts of `lines` for plays of `kind` by one side, summed.
pub open spec fn lines_total(lines: Seq<PhaseSummaryLine>, kind: PlayEventKind, home_side: bool) -> int
    decreases lines.len(),
{
    if lines.len() == 0 {
        0
    } else {
        line_count(lines[0], kind, home_side) + lines_total(lines.drop_first(), kind, home_side)
    }
}

/// A play of `kind` by one side that falls in one of `phases`.
pub open spec fn in_some_phase_for(all: Seq<Phase>, phases: Seq<Phase>, m: Match, kind: PlayEventKind, home_side: bool) -> spec_fn(ResolvedFact) -> bool {
    |r: ResolvedFact| exists|k: int| 0 <= k < phases.len() && #[trigger] in_phase_for(all, phases[k].fact_id, m, kind, home_side)(r)
}

/// The side's plays of `kind`, as the team lines count them.
pub open spec fn side_play(m: Match, kind: PlayEventKind, home_side: bool) -> spec_fn(MatchFact) -> bool {
    if home_side { team_play(m.home_team_id, kind) } else { away_play(m.home_team_id, m.away_team_id, kind) }
}

proof fn lemma_phase_lines_total(all: Seq<Phase>, rf: Seq<ResolvedFact>, m: Match, phases: Seq<Phase>, reg: nat, kind: PlayEventKind, home_side: bool)
    requires
        rf.len() <= i64::MAX,
        kind == PlayEventKind::Goal || kind == PlayEventKind::ShotMissed,
        distinct_phase_ids(phases),
    ensures
        lines_total(phase_lines(all, rf, m, phases, reg), kind, home_side)
            == count_where(rf, in_some_phase_for(all, phases, m, kind, home_side)),
    decreases phases.len(),
{
    let h = in_some_phase_for(all, phases, m, kind, home_side);
    if phases.len() == 0 {
        lemma_count_where_none(rf, h);
    } else {
        let p = phases[0];
        let rest_phases = phases.drop_first();
        let next = if p.kind == PhaseKind::Regular { reg + 1 } else { reg };
        let idx = if p.kind == PhaseKind::Regular { Some(reg as usize) } else { None };
        assert forall|a: int, b: int| 0 <= a < b < rest_phases.len() implies (#[trigger] rest_phases[a]).fact_id != (#[trigger] rest_phases[b]).fact_id by {
            assert(rest_phases[a] == phases[a + 1]);
            assert(rest_phases[b] == phases[b + 1]);
        }
        lemma_phase_lines_total(all, rf, m, rest_phases, next, kind, home_side);
        let f = in_phase_for(all, p.fact_id, m, kind, home_side);
        let g = in_some_phase_for(all, rest_phases, m, kind, home_side);
        assert forall|r: ResolvedFact| #[trigger] h(r) == (f(r) || g(r)) by {
            if h(r) {
                let k = choose|k: int| 0 <= k < phases.len() && #[trigger] in_phase_for(all, phases[k].fact_id, m, kind, home_side)(r);
                if k > 0 {
                    assert(phases[k] == rest_phases[k - 1]);
                    assert(in_phase_for(all, rest_phases[k - 1].fact_id, m, kind, home_side)(r));
                }
            }
            if g(r) {
                let k = choose|k: int| 0 <= k < rest_phases.len() && #[trigger] in_phase_for(all, rest_phases[k].fact_id, m, kind, home_side)(r);
                assert(rest_phases[k] == phases[k + 1]);
                assert(in_phase_for(all, phases[k + 1].fact_id, m, kind, home_side)(r));
            }
            if f(r) {
                assert(in_phase_for(all, phases[0].fact_id, m, kind, home_side)(r));
            }
        }
        assert forall|r: ResolvedFact| !(#[trigger] f(r) && g(r)) by {
            if f(r) && g(r) {
                let k = choose|k: int| 0 <= k < rest_phases.len() && #[trigger] in_phase_for(all, rest_phases[k].fact_id, m, kind, home_side)(r);
                assert(rest_phases[k] == phases[k + 1]);
                assert(phases[0].fact_id != phases[k + 1].fact_id);
            }
        }
        lemma_count_where_disjoint(rf, f, g, h);
        lemma_count_where_bound(rf, f);
        let rest = phase_lines(all, rf, m, rest_phases, next);
        if count_where(rf, in_phase(all, p.fact_id)) > 0 {
            let line = phase_line(all, rf, m, p, idx);
            assert(phase_lines(all, rf, m, phases, reg) == seq![line] + rest);
            assert((seq![line] + rest).drop_first() == rest);
            assert((seq![line] + rest)[0] == line);
            assert(line_count(line, kind, home_side) == count_where(rf, f));
        } else {
            lemma_count_where_mono(rf, f, in_phase(all, p.fact_id));
            assert(phase_lines(all, rf, m, phases, reg) == rest);
        }
    }
}

/// The phase lines never count more than the totals: summed over the phase lines of a
/// timeline summary, the home goals are at most the home score, the away goals at most
/// the away score, and the missed shots of each side at most that side's missed shots.
/// (A play whose match clock falls in no phase is in the totals only; the phases are told
/// apart by their fact ids.)
pub proof fn lemma_phase_lines_within_totals(m: Match, timeline: TimelineProjection, summary: SummaryProjection)
    requires
        timeline.resolved_facts@.len() <= i64::MAX,
        distinct_phase_ids(timeline.resolver.phases@),
        summary.tallies(m, timeline_facts(timeline.resolved_facts@)),
        summary.phase_summaries@ == phase_lines(timeline.resolver.phases@, timeline.resolved_facts@, m, timeline.resolver.phases@, 0),
    ensures
        lines_total(summary.phase_summaries@, PlayEventKind::Goal, true) <= summary.home_score,
        lines_total(summary.phase_summaries@, PlayEventKind::Goal, false) <= summary.away_score,
        lines_total(summary.phase_summaries@, PlayEventKind::ShotMissed, true) <= summary.home_team.shot_misses,
        lines_total(summary.phase_summaries@, PlayEventKind::ShotMissed, false) <= summary.away_team.shot_misses,
{
    lemma_side_within_total(m, timeline, PlayEventKind::Goal, true);
    lemma_side_within_total(m, timeline, PlayEventKind::Goal, false);
    lemma_side_within_total(m, timeline, PlayEventKind::ShotMissed, true);
    lemma_side_within_total(m, timeline, PlayEventKind::ShotMissed, false);
}

proof fn lemma_side_within_total(m: Match, timeline: TimelineProjection, kind: PlayEventKind, home_side: bool)
    requires
        timeline.resolved_facts@.len() <= i64::MAX,
        kind == PlayEventKind::Goal || kind == PlayEventKind::ShotMissed,
        distinct_phase_ids(timeline.resolver.phases@),
    ensures
        lines_total(phase_lines(timeline.resolver.phases@, timeline.resolved_facts@, m, timeline.resolver.phases@, 0), kind, home_side)
            <= count_where(timeline_facts(timeline.resolved_facts@), side_play(m, kind, home_side)),
        count_where(timeline_facts(timeline.resolved_facts@), side_play(m, kind, home_side)) <= i64::MAX,
{
    let all = timeline.resolver.phases@;
    let rf = timeline.resolved_facts@;
    lemma_phase_lines_total(all, rf, m, all, 0, kind, home_side);
    let h = in_some_phase_for(all, all, m, kind, home_side);
    let sp = side_play(m, kind, home_side);
    let g = |r: ResolvedFact| sp(r.fact);
    assert forall|r: ResolvedFact| #[trigger] h(r) implies g(r) by {
        let k = choose|k: int| 0 <= k < all.len() && #[trigger] in_phase_for(all, all[k].fact_id, m, kind, home_side)(r);
        assert(in_phase_for(all, all[k].fact_id, m, kind, home_side)(r));
    }
    lemma_count_where_mono(rf, h, g);
    lemma_count_where_map(rf, |r: ResolvedFact| r.fact, sp, g);
    lemma_count_where_bound(timeline_facts(rf), sp);
}

/// A timeline holds every fact of its log in log order, so the score, team and player
/// tallies of a summary built from the timeline are those of a summary built from the
/// facts: the two entry points agree on everything but the per-phase lines.
pub proof fn lemma_summary_entry_points_agree(m: Match, facts: Seq<MatchFact>, timeline: TimelineProjection, summary: SummaryProjection)
    requires
        timeline.built_from(facts),
    ensures
        timeline_facts(timeline.resolved_facts@) == facts,
        summary.tallies(m, timeline_facts(timeline.resolved_facts@)) == summary.tallies(m, facts),
{
    assert(timeline_facts(timeline.resolved_facts@) =~= facts);
}

} // verus!
