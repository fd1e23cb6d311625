use handball_toolkit::clock::{FactAnchor, MatchClock, Seconds, UtcDateTime, VideoClock};
use handball_toolkit::configuration::{MatchConfiguration, PhaseKind, VideoProvider, VideoSource};
use handball_toolkit::entities::{Match, RosterSelection};
use handball_toolkit::facts::{
    ControlFact, MatchFact, MatchFactPayload, PhaseStartPayload, PlayEventKind, PlayFact,
    PossessionFact, StoppageKind, StoppagePayload,
};
use handball_toolkit::ids::{FactId, MatchId, PlayerId, TeamId};
use handball_toolkit::persistence_order::{persistence_ordered, sort_by_persistence_order};
use handball_toolkit::projection::live_match::{available_actions_for, LiveMatchProjection, MatchTimerState};
use handball_toolkit::projection::possession::PossessionProjection;
use handball_toolkit::projection::score_progression::ScoreProgressionProjection;
use handball_toolkit::projection::segment_resolver::SegmentResolver;
use handball_toolkit::projection::summary::SummaryProjection;
use handball_toolkit::projection::time_segment::TimeSegmentKind;
use handball_toolkit::projection::timeline::TimelineProjection;

const HOME: TeamId = TeamId(1);
const AWAY: TeamId = TeamId(2);

fn secs(s: i64) -> Seconds {
    Seconds::from_millis(s * 1000)
}

fn mc(s: i64) -> FactAnchor {
    FactAnchor::MatchClock(MatchClock { elapsed_seconds: secs(s) })
}

fn vc(s: i64) -> FactAnchor {
    FactAnchor::VideoClock(VideoClock { elapsed_seconds: secs(s) })
}

fn fact(id: u128, at: i128, payload: MatchFactPayload) -> MatchFact {
    MatchFact { id: FactId(id), recorded_at: UtcDateTime { unix_nanos: at }, payload }
}

fn phase(id: u128, kind: PhaseKind, start: FactAnchor, end: FactAnchor) -> MatchFact {
    fact(
        id,
        id as i128,
        MatchFactPayload::Control(ControlFact::PhaseStart(PhaseStartPayload { kind, start_anchor: start, end_anchor: end })),
    )
}

fn play(id: u128, kind: PlayEventKind, team: TeamId, player: Option<PlayerId>, anchor: FactAnchor) -> MatchFact {
    fact(
        id,
        id as i128,
        MatchFactPayload::Play(PlayFact {
            kind,
            team_id: Some(team),
            player_id: player,
            related_player_id: None,
            anchor,
            title: None,
            note: None,
        }),
    )
}

fn possession(id: u128, team: TeamId, anchor: FactAnchor) -> MatchFact {
    fact(id, id as i128, MatchFactPayload::Possession(PossessionFact { team_id: team, anchor, end_anchor: None }))
}

fn a_match(configuration: MatchConfiguration) -> Match {
    Match {
        id: MatchId(9),
        title: None,
        date: UtcDateTime { unix_nanos: 0 },
        home_team_id: HOME,
        away_team_id: AWAY,
        configuration,
        roster_selection: RosterSelection::empty(),
        is_home_on_left: true,
    }
}

fn timer_match() -> Match {
    a_match(MatchConfiguration::Timer { phase_duration_seconds: secs(1800) })
}

/// Two halves of 30 minutes; home scores at 10:00 and 41:40, away misses at 15:00 and
/// scores at 33:20.
fn timer_log() -> Vec<MatchFact> {
    vec![
        phase(1, PhaseKind::Regular, mc(0), mc(1800)),
        play(2, PlayEventKind::Goal, HOME, Some(PlayerId(11)), mc(600)),
        play(3, PlayEventKind::ShotMissed, AWAY, Some(PlayerId(21)), mc(900)),
        phase(4, PhaseKind::Regular, mc(1800), mc(3600)),
        play(5, PlayEventKind::Goal, AWAY, Some(PlayerId(21)), mc(2000)),
        play(6, PlayEventKind::Goal, HOME, Some(PlayerId(11)), mc(2500)),
    ]
}

#[test]
fn summary_counts_goals_and_misses_per_team_and_player() {
    let m = timer_match();
    let summary = SummaryProjection::build(&m, &timer_log());
    assert_eq!(summary.home_score, 2);
    assert_eq!(summary.away_score, 1);
    assert_eq!(summary.home_team.goals, 2);
    assert_eq!(summary.away_team.shot_misses, 1);
    assert_eq!(summary.away_team.shot_attempts(), 2);
    assert!(summary.phase_summaries.is_empty());
    let p11 = summary.player_stats.iter().find(|l| l.player_id == PlayerId(11)).unwrap();
    assert_eq!(p11.goals, 2);
    let p21 = summary.player_stats.iter().find(|l| l.player_id == PlayerId(21)).unwrap();
    assert_eq!((p21.goals, p21.shot_misses, p21.shot_attempts()), (1, 1, 2));
}

#[test]
fn summary_from_timeline_agrees_and_adds_phase_lines() {
    let m = timer_match();
    let facts = timer_log();
    let timeline = TimelineProjection::build(&m, &facts);
    let with_timeline = SummaryProjection::build_with_timeline(&m, &timeline);
    let plain = SummaryProjection::build(&m, &facts);
    assert_eq!(with_timeline.home_score, plain.home_score);
    assert_eq!(with_timeline.away_score, plain.away_score);
    assert_eq!(with_timeline.player_stats, plain.player_stats);
    assert_eq!(with_timeline.phase_summaries.len(), 2);
    let first = with_timeline.phase_summaries[0];
    assert_eq!(first.phase_fact_id, FactId(1));
    assert_eq!(first.regular_index, Some(0));
    assert_eq!((first.home_goals, first.away_shot_misses, first.away_attempts()), (1, 1, 1));
    let second = with_timeline.phase_summaries[1];
    assert_eq!(second.regular_index, Some(1));
    assert_eq!((second.home_goals, second.away_goals, second.home_attempts()), (1, 1, 1));
}

#[test]
fn empty_log_summary_is_nil_all() {
    let summary = SummaryProjection::build(&timer_match(), &[]);
    assert_eq!(summary.home_score, 0);
    assert_eq!(summary.away_score, 0);
    assert!(summary.phase_summaries.is_empty());
    let timeline = TimelineProjection::build(&timer_match(), &[]);
    assert!(timeline.resolved_facts.is_empty());
}

#[test]
fn timeline_keeps_every_fact_with_its_match_clock() {
    let m = timer_match();
    let facts = timer_log();
    let timeline = TimelineProjection::build(&m, &facts);
    assert_eq!(timeline.resolved_facts.len(), facts.len());
    for (r, f) in timeline.resolved_facts.iter().zip(facts.iter()) {
        assert_eq!(&r.fact, f);
    }
    let goal = timeline.resolved_fact(FactId(5)).unwrap();
    assert_eq!(goal.resolved_match_clock, Some(MatchClock { elapsed_seconds: secs(2000) }));
    assert_eq!(goal.resolved_video_clock, None);
    assert!(timeline.resolved_fact(FactId(77)).is_none());
}

#[test]
fn score_progression_doubles_each_goal() {
    let m = timer_match();
    let p = ScoreProgressionProjection::build(&m, &timer_log()).unwrap();
    let pts: Vec<(i64, i64, i64)> =
        p.points.iter().map(|q| (q.cumulative_seconds.millis / 1000, q.home_score, q.away_score)).collect();
    assert_eq!(
        pts,
        vec![(0, 0, 0), (600, 0, 0), (600, 1, 0), (2000, 1, 0), (2000, 1, 1), (2500, 1, 1), (2500, 2, 1), (3600, 2, 1)]
    );
    assert_eq!(p.points[6].diff(), -1);
    assert_eq!(p.total_seconds, secs(3600));
    assert_eq!(p.max_abs_diff, 1);
    assert_eq!(p.phase_spans.len(), 2);
    assert_eq!(p.phase_spans[1].regular_index, 1);
    assert_eq!(p.phase_spans[1].start_seconds, secs(1800));
}

#[test]
fn score_progression_needs_a_goal_and_a_phase() {
    let m = timer_match();
    let no_goal = vec![phase(1, PhaseKind::Regular, mc(0), mc(1800))];
    assert!(ScoreProgressionProjection::build(&m, &no_goal).is_none());
    let no_phase = vec![play(2, PlayEventKind::Goal, HOME, None, mc(10))];
    assert!(ScoreProgressionProjection::build(&m, &no_phase).is_none());
}

#[test]
fn possession_intervals_end_at_the_next_start_or_the_phase_end() {
    let m = timer_match();
    let facts = vec![
        phase(1, PhaseKind::Regular, mc(0), mc(1800)),
        possession(2, HOME, mc(100)),
        possession(3, AWAY, mc(300)),
        possession(4, AWAY, mc(500)),
        play(5, PlayEventKind::Goal, AWAY, None, mc(700)),
        possession(6, HOME, mc(900)),
    ];
    let p = PossessionProjection::build(&m, &facts);
    let spans: Vec<(u128, i64, i64, bool)> = p
        .segments
        .iter()
        .map(|s| (s.fact_id.0, s.match_elapsed_start.millis / 1000, s.match_elapsed_end.millis / 1000, s.is_redundant))
        .collect();
    assert_eq!(spans, vec![(2, 100, 300, false), (3, 300, 500, false), (4, 500, 700, true), (6, 900, 1800, false)]);
    assert_eq!(p.possession_count, 3);
    assert!(p.unresolved_fact_ids.is_empty());
    assert_eq!(p.segment(FactId(4)).unwrap().match_elapsed_duration(), secs(200));
    for w in p.segments.windows(2) {
        assert!(w[0].match_elapsed_end.millis <= w[1].match_elapsed_start.millis || w[0].phase_fact_id != w[1].phase_fact_id);
    }
}

#[test]
fn possession_outside_every_phase_is_unresolved() {
    let m = timer_match();
    let facts = vec![phase(1, PhaseKind::Regular, mc(0), mc(1800)), possession(2, HOME, mc(2000))];
    let p = PossessionProjection::build(&m, &facts);
    assert!(p.segments.is_empty());
    assert_eq!(p.unresolved_fact_ids, vec![FactId(2)]);
}

#[test]
fn every_possession_fact_is_an_interval_or_unresolved() {
    let m = timer_match();
    let facts = vec![
        possession(2, HOME, mc(50)),
        phase(1, PhaseKind::Regular, mc(100), mc(1800)),
        possession(3, AWAY, mc(300)),
        possession(4, HOME, mc(2000)),
        possession(5, HOME, mc(400)),
    ];
    let p = PossessionProjection::build(&m, &facts);
    assert_eq!(p.segments.len() + p.unresolved_fact_ids.len(), 4);
    assert_eq!(p.unresolved_fact_ids, vec![FactId(2), FactId(4)]);
    assert_eq!(p.segments.iter().map(|s| s.fact_id).collect::<Vec<_>>(), vec![FactId(3), FactId(5)]);
}

#[test]
fn possession_intervals_stay_in_their_phase_and_ties_keep_log_order() {
    let m = timer_match();
    let facts = vec![
        phase(1, PhaseKind::Regular, mc(0), mc(1800)),
        possession(5, HOME, mc(300)),
        possession(3, AWAY, mc(300)),
        possession(4, HOME, mc(100)),
        phase(6, PhaseKind::Regular, mc(1800), mc(3600)),
        possession(7, AWAY, mc(1700)),
    ];
    let p = PossessionProjection::build(&m, &facts);
    let order: Vec<u128> = p.segments.iter().map(|s| s.fact_id.0).collect();
    assert_eq!(order, vec![4, 5, 3, 7]);
    for s in &p.segments {
        assert!(s.match_elapsed_start.millis <= s.match_elapsed_end.millis);
        assert!(s.match_elapsed_end.millis <= secs(1800).millis);
        assert_eq!(s.phase_fact_id, FactId(1));
    }
    assert_eq!(p.segments[3].match_elapsed_end, secs(1800));
}

#[test]
fn phase_lines_never_count_more_than_the_totals() {
    let m = timer_match();
    let mut facts = timer_log();
    facts.push(play(7, PlayEventKind::Goal, HOME, None, mc(4000)));
    facts.push(play(8, PlayEventKind::ShotMissed, AWAY, None, mc(5000)));
    let timeline = TimelineProjection::build(&m, &facts);
    let s = SummaryProjection::build_with_timeline(&m, &timeline);
    let home_goals: i64 = s.phase_summaries.iter().map(|l| l.home_goals).sum();
    let away_goals: i64 = s.phase_summaries.iter().map(|l| l.away_goals).sum();
    let away_misses: i64 = s.phase_summaries.iter().map(|l| l.away_shot_misses).sum();
    assert_eq!((s.home_score, home_goals), (3, 2));
    assert_eq!((s.away_score, away_goals), (1, 1));
    assert_eq!((s.away_team.shot_misses, away_misses), (2, 1));
}

fn video_match() -> Match {
    a_match(MatchConfiguration::Video(VideoSource { provider: VideoProvider::Youtube, external_id: "abc".to_string() }))
}

/// A video log: the half runs from video 60 s to 1860 s, with a timeout from 600 s to
/// 660 s.
fn video_log() -> Vec<MatchFact> {
    vec![
        phase(1, PhaseKind::Regular, vc(60), vc(1860)),
        fact(
            2,
            2,
            MatchFactPayload::Control(ControlFact::Stoppage(StoppagePayload {
                kind: StoppageKind::Timeout,
                start_anchor: vc(600),
                end_anchor: Some(vc(660)),
                note: None,
            })),
        ),
        play(3, PlayEventKind::Goal, HOME, None, vc(300)),
    ]
}

#[test]
fn video_clock_maps_to_match_clock_around_a_timeout() {
    let resolver = SegmentResolver::build(&video_log());
    let at = |v: i64| resolver.resolve_match_clock(VideoClock { elapsed_seconds: secs(v) }).map(|c| c.elapsed_seconds.millis / 1000);
    assert_eq!(at(300), Some(240));
    assert_eq!(at(630), Some(540));
    assert_eq!(at(700), Some(580));
    let back = resolver.resolve_video_clock(MatchClock { elapsed_seconds: secs(580) });
    assert_eq!(back, Some(VideoClock { elapsed_seconds: secs(700) }));
    assert_eq!(resolver.phase_kind(secs(100)), Some(PhaseKind::Regular));
    assert_eq!(resolver.phase_index(secs(100)), Some(0));
}

#[test]
fn carved_segments_tile_a_video_phase() {
    let resolver = SegmentResolver::build(&video_log());
    let segs = &resolver.segments;
    assert_eq!(segs.len(), 3);
    assert_eq!(segs[0].video_elapsed_start, Some(secs(60)));
    assert_eq!(segs[0].match_elapsed_start, secs(0));
    assert_eq!(segs[2].video_elapsed_end, Some(secs(1860)));
    assert_eq!(segs[2].match_elapsed_end, Some(secs(1740)));
    for w in segs.windows(2) {
        assert_eq!(w[0].video_elapsed_end, w[1].video_elapsed_start);
        assert_eq!(w[0].match_elapsed_end, Some(w[1].match_elapsed_start));
    }
    assert_eq!(segs[1].kind, TimeSegmentKind::Stopped);
    assert_eq!(segs[1].match_elapsed_end, Some(segs[1].match_elapsed_start));
    for s in segs.iter().filter(|s| s.kind == TimeSegmentKind::Running) {
        let video = s.video_elapsed_end.unwrap().millis - s.video_elapsed_start.unwrap().millis;
        assert_eq!(s.match_elapsed_end.unwrap().millis - s.match_elapsed_start.millis, video);
    }
}

#[test]
fn live_match_follows_the_video_clock() {
    let m = video_match();
    let timeline = TimelineProjection::build(&m, &video_log());
    let state = |v: i64| {
        LiveMatchProjection::build_video_mode(&m, &timeline, Some(VideoClock { elapsed_seconds: secs(v) })).timer_state
    };
    assert_eq!(state(30), MatchTimerState::BeforeMatch);
    assert_eq!(state(300), MatchTimerState::Playing);
    assert_eq!(state(630), MatchTimerState::Timeout);
    assert_eq!(state(2000), MatchTimerState::Ended);
    let playing = LiveMatchProjection::build_video_mode(&m, &timeline, Some(VideoClock { elapsed_seconds: secs(300) }));
    assert_eq!(playing.current_match_clock, Some(MatchClock { elapsed_seconds: secs(240) }));
    assert_eq!(playing.current_phase_index, Some(0));
    assert!(playing.available_actions.can_record_goal);
    assert!(!playing.available_actions.can_resume);
}

#[test]
fn actions_follow_the_timer_state() {
    let playing = available_actions_for(MatchTimerState::Playing);
    assert!(playing.can_record_goal && playing.can_start_timeout && !playing.can_resume);
    let stopped = available_actions_for(MatchTimerState::Timeout);
    assert!(!stopped.can_record_goal && stopped.can_resume && !stopped.can_start_timeout);
    let before = available_actions_for(MatchTimerState::BeforeMatch);
    assert!(before.can_start_next_phase && !before.can_record_free_note);
    let between = available_actions_for(MatchTimerState::BetweenPhases);
    assert!(between.can_start_next_phase && between.can_record_free_note && !between.can_record_goal);
}

#[test]
fn persistence_order_puts_video_readings_first_then_time_then_phase_starts() {
    let both = FactAnchor::Both {
        match_clock: MatchClock { elapsed_seconds: secs(1800) },
        video_clock: VideoClock { elapsed_seconds: secs(2000) },
    };
    let facts = vec![
        play(10, PlayEventKind::Goal, HOME, None, mc(5)),
        play(11, PlayEventKind::Goal, HOME, None, vc(2100)),
        phase(12, PhaseKind::Regular, both, both),
        play(13, PlayEventKind::FreeNote, HOME, None, vc(2000)),
        phase(14, PhaseKind::Regular, vc(100), vc(1900)),
    ];
    let ordered: Vec<u128> = persistence_ordered(&facts).iter().map(|f| f.id.0).collect();
    assert_eq!(ordered, vec![14, 12, 13, 11, 10]);
    let mut sorted = facts.clone();
    sort_by_persistence_order(&mut sorted);
    assert_eq!(sorted.iter().map(|f| f.id.0).collect::<Vec<_>>(), ordered);
    let mut twice = sorted.clone();
    sort_by_persistence_order(&mut twice);
    assert_eq!(twice, sorted);
}

#[test]
fn persistence_order_breaks_ties_by_recorded_at_then_id() {
    let facts = vec![
        fact(5, 7, play(0, PlayEventKind::Goal, HOME, None, mc(10)).payload),
        fact(4, 7, play(0, PlayEventKind::Goal, HOME, None, mc(10)).payload),
        fact(3, 9, play(0, PlayEventKind::Goal, HOME, None, mc(10)).payload),
    ];
    let ordered: Vec<u128> = persistence_ordered(&facts).iter().map(|f| f.id.0).collect();
    assert_eq!(ordered, vec![4, 5, 3]);
}
