//! The live state of a match being recorded: where the video position falls and what
//! the recording UI may offer there.

use vstd::prelude::*;

use crate::clock::{MatchClock, Seconds, VideoClock};
use crate::configuration::PhaseKind;
use crate::entities::Match;
use crate::facts::StoppageKind;
use crate::projection::segment_resolver::{phase_at, regular_index_at, segment_at_video, Phase, SegmentResolver};
use crate::projection::time_segment::{TimeSegment, TimeSegmentKind};
use crate::projection::timeline::TimelineProjection;

verus! {

#[derive(Debug, Clone, Copy, PartialEq, Eq, Hash, Structural)]
pub enum MatchTimerState {
    BeforeMatch,
    Playing,
    Timeout,
    Paused,
    BetweenPhases,
    Ended,
}

/// What the recording UI may offer.
#[derive(Debug, Clone, Copy, PartialEq, Eq, Hash, Structural)]
pub struct AvailableActions {
    pub can_record_goal: bool,
    pub can_record_shot_missed: bool,
    pub can_record_free_note: bool,
    pub can_start_timeout: bool,
    pub can_resume: bool,
    pub can_start_next_phase: bool,
}

#[derive(Debug, Clone, Copy, PartialEq, Eq, Structural)]
pub struct LiveMatchProjection {
    pub current_phase_kind: Option<PhaseKind>,
    /// Index among regular phases (in order of start).
    pub current_phase_index: Option<usize>,
    pub timer_state: MatchTimerState,
    pub current_match_clock: Option<MatchClock>,
    pub available_actions: AvailableActions,
}

/// The actions each timer state allows: scoring plays only while playing; free notes
/// except before the match; a timeout only while playing; resuming only while stopped;
/// a next phase when no phase is running.
pub open spec fn actions_for(state: MatchTimerState) -> AvailableActions {
    match state {
        MatchTimerState::BeforeMatch => AvailableActions {
            can_record_goal: false,
            can_record_shot_missed: false,
            can_record_free_note: false,
            can_start_timeout: false,
            can_resume: false,
            can_start_next_phase: true,
        },
        MatchTimerState::Playing => AvailableActions {
            can_record_goal: true,
            can_record_shot_missed: true,
            can_record_free_note: true,
            can_start_timeout: true,
            can_resume: false,
            can_start_next_phase: false,
        },
        MatchTimerState::Timeout | MatchTimerState::Paused => AvailableActions {
            can_record_goal: false,
            can_record_shot_missed: false,
            can_record_free_note: true,
            can_start_timeout: false,
            can_resume: true,
            can_start_next_phase: false,
        },
        MatchTimerState::BetweenPhases | MatchTimerState::Ended => AvailableActions {
            can_record_goal: false,
            can_record_shot_missed: false,
            can_record_free_note: true,
            can_start_timeout: false,
            can_resume: false,
            can_start_next_phase: true,
        },
    }
}

/// The timer state inside a segment: playing when running; timeout or paused when
/// stopped (a stopped segment without a kind counts as paused).
pub open spec fn state_in_segment(seg: TimeSegment) -> MatchTimerState {
    match seg.kind {
        TimeSegmentKind::Running => MatchTimerState::Playing,
        TimeSegmentKind::Stopped => match seg.stoppage_kind {
            Some(StoppageKind::Timeout) => MatchTimerState::Timeout,
            _ => MatchTimerState::Paused,
        },
    }
}

/// The phase has video readings at both ends.
pub open spec fn has_video(p: Phase) -> bool {
    p.video_elapsed_start is Some && p.video_elapsed_end is Some
}

/// The state at a video position no segment holds: before the match when no phase has
/// a video range or the position precedes every such phase; ended when it is at or past
/// the end of every such phase; otherwise between phases.
pub open spec fn state_outside(phases: Seq<Phase>, v: int) -> MatchTimerState {
    if forall|k: int| 0 <= k < phases.len() ==> !has_video(#[trigger] phases[k]) {
        MatchTimerState::BeforeMatch
    } else if forall|k: int| 0 <= k < phases.len() && has_video(#[trigger] phases[k]) ==> v < phases[k].video_elapsed_start.unwrap().millis {
        MatchTimerState::BeforeMatch
    } else if forall|k: int| 0 <= k < phases.len() && has_video(#[trigger] phases[k]) ==> v >= phases[k].video_elapsed_end.unwrap().millis {
        MatchTimerState::Ended
    } else {
        MatchTimerState::BetweenPhases
    }
}

/// The live state for the current video position (`None`: before the match).
pub open spec fn live_state(phases: Seq<Phase>, segs: Seq<TimeSegment>, current: Option<VideoClock>) -> LiveMatchProjection {
    match current {
        None => LiveMatchProjection {
            current_phase_kind: None,
            current_phase_index: None,
            timer_state: MatchTimerState::BeforeMatch,
            current_match_clock: None,
            available_actions: actions_for(MatchTimerState::BeforeMatch),
        },
        Some(vc) => {
            let v = vc.elapsed_seconds.millis as int;
            match segment_at_video(segs, v) {
                Some(seg) => {
                    let m = seg.match_at_video(v);
                    let state = state_in_segment(seg);
                    LiveMatchProjection {
                        current_phase_kind: match seg.phase_kind {
                            Some(k) => Some(k),
                            None => match phase_at(phases, m as int) {
                                Some(p) => Some(p.kind),
                                None => None,
                            },
                        },
                        current_phase_index: match regular_index_at(phases, m as int) {
                            Some(n) => Some(n as usize),
                            None => None,
                        },
                        timer_state: state,
                        current_match_clock: Some(MatchClock { elapsed_seconds: Seconds { millis: m } }),
                        available_actions: actions_for(state),
                    }
                },
                None => {
                    let state = state_outside(phases, v);
                    LiveMatchProjection {
                        current_phase_kind: None,
                        current_phase_index: None,
                        timer_state: state,
                        current_match_clock: None,
                        available_actions: actions_for(state),
                    }
                },
            }
        },
    }
}

/// The actions a timer state allows; see [`actions_for`].
pub fn available_actions_for(state: MatchTimerState) -> (r: AvailableActions)
    ensures
        r == actions_for(state),
{
    match state {
        MatchTimerState::BeforeMatch => AvailableActions {
            can_record_goal: false,
            can_record_shot_missed: false,
            can_record_free_note: false,
            can_start_timeout: false,
            can_resume: false,
            can_start_next_phase: true,
        },
        MatchTimerState::Playing => AvailableActions {
            can_record_goal: true,
            can_record_shot_missed: true,
            can_record_free_note: true,
            can_start_timeout: true,
            can_resume: false,
            can_start_next_phase: false,
        },
        MatchTimerState::Timeout | MatchTimerState::Paused => AvailableActions {
            can_record_goal: false,
            can_record_shot_missed: false,
            can_record_free_note: true,
            can_start_timeout: false,
            can_resume: true,
            can_start_next_phase: false,
        },
        MatchTimerState::BetweenPhases | MatchTimerState::Ended => AvailableActions {
            can_record_goal: false,
            can_record_shot_missed: false,
            can_record_free_note: true,
            can_start_timeout: false,
            can_resume: false,
            can_start_next_phase: true,
        },
    }
}

fn timer_state_for(segment: &TimeSegment) -> (r: MatchTimerState)
    ensures
        r == state_in_segment(*segment),
{
    match segment.kind {
        TimeSegmentKind::Running => MatchTimerState::Playing,
        TimeSegmentKind::Stopped => match segment.stoppage_kind {
            Some(StoppageKind::Timeout) => MatchTimerState::Timeout,
            Some(StoppageKind::Pause) => MatchTimerState::Paused,
            None => MatchTimerState::Paused,
        },
    }
}

fn position_outside_phases(resolver: &SegmentResolver, current: VideoClock) -> (r: MatchTimerState)
    ensures
        r == state_outside(resolver.phases@, current.elapsed_seconds.millis as int),
{
    let ghost phases = resolver.phases@;
    let v = current.elapsed_seconds.millis;
    let mut any = false;
    let mut before_all = true;
    let mut after_all = true;
    let mut i: usize = 0;
    while i < resolver.phases.len()
        invariant
            i <= phases.len(),
            phases == resolver.phases@,
            v == current.elapsed_seconds.millis,
            any == exists|k: int| 0 <= k < i && has_video(#[trigger] phases[k]),
            before_all == forall|k: int| 0 <= k < i && has_video(#[trigger] phases[k]) ==> v < phases[k].video_elapsed_start.unwrap().millis,
            after_all == forall|k: int| 0 <= k < i && has_video(#[trigger] phases[k]) ==> v >= phases[k].video_elapsed_end.unwrap().millis,
        decreases phases.len() - i,
    {
        let p = resolver.phases[i];
        match (p.video_elapsed_start, p.video_elapsed_end) {
            (Some(s), Some(e)) => {
                any = true;
                if !(v < s.millis) {
                    before_all = false;
                }
                if !(v >= e.millis) {
                    after_all = false;
                }
            },
            _ => {},
        }
        i += 1;
    }
    if !any {
        MatchTimerState::BeforeMatch
    } else if before_all {
        MatchTimerState::BeforeMatch
    } else if after_all {
        MatchTimerState::Ended
    } else {
        MatchTimerState::BetweenPhases
    }
}

impl LiveMatchProjection {
    /// The live state of a video-mode match at the current video position; see
    /// [`live_state`].
    pub fn build_video_mode_with_resolver(resolver: &SegmentResolver, current_video_clock: Option<VideoClock>) -> (r: LiveMatchProjection)
        ensures
            r == live_state(resolver.phases@, resolver.segments@, current_video_clock),
    {
        let current = match current_video_clock {
            Some(c) => c,
            None => return LiveMatchProjection {
                current_phase_kind: None,
                current_phase_index: None,
                timer_state: MatchTimerState::BeforeMatch,
                current_match_clock: None,
                available_actions: available_actions_for(MatchTimerState::BeforeMatch),
            },
        };
        if let Some(segment) = resolver.segment_for_video_elapsed(current.elapsed_seconds) {
            let match_clock = MatchClock {
                elapsed_seconds: segment.match_elapsed_for_video_elapsed(current.elapsed_seconds),
            };
            let timer_state = timer_state_for(segment);
            let phase_kind = match segment.phase_kind {
                Some(k) => Some(k),
                None => resolver.phase_kind(match_clock.elapsed_seconds),
            };
            let phase_index = resolver.phase_index(match_clock.elapsed_seconds);
            return LiveMatchProjection {
                current_phase_kind: phase_kind,
                current_phase_index: phase_index,
                timer_state,
                current_match_clock: Some(match_clock),
                available_actions: available_actions_for(timer_state),
            };
        }
        let outside_state = position_outside_phases(resolver, current);
        LiveMatchProjection {
            current_phase_kind: None,
            current_phase_index: None,
            timer_state: outside_state,
            current_match_clock: None,
            available_actions: available_actions_for(outside_state),
        }
    }

    /// The live state of a video-mode match through the timeline's resolver (`_match` is
    /// unused; it keeps the entry points alike).
    pub fn build_video_mode(_match: &Match, timeline: &TimelineProjection, current_video_clock: Option<VideoClock>) -> (r: LiveMatchProjection)
        ensures
            r == live_state(timeline.resolver.phases@, timeline.resolver.segments@, current_video_clock),
    {
        Self::build_video_mode_with_resolver(&timeline.resolver, current_video_clock)
    }
}

/// What the recording screen may offer follows the clock: goals, missed shots and a
/// timeout only while play runs; resuming only while the clock stands (timeout or
/// pause); starting the next phase only when no phase is under way; and a resume and
/// a timeout are never offered together.
pub proof fn lemma_actions_follow_clock(state: MatchTimerState)
    ensures
        actions_for(state).can_record_goal <==> state == MatchTimerState::Playing,
        actions_for(state).can_record_shot_missed <==> state == MatchTimerState::Playing,
        actions_for(state).can_start_timeout <==> state == MatchTimerState::Playing,
        actions_for(state).can_resume <==> (state == MatchTimerState::Timeout || state == MatchTimerState::Paused),
        actions_for(state).can_start_next_phase <==> (state == MatchTimerState::BeforeMatch
            || state == MatchTimerState::BetweenPhases || state == MatchTimerState::Ended),
        !(actions_for(state).can_resume && actions_for(state).can_start_timeout),
{
}

/// At a video position that no segment holds, the match has ended only when the
/// position is at or past the end of every phase with a video range; while some such
/// phase has started at or before the position and some such phase ends after it, the
/// match is between phases.  Before any such phase starts it has not begun.
pub proof fn lemma_position_outside_segments(phases: Seq<Phase>, segs: Seq<TimeSegment>, vc: VideoClock)
    requires
        segment_at_video(segs, vc.elapsed_seconds.millis as int) is None,
    ensures
        live_state(phases, segs, Some(vc)).timer_state == MatchTimerState::Ended ==> forall|k: int|
            0 <= k < phases.len() && has_video(#[trigger] phases[k]) ==> vc.elapsed_seconds.millis >= phases[k].video_elapsed_end.unwrap().millis,
        (exists|k: int| 0 <= k < phases.len() && has_video(#[trigger] phases[k])
            && vc.elapsed_seconds.millis < phases[k].video_elapsed_end.unwrap().millis)
            && (exists|j: int| 0 <= j < phases.len() && has_video(#[trigger] phases[j])
            && phases[j].video_elapsed_start.unwrap().millis <= vc.elapsed_seconds.millis)
            ==> live_state(phases, segs, Some(vc)).timer_state == MatchTimerState::BetweenPhases,
        (forall|k: int| 0 <= k < phases.len() && has_video(#[trigger] phases[k])
            ==> vc.elapsed_seconds.millis < phases[k].video_elapsed_start.unwrap().millis)
            ==> live_state(phases, segs, Some(vc)).timer_state == MatchTimerState::BeforeMatch,
        live_state(phases, segs, Some(vc)).current_match_clock is None,
        live_state(phases, segs, Some(vc)).available_actions == actions_for(live_state(phases, segs, Some(vc)).timer_state),
{
}

} // verus!
