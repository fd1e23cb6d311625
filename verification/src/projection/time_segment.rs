//! Time segments: the running / stopped intervals a fact log divides the clocks into.

use vstd::prelude::*;

use crate::clock::{sat, Seconds};
use crate::configuration::PhaseKind;
use crate::facts::StoppageKind;
use crate::ids::FactId;

verus! {

#[derive(Debug, Clone, Copy, PartialEq, Eq, Hash, Structural)]
pub enum TimeSegmentKind {
    /// The timer runs: match time and video time advance together (a shootout's
    /// running segment is degenerate: the match clock stays put).
    Running,
    /// The timer stands: video time advances, match time does not.
    Stopped,
}

/// An interval of a fact log, relating video time and match time.
#[derive(Debug, Clone, Copy, PartialEq, Eq, Structural)]
pub struct TimeSegment {
    pub kind: TimeSegmentKind,
    /// Kind of the phase the segment belongs to (`None` outside any phase).
    pub phase_kind: Option<PhaseKind>,
    pub match_elapsed_start: Seconds,
    /// `None` for an open (ongoing) interval.
    pub match_elapsed_end: Option<Seconds>,
    pub video_elapsed_start: Option<Seconds>,
    pub video_elapsed_end: Option<Seconds>,
    /// The fact that opened the segment.
    pub start_fact_id: Option<FactId>,
    pub end_fact_id: Option<FactId>,
    /// For stopped segments only: timeout or pause.
    pub stoppage_kind: Option<StoppageKind>,
}

impl TimeSegment {
    /// Whether video position `v` (milliseconds) lies in `[video start, video end)`
    /// (from the start on when the end is open; never when the start is unknown).
    pub open spec fn covers_video(self, v: int) -> bool {
        match self.video_elapsed_start {
            None => false,
            Some(start) => match self.video_elapsed_end {
                Some(end) => start.millis <= v && v < end.millis,
                None => start.millis <= v,
            },
        }
    }

    /// Whether match-clock position `m` (milliseconds) lies in `[match start, match end)`
    /// (from the start on when the end is open).
    pub open spec fn covers_match(self, m: int) -> bool {
        match self.match_elapsed_end {
            Some(end) => self.match_elapsed_start.millis <= m && m < end.millis,
            None => self.match_elapsed_start.millis <= m,
        }
    }

    /// The match-clock position (milliseconds) that video position `v` maps to inside
    /// this segment.
    pub open spec fn match_at_video(self, v: int) -> i64 {
        match self.kind {
            TimeSegmentKind::Running => {
                if self.phase_kind == Some(PhaseKind::Shootout) {
                    self.match_elapsed_start.millis
                } else {
                    match self.video_elapsed_start {
                        None => self.match_elapsed_start.millis,
                        Some(vs) => sat(self.match_elapsed_start.millis + sat(v - vs.millis)),
                    }
                }
            },
            TimeSegmentKind::Stopped => self.match_elapsed_start.millis,
        }
    }

    /// The video position (milliseconds) that match-clock position `m` maps to inside
    /// this segment, if the segment knows its video start.
    pub open spec fn video_at_match(self, m: int) -> Option<i64> {
        match self.video_elapsed_start {
            None => None,
            Some(vs) => Some(match self.kind {
                TimeSegmentKind::Running => {
                    if self.phase_kind == Some(PhaseKind::Shootout) {
                        vs.millis
                    } else {
                        sat(vs.millis + sat(m - self.match_elapsed_start.millis))
                    }
                },
                TimeSegmentKind::Stopped => vs.millis,
            }),
        }
    }

    /// Match-clock length: end − start for a running segment, zero for a stopped one,
    /// `None` while the segment is open.
    pub fn match_elapsed_duration(&self) -> (r: Option<Seconds>)
        ensures
            r == (match self.match_elapsed_end {
                None => None::<Seconds>,
                Some(end) => Some(match self.kind {
                    TimeSegmentKind::Running => Seconds { millis: sat(end.millis - self.match_elapsed_start.millis) },
                    TimeSegmentKind::Stopped => Seconds { millis: 0 },
                }),
            }),
    {
        let end = match self.match_elapsed_end {
            Some(e) => e,
            None => return None,
        };
        match self.kind {
            TimeSegmentKind::Running => Some(end.minus(self.match_elapsed_start)),
            TimeSegmentKind::Stopped => Some(Seconds::zero()),
        }
    }

    /// Video length (end − start), if both ends are known.
    pub fn video_elapsed_duration(&self) -> (r: Option<Seconds>)
        ensures
            r == (match (self.video_elapsed_start, self.video_elapsed_end) {
                (Some(s), Some(e)) => Some(Seconds { millis: sat(e.millis - s.millis) }),
                _ => None::<Seconds>,
            }),
    {
        match (self.video_elapsed_start, self.video_elapsed_end) {
            (Some(s), Some(e)) => Some(e.minus(s)),
            _ => None,
        }
    }

    pub fn contains_video_elapsed(&self, video: Seconds) -> (r: bool)
        ensures
            r == self.covers_video(video.millis as int),
    {
        let start = match self.video_elapsed_start {
            Some(s) => s,
            None => return false,
        };
        match self.video_elapsed_end {
            Some(end) => video.millis >= start.millis && video.millis < end.millis,
            None => video.millis >= start.millis,
        }
    }

    pub fn contains_match_elapsed(&self, match_elapsed: Seconds) -> (r: bool)
        ensures
            r == self.covers_match(match_elapsed.millis as int),
    {
        match self.match_elapsed_end {
            Some(end) => match_elapsed.millis >= self.match_elapsed_start.millis && match_elapsed.millis < end.millis,
            None => match_elapsed.millis >= self.match_elapsed_start.millis,
        }
    }

    /// Video position → match-clock position inside this segment.
    pub fn match_elapsed_for_video_elapsed(&self, video: Seconds) -> (r: Seconds)
        ensures
            r.millis == self.match_at_video(video.millis as int),
    {
        match self.kind {
            TimeSegmentKind::Running => {
                if self.phase_kind == Some(PhaseKind::Shootout) {
                    return self.match_elapsed_start;
                }
                match self.video_elapsed_start {
                    None => self.match_elapsed_start,
                    Some(video_start) => self.match_elapsed_start.plus(video.minus(video_start)),
                }
            },
            TimeSegmentKind::Stopped => self.match_elapsed_start,
        }
    }

    /// Match-clock position → video position inside this segment (`None` when the
    /// video start is unknown).
    pub fn video_elapsed_for_match_elapsed(&self, match_elapsed: Seconds) -> (r: Option<Seconds>)
        ensures
            match r {
                Some(s) => self.video_at_match(match_elapsed.millis as int) == Some(s.millis),
                None => self.video_at_match(match_elapsed.millis as int) is None,
            },
    {
        let video_start = match self.video_elapsed_start {
            Some(v) => v,
            None => return None,
        };
        match self.kind {
            TimeSegmentKind::Running => {
                if self.phase_kind == Some(PhaseKind::Shootout) {
                    return Some(video_start);
                }
                Some(video_start.plus(match_elapsed.minus(self.match_elapsed_start)))
            },
            TimeSegmentKind::Stopped => Some(video_start),
        }
    }
}

/// Inside a running segment of a regular phase that knows its video start, match time
/// and video time move together: mapping a video position to match time and back gives
/// the video position again, and mapping a match position to video time and back gives
/// the match position again (as long as no reading leaves the range of `i64`).
pub proof fn lemma_running_segment_round_trip(seg: TimeSegment, v: int, m: int)
    requires
        seg.kind == TimeSegmentKind::Running,
        seg.phase_kind != Some(PhaseKind::Shootout),
        seg.video_elapsed_start is Some,
        i64::MIN <= v <= i64::MAX,
        i64::MIN <= m <= i64::MAX,
        i64::MIN <= v - seg.video_elapsed_start->0.millis <= i64::MAX,
        i64::MIN <= seg.match_elapsed_start.millis + (v - seg.video_elapsed_start->0.millis) <= i64::MAX,
        i64::MIN <= m - seg.match_elapsed_start.millis <= i64::MAX,
        i64::MIN <= seg.video_elapsed_start->0.millis + (m - seg.match_elapsed_start.millis) <= i64::MAX,
    ensures
        seg.video_at_match(seg.match_at_video(v) as int) == Some(v as i64),
        seg.match_at_video(seg.video_at_match(m)->0 as int) == m,
{
}

} // verus!
