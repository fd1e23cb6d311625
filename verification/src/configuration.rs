//! Match configuration: how a match is recorded.

use vstd::prelude::*;

use crate::clock::Seconds;

verus! {

/// The kind of a phase.
///
/// - `Regular`: the timer runs (first half, second half, extra-time halves, ...)
/// - `Shootout`: the timer does not run (the cumulative match clock is fixed at the
///   phase start)
#[derive(Debug, Clone, Copy, PartialEq, Eq, Hash, Structural)]
pub enum PhaseKind {
    Regular,
    Shootout,
}

impl PhaseKind {
    /// Every kind, in declaration order.
    pub fn all_cases() -> (r: [PhaseKind; 2])
        ensures
            r@ == seq![PhaseKind::Regular, PhaseKind::Shootout],
    {
        [PhaseKind::Regular, PhaseKind::Shootout]
    }
}

/// Where a match video lives.
#[derive(Debug, Clone, Copy, PartialEq, Eq, Hash, Structural)]
pub enum VideoProvider {
    Youtube,
    /// A video in the device photo library (`external_id` is the device-local identifier).
    Local,
}

/// A match video.
#[derive(Debug, Clone, PartialEq, Eq, Hash)]
pub struct VideoSource {
    pub provider: VideoProvider,
    pub external_id: String,
}

impl VideoSource {
    /// A copy equal to `self`.
    pub fn duplicate(&self) -> (r: VideoSource)
        ensures
            r == *self,
    {
        VideoSource { provider: self.provider, external_id: self.external_id.clone() }
    }
}

/// The recording pattern of a match.
#[derive(Debug, Clone, PartialEq)]
pub enum MatchConfiguration {
    /// Timer mode (no video, full match). `phase_duration_seconds` fills the default
    /// end anchor of a new phase.
    Timer { phase_duration_seconds: Seconds },
    /// Video mode (full match with video). The video clock is the source of truth.
    Video(VideoSource),
    /// Video highlights: no phase structure and no stoppages.
    VideoHighlight(VideoSource),
}

/// The variant of a [`MatchConfiguration`], without its payload.
#[derive(Debug, Clone, Copy, PartialEq, Eq, Hash, Structural)]
pub enum MatchConfigurationKind {
    Timer,
    Video,
    VideoHighlight,
}

impl MatchConfigurationKind {
    /// Every kind, in declaration order.
    pub fn all_cases() -> (r: [MatchConfigurationKind; 3])
        ensures
            r@ == seq![
                MatchConfigurationKind::Timer,
                MatchConfigurationKind::Video,
                MatchConfigurationKind::VideoHighlight,
            ],
    {
        [MatchConfigurationKind::Timer, MatchConfigurationKind::Video, MatchConfigurationKind::VideoHighlight]
    }
}

/// Which clock is the source of truth for a match.
#[derive(Debug, Clone, Copy, PartialEq, Eq, Hash, Structural)]
pub enum CaptureMethod {
    ManualClock,
    Video,
}

impl MatchConfiguration {
    pub open spec fn spec_kind(&self) -> MatchConfigurationKind {
        match self {
            MatchConfiguration::Timer { .. } => MatchConfigurationKind::Timer,
            MatchConfiguration::Video(_) => MatchConfigurationKind::Video,
            MatchConfiguration::VideoHighlight(_) => MatchConfigurationKind::VideoHighlight,
        }
    }

    pub fn kind(&self) -> (r: MatchConfigurationKind)
        ensures
            r == self.spec_kind(),
    {
        match self {
            MatchConfiguration::Timer { .. } => MatchConfigurationKind::Timer,
            MatchConfiguration::Video(_) => MatchConfigurationKind::Video,
            MatchConfiguration::VideoHighlight(_) => MatchConfigurationKind::VideoHighlight,
        }
    }

    /// The clock of record: the manual clock for `Timer`, the video otherwise.
    pub fn capture_method(&self) -> (r: CaptureMethod)
        ensures
            r == (if self is Timer { CaptureMethod::ManualClock } else { CaptureMethod::Video }),
    {
        match self {
            MatchConfiguration::Timer { .. } => CaptureMethod::ManualClock,
            MatchConfiguration::Video(_) | MatchConfiguration::VideoHighlight(_) => CaptureMethod::Video,
        }
    }

    /// The video source (`None` for `Timer`).
    pub fn video_source(&self) -> (r: Option<&VideoSource>)
        ensures
            r == (match self {
                MatchConfiguration::Timer { .. } => None::<&VideoSource>,
                MatchConfiguration::Video(s) => Some(s),
                MatchConfiguration::VideoHighlight(s) => Some(s),
            }),
    {
        match self {
            MatchConfiguration::Timer { .. } => None,
            MatchConfiguration::Video(source) | MatchConfiguration::VideoHighlight(source) => Some(source),
        }
    }

    /// The phase duration of `Timer` (`None` for the video variants).
    pub fn phase_duration_seconds(&self) -> (r: Option<Seconds>)
        ensures
            r == (match self {
                MatchConfiguration::Timer { phase_duration_seconds } => Some(*phase_duration_seconds),
                _ => None::<Seconds>,
            }),
    {
        match self {
            MatchConfiguration::Timer { phase_duration_seconds } => Some(*phase_duration_seconds),
            MatchConfiguration::Video(_) | MatchConfiguration::VideoHighlight(_) => None,
        }
    }

    /// A copy equal to `self`.
    pub fn duplicate(&self) -> (r: MatchConfiguration)
        ensures
            r == *self,
    {
        match self {
            MatchConfiguration::Timer { phase_duration_seconds } =>
                MatchConfiguration::Timer { phase_duration_seconds: *phase_duration_seconds },
            MatchConfiguration::Video(s) => MatchConfiguration::Video(s.duplicate()),
            MatchConfiguration::VideoHighlight(s) => MatchConfiguration::VideoHighlight(s.duplicate()),
        }
    }
}

} // verus!
