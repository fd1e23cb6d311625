//! Validation errors: codes and parameters only (the wording belongs to the shell).
//! Every issue blocks the write it is raised for.

use vstd::prelude::*;

use crate::clock::{FactAnchorKind, Seconds};
use crate::configuration::{MatchConfigurationKind, PhaseKind};
use crate::facts::{PlayEventKind, StoppageKind};
use crate::ids::{PlayerId, TeamId};

verus! {

/// An error of a configuration on its own.
#[derive(Debug, Clone, Copy, PartialEq, Eq, Structural)]
pub enum ConfigurationValidationError {
    /// A timer's phase duration must be positive.
    NonPositivePhaseDuration { seconds: Seconds },
    /// A video source's external id must not be blank.
    EmptyVideoExternalId,
}

/// An error of one fact on its own.
#[derive(Debug, Clone, PartialEq)]
pub enum FactValidationError {
    NegativeMatchClock,
    NegativeVideoClock,
    /// A reading that is not a finite number (only possible in a reading handed in from
    /// outside as a float).
    NonFiniteMatchClock,
    NonFiniteVideoClock,
    /// `allowed` is ascending, each kind once.
    InvalidAnchorForConfiguration {
        configuration: MatchConfigurationKind,
        actual: FactAnchorKind,
        allowed: Vec<FactAnchorKind>,
    },
    EmptyTitle,
    EmptyNote,
    DuplicatePrimaryAndRelatedPlayer,
    MissingPlayerForPlayKind { kind: PlayEventKind },
    FreeNoteHasNoContent,
    /// A phase start needs an end anchor.
    PhaseStartMissingEndAnchor,
    /// The start and end anchors of a phase are of different kinds.
    PhaseStartAnchorMismatch,
    /// A phase must end after it starts.
    PhaseStartEndBeforeStart,
    StoppageEndBeforeStart,
    StoppageEndNilInVideoMode { kind: StoppageKind },
    StoppageEndPresentInTimerMode { kind: StoppageKind },
    /// A timeout carries no note.
    TimeoutHasNote,
    /// A pause note must not be blank (absent is fine).
    EmptyStoppageNote,
    UnknownTeamReference { team_id: TeamId },
    UnknownPlayerReference { player_id: PlayerId },
    PlayerTeamMismatch { player_id: PlayerId, team_id: TeamId },
    RelatedPlayerTeamMismatch { player_id: PlayerId, team_id: TeamId },
}

/// An error of a match header.
#[derive(Debug, Clone, PartialEq)]
pub enum MatchValidationError {
    SameTeamOnBothSides,
    EmptyTitle,
    /// `player_ids` is ascending, each id once.
    OverlappingRosterSelections { player_ids: Vec<PlayerId> },
}

/// An error of the fact log as a whole (order and consistency).
#[derive(Debug, Clone, Copy, PartialEq, Eq, Structural)]
pub enum TimelineValidationError {
    /// A timer match with facts but no phase start.
    TimerWithFactsMissingPhaseStart,
    /// A video match with facts but no phase start.
    VideoWithFactsMissingPhaseStart,
    /// Highlights have no phases.
    VideoHighlightContainsPhaseStart,
    /// Highlights have no stoppages.
    VideoHighlightContainsStoppage,
    /// Highlights need a non-blank title.
    VideoHighlightMissingTitle,
    /// A play outside every phase range; `kind` hints at the neighbouring phase.
    PlayRecordedOutsidePhaseRange { kind: Option<PhaseKind> },
    PlayRecordedInsideStoppage,
    DuplicateShootout,
    ShootoutNotLast,
    /// In timer mode a regular phase starts where the previous one ended.
    PhaseStartNotContinuousFromPrevious,
    StoppagesOverlap,
    StoppageOutsidePhaseRange,
}

/// Any validation issue, by the scope it was raised in.
#[derive(Debug, Clone, PartialEq)]
pub enum DomainValidationIssue {
    Match(MatchValidationError),
    Configuration(ConfigurationValidationError),
    Fact(FactValidationError),
    Timeline(TimelineValidationError),
}

} // verus!
