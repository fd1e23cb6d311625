//! Projections: what is derived from a fact log.

pub mod live_match;
pub mod possession;
pub mod score_progression;
pub mod segment_resolver;
pub mod summary;
pub mod time_segment;
pub mod timeline;

pub use live_match::{AvailableActions, LiveMatchProjection, MatchTimerState};
pub use segment_resolver::{Phase, SegmentResolver};
pub use summary::{PhaseSummaryLine, PlayerStatLine, SummaryProjection, TeamSummaryLine};
pub use time_segment::{TimeSegment, TimeSegmentKind};
pub use timeline::{ResolvedFact, TimelineProjection};
pub use score_progression::{ScoreProgressionPhaseSpan, ScoreProgressionPoint, ScoreProgressionProjection};
pub use possession::{PossessionProjection, PossessionSegment};
