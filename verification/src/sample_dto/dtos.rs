//! The wire types of the published sample-match files (schema version 2).
//!
//! Tagged unions are kept as plain structs: a `kind` string plus optional sibling
//! payloads, so that an unknown `kind` or a missing payload reaches the converter
//! and is reported as a structured [`SampleMatchDecodeErrorV2`] instead of failing the
//! parse.  Clock readings are [`Seconds`]; instants are [`UtcDateTime`]; a fact id is
//! the 128-bit value of its UUID.

use vstd::prelude::*;

use crate::clock::{Seconds, UtcDateTime};

verus! {

/// The current `schemaVersion`.
pub const SCHEMA_VERSION_CURRENT: i64 = 2;

/// Top level of the match index.
#[derive(Debug, Clone, PartialEq)]
pub struct SampleIndexDtoV2 {
    pub schema_version: i64,
    pub matches: Vec<SampleMatchSummaryV2>,
}

/// One entry of the match index.
#[derive(Debug, Clone, PartialEq)]
pub struct SampleMatchSummaryV2 {
    pub slug: String,
    pub display_name: String,
    pub description: Option<String>,
    pub date: UtcDateTime,
    pub home_score: i64,
    pub away_score: i64,
    pub has_video: bool,
}

/// Top level of the highlight index.
#[derive(Debug, Clone, PartialEq)]
pub struct SampleHighlightIndexDtoV2 {
    pub schema_version: i64,
    pub highlights: Vec<SampleHighlightSummaryV2>,
}

/// One entry of the highlight index.
#[derive(Debug, Clone, PartialEq)]
pub struct SampleHighlightSummaryV2 {
    pub slug: String,
    pub display_name: String,
    pub description: Option<String>,
    pub date: UtcDateTime,
    pub home_team_name: String,
    pub away_team_name: String,
    pub fact_count: i64,
    pub has_video: bool,
}

/// The body of a match file (also of a highlight file).
#[derive(Debug, Clone, PartialEq)]
pub struct SampleMatchDtoV2 {
    pub schema_version: i64,
    /// The `match` header.
    pub match_: SampleMatchHeaderV2,
    pub teams: SampleTeamsDtoV2,
    pub facts: Vec<SampleFactDtoV2>,
}

#[derive(Debug, Clone, PartialEq)]
pub struct SampleMatchHeaderV2 {
    /// The title the user gave the match, if any.
    pub display_name: Option<String>,
    pub date: UtcDateTime,
    pub configuration: SampleMatchConfigurationDtoV2,
}

#[derive(Debug, Clone, PartialEq)]
pub struct SampleTeamsDtoV2 {
    pub home: SampleTeamDtoV2,
    pub away: SampleTeamDtoV2,
}

#[derive(Debug, Clone, PartialEq)]
pub struct SampleTeamDtoV2 {
    pub key: String,
    pub name: String,
    pub players: Vec<SamplePlayerDtoV2>,
}

#[derive(Debug, Clone, PartialEq)]
pub struct SamplePlayerDtoV2 {
    pub key: String,
    pub name: String,
    pub jersey_number: Option<i64>,
}

/// The configuration union: `kind` is `timer`, `video` or `videoHighlight`, and the
/// payload of that name is read.
#[derive(Debug, Clone, PartialEq)]
pub struct SampleMatchConfigurationDtoV2 {
    pub kind: String,
    pub timer: Option<SampleTimerConfigurationDtoV2>,
    pub video: Option<SampleVideoConfigurationDtoV2>,
    pub video_highlight: Option<SampleVideoConfigurationDtoV2>,
}

#[derive(Debug, Clone, Copy, PartialEq, Eq, Structural)]
pub struct SampleTimerConfigurationDtoV2 {
    pub phase_duration_seconds: Seconds,
}

#[derive(Debug, Clone, PartialEq)]
pub struct SampleVideoConfigurationDtoV2 {
    pub source: SampleVideoSourceDtoV2,
}

#[derive(Debug, Clone, PartialEq)]
pub struct SampleVideoSourceDtoV2 {
    /// `youtube` or `local`.
    pub provider: String,
    pub external_id: String,
}

/// One fact; the payload is the play / control union.
#[derive(Debug, Clone, PartialEq)]
pub struct SampleFactDtoV2 {
    /// The stored fact id, when the file carries one.
    pub fact_id: Option<u128>,
    pub recorded_at: UtcDateTime,
    pub payload: SampleFactPayloadDtoV2,
}

/// `kind` is `play`, `control` or `possession`.
#[derive(Debug, Clone, PartialEq)]
pub struct SampleFactPayloadDtoV2 {
    pub kind: String,
    pub play: Option<SamplePlayFactDtoV2>,
    pub control: Option<SampleControlFactDtoV2>,
    pub possession: Option<SamplePossessionFactDtoV2>,
}

/// The start of a team's possession.  The anchor's end readings are not read: a
/// possession in a file is its start only.
#[derive(Debug, Clone, PartialEq)]
pub struct SamplePossessionFactDtoV2 {
    pub team_key: String,
    pub anchor: SampleFactAnchorDtoV2,
}

#[derive(Debug, Clone, PartialEq)]
pub struct SamplePlayFactDtoV2 {
    /// `goal`, `shotMissed`, `freeNote`, `yellowCard`, `twoMinuteSuspension` or `redCard`.
    pub kind: String,
    pub team_key: Option<String>,
    pub player_key: Option<String>,
    pub related_player_key: Option<String>,
    pub anchor: SampleFactAnchorDtoV2,
    pub title: Option<String>,
    pub note: Option<String>,
}

#[derive(Debug, Clone, PartialEq)]
pub struct SampleControlFactDtoV2 {
    /// `phaseStart` or `stoppage`.
    pub kind: String,
    pub phase_start: Option<SamplePhaseStartPayloadDtoV2>,
    pub stoppage: Option<SampleStoppagePayloadDtoV2>,
    /// The start anchor; the end lives in its `end_*` fields.
    pub anchor: SampleFactAnchorDtoV2,
}

#[derive(Debug, Clone, PartialEq)]
pub struct SamplePhaseStartPayloadDtoV2 {
    /// `regular` or `shootout`.
    pub kind: String,
}

#[derive(Debug, Clone, PartialEq)]
pub struct SampleStoppagePayloadDtoV2 {
    /// `timeout` or `pause`.
    pub stoppage_kind: String,
    pub note: Option<String>,
}

#[derive(Debug, Clone, PartialEq)]
pub struct SampleFactAnchorDtoV2 {
    /// `matchClock`, `videoClock` or `both`.
    pub kind: String,
    pub match_clock: Option<SampleMatchClockDtoV2>,
    pub video_clock: Option<SampleVideoClockDtoV2>,
    /// The end of a phase or stoppage range; absent on plays.
    pub end_match_elapsed_seconds: Option<Seconds>,
    pub end_video_elapsed_seconds: Option<Seconds>,
}

#[derive(Debug, Clone, Copy, PartialEq, Eq, Structural)]
pub struct SampleMatchClockDtoV2 {
    /// Cumulative match-clock seconds.
    pub elapsed_seconds: Seconds,
}

#[derive(Debug, Clone, Copy, PartialEq, Eq, Structural)]
pub struct SampleVideoClockDtoV2 {
    pub elapsed_seconds: Seconds,
}

/// Why a file could not be turned into domain values.  Codes and parameters only; the
/// wording belongs to the shell.
#[derive(Debug, Clone, PartialEq)]
pub enum SampleMatchDecodeErrorV2 {
    SchemaVersionMismatch { found: i64, expected: i64 },
    UnknownConfigurationKind(String),
    MissingConfigurationPayload(String),
    UnknownPayloadKind(String),
    MissingPayloadBody(String),
    UnknownPlayKind(String),
    UnknownControlKind(String),
    UnknownStoppageKind(String),
    UnknownPhaseKind(String),
    UnknownAnchorKind(String),
    UnknownVideoProvider(String),
    MissingAnchorBody(String),
    UnknownTeamKey(String),
    UnknownPlayerKey(String),
    MissingPhaseStartEnd,
}

} // verus!
