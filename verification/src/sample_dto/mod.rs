//! The published sample-match files: their wire types, the conversion into domain
//! values and the export back.

pub mod dtos;
pub mod raw;
pub mod converter;
pub mod exporter;

pub use dtos::{
    SCHEMA_VERSION_CURRENT,
    SampleIndexDtoV2,
    SampleMatchSummaryV2,
    SampleHighlightIndexDtoV2,
    SampleHighlightSummaryV2,
    SampleMatchDtoV2,
    SampleMatchHeaderV2,
    SampleTeamsDtoV2,
    SampleTeamDtoV2,
    SamplePlayerDtoV2,
    SampleMatchConfigurationDtoV2,
    SampleTimerConfigurationDtoV2,
    SampleVideoConfigurationDtoV2,
    SampleVideoSourceDtoV2,
    SampleFactDtoV2,
    SampleFactPayloadDtoV2,
    SamplePlayFactDtoV2,
    SamplePossessionFactDtoV2,
    SampleControlFactDtoV2,
    SamplePhaseStartPayloadDtoV2,
    SampleStoppagePayloadDtoV2,
    SampleFactAnchorDtoV2,
    SampleMatchClockDtoV2,
    SampleVideoClockDtoV2,
    SampleMatchDecodeErrorV2,
};
