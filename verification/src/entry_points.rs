//! Coarse entry points for the shells: conversions checked against the identifiers
//! supplied, the one-call match view, identifier parsing, and the decisions of the
//! write entries (whether a team or player may be deleted).

use vstd::prelude::*;

use crate::configuration::MatchConfiguration;
use crate::entities::{Match, Player, Team};
use crate::ids::{uuid_parse, parse_uuid};
use crate::projection::summary::{phase_lines, timeline_facts, SummaryProjection};
use crate::projection::timeline::TimelineProjection;
use crate::sample_dto::converter::{
    conversion_matches, convert, spec_convert_outcome, spec_required_id_count,
    required_id_count, DecodeErrorView, SampleMatchConversionResult,
};
use crate::sample_dto::dtos::{SampleMatchDecodeErrorV2, SampleMatchDtoV2};
use crate::validation::DomainValidationIssue;

verus! {

/// Failure of a sample conversion at the shell boundary.
#[derive(Debug, Clone, PartialEq)]
pub enum SampleDtoError {
    /// The text is not a sample file (the parser's diagnostic attached).
    InvalidJson { detail: String },
    /// The DTO could not be converted.
    Decode { error: SampleMatchDecodeErrorV2 },
    /// Fewer identifiers were supplied than the conversion consumes.
    InsufficientNewIds { required: usize, provided: usize },
}

/// Converts a sample file with identifiers generated ahead by the shell: refuses when
/// fewer than [`required_id_count`] are given, and otherwise converts as [`convert`]
/// does.
pub fn convert_sample_match(
    slug: &str,
    dto: &SampleMatchDtoV2,
    configuration_override: Option<MatchConfiguration>,
    new_ids: &[u128],
) -> (r: Result<SampleMatchConversionResult, SampleDtoError>)
    requires
        spec_required_id_count(*dto) <= usize::MAX,
    ensures
        new_ids@.len() < spec_required_id_count(*dto) ==> r == Err::<SampleMatchConversionResult, SampleDtoError>(
            SampleDtoError::InsufficientNewIds {
                required: spec_required_id_count(*dto) as usize,
                provided: new_ids@.len() as usize,
            },
        ),
        new_ids@.len() >= spec_required_id_count(*dto) ==> match r {
            Ok(res) => conversion_matches(res, *dto, configuration_override, new_ids@),
            Err(SampleDtoError::Decode { error }) => spec_convert_outcome(*dto, configuration_override, new_ids@)
                == Err::<(MatchConfiguration, Seq<crate::facts::MatchFact>), DecodeErrorView>(error@),
            Err(_) => false,
        },
{
    let required = required_id_count(dto);
    if new_ids.len() < required {
        return Err(SampleDtoError::InsufficientNewIds { required, provided: new_ids.len() });
    }
    match convert(slug, dto, configuration_override, new_ids) {
        Ok(res) => Ok(res),
        Err(error) => Err(SampleDtoError::Decode { error }),
    }
}

// ── The match view of the web shell ──

/// Failure of the web shell's entry points.
#[derive(Debug, Clone, PartialEq)]
pub enum WasmError {
    /// The text is not a sample file.
    InvalidJson { message: String },
    /// The DTO could not be converted.
    Decode { error: SampleMatchDecodeErrorV2 },
    /// Fewer identifiers were supplied than the conversion consumes.
    InsufficientNewIds { required: usize, provided: usize },
    /// The identifier at `index` is not a UUID.
    InvalidUuid { index: usize, value: String },
}

/// Everything the web shell shows of one match, built in one call.
#[derive(Debug, Clone, PartialEq)]
pub struct MatchView {
    pub match_: Match,
    pub home_team: Team,
    pub away_team: Team,
    pub players: Vec<Player>,
    pub summary: SummaryProjection,
    pub timeline: TimelineProjection,
}

/// Converts a sample file and builds its timeline and summary (the summary from the
/// timeline, so per-phase tallies are included).
pub fn build_match_view(slug: &str, dto: &SampleMatchDtoV2, new_ids: &[u128]) -> (r: Result<MatchView, WasmError>)
    requires
        spec_required_id_count(*dto) <= usize::MAX,
        dto.facts@.len() <= i64::MAX,
    ensures
        new_ids@.len() < spec_required_id_count(*dto) ==> r == Err::<MatchView, WasmError>(
            WasmError::InsufficientNewIds {
                required: spec_required_id_count(*dto) as usize,
                provided: new_ids@.len() as usize,
            },
        ),
        new_ids@.len() >= spec_required_id_count(*dto) ==> match r {
            Ok(view) => exists|res: SampleMatchConversionResult|
                {
                    &&& conversion_matches(res, *dto, None, new_ids@)
                    &&& view.match_ == res.match_
                    &&& view.home_team == res.home_team
                    &&& view.away_team == res.away_team
                    &&& view.players@ == res.players@
                    &&& view.timeline.built_from(res.facts@)
                    &&& view.summary.tallies(res.match_, timeline_facts(view.timeline.resolved_facts@))
                    &&& view.summary.phase_summaries@ == phase_lines(
                        view.timeline.resolver.phases@,
                        view.timeline.resolved_facts@,
                        res.match_,
                        view.timeline.resolver.phases@,
                        0,
                    )
                },
            Err(WasmError::Decode { error }) => spec_convert_outcome(*dto, None, new_ids@)
                == Err::<(MatchConfiguration, Seq<crate::facts::MatchFact>), DecodeErrorView>(error@),
            Err(_) => false,
        },
{
    let required = required_id_count(dto);
    if new_ids.len() < required {
        return Err(WasmError::InsufficientNewIds { required, provided: new_ids.len() });
    }
    let converted = match convert(slug, dto, None, new_ids) {
        Ok(c) => c,
        Err(error) => return Err(WasmError::Decode { error }),
    };
    let ghost conv = converted;
    proof {
        crate::sample_dto::converter::lemma_decode_facts_len(
            dto.facts@,
            crate::sample_dto::converter::spec_teams_by_key(*dto, new_ids@),
            crate::sample_dto::converter::spec_players_by_key(*dto, new_ids@),
            crate::sample_dto::converter::spec_fact_ids(*dto, new_ids@),
        );
    }
    let timeline = TimelineProjection::build(&converted.match_, converted.facts.as_slice());
    let summary = SummaryProjection::build_with_timeline(&converted.match_, &timeline);
    let view = MatchView {
        match_: converted.match_,
        home_team: converted.home_team,
        away_team: converted.away_team,
        players: converted.players,
        summary,
        timeline,
    };
    proof {
        assert(conversion_matches(conv, *dto, None, new_ids@));
    }
    Ok(view)
}

/// The identifiers a shell passes as text, parsed; the first text that is not a UUID
/// fails with its position.
pub fn parse_ids(new_ids: &[String]) -> (r: Result<Vec<u128>, WasmError>)
    ensures
        match r {
            Ok(ids) => ids@.len() == new_ids@.len() && forall|k: int|
                0 <= k < new_ids@.len() ==> uuid_parse((#[trigger] new_ids@[k])@) == Some(ids@[k]),
            Err(WasmError::InvalidUuid { index, value }) => {
                &&& index < new_ids@.len()
                &&& value == new_ids@[index as int]
                &&& uuid_parse(value@) is None
                &&& forall|k: int| 0 <= k < index ==> uuid_parse((#[trigger] new_ids@[k])@) is Some
            },
            Err(_) => false,
        },
{
    let mut out: Vec<u128> = Vec::new();
    let mut i: usize = 0;
    while i < new_ids.len()
        invariant
            i <= new_ids@.len(),
            out@.len() == i,
            forall|k: int| 0 <= k < i ==> uuid_parse((#[trigger] new_ids@[k])@) == Some(out@[k]),
        decreases new_ids@.len() - i,
    {
        match parse_uuid(new_ids[i].as_str()) {
            Some(v) => out.push(v),
            None => return Err(WasmError::InvalidUuid { index: i, value: new_ids[i].clone() }),
        }
        i += 1;
    }
    Ok(out)
}

// ── Write entries ──

/// Failure of a write entry.
#[derive(Debug, Clone, PartialEq)]
pub enum CoreWriteError {
    /// The write breaks validation; nothing was written.
    ValidationFailed { issues: Vec<DomainValidationIssue> },
    /// The team is used by matches and cannot be deleted.
    TeamInUse { match_count: u32 },
    /// The player is referenced by facts and cannot be deleted.
    PlayerInUse { fact_count: u32 },
    /// The shell's repository failed (diagnostic only).
    Repository { detail: String },
    /// Fewer identifiers or stamps were supplied than the write consumes.
    InsufficientNewIds { required: usize, provided: usize },
    /// The video migration could not be planned (diagnostic only).
    MigrationPlanInfeasible { detail: String },
    /// The sample file of an import could not be converted (diagnostic only).
    ImportDecodeFailed { detail: String },
}

/// A team may be deleted only while no match refers to it.
pub fn team_deletion_verdict(match_count: u32) -> (r: Result<(), CoreWriteError>)
    ensures
        match_count == 0 ==> r == Ok::<(), CoreWriteError>(()),
        match_count > 0 ==> r == Err::<(), CoreWriteError>(CoreWriteError::TeamInUse { match_count }),
{
    if match_count > 0 {
        Err(CoreWriteError::TeamInUse { match_count })
    } else {
        Ok(())
    }
}

/// A player may be deleted only while no fact refers to them.
pub fn player_deletion_verdict(fact_count: u32) -> (r: Result<(), CoreWriteError>)
    ensures
        fact_count == 0 ==> r == Ok::<(), CoreWriteError>(()),
        fact_count > 0 ==> r == Err::<(), CoreWriteError>(CoreWriteError::PlayerInUse { fact_count }),
{
    if fact_count > 0 {
        Err(CoreWriteError::PlayerInUse { fact_count })
    } else {
        Ok(())
    }
}

/// A write that consumes `required` identifiers proceeds only with at least that many.
pub fn new_ids_verdict(required: usize, provided: usize) -> (r: Result<(), CoreWriteError>)
    ensures
        provided >= required ==> r == Ok::<(), CoreWriteError>(()),
        provided < required ==> r == Err::<(), CoreWriteError>(CoreWriteError::InsufficientNewIds { required, provided }),
{
    if provided < required {
        Err(CoreWriteError::InsufficientNewIds { required, provided })
    } else {
        Ok(())
    }
}

} // verus!
