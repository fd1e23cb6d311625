//! Sample DTO → domain values.
//!
//! Team and player keys of a file map to identifiers that the caller supplies, so
//! that two imported matches never collide.  Identifiers are consumed in a fixed
//! order: home team, home players, away team, away players, the match, then one per
//! fact that carries no `fact_id`.

use vstd::prelude::*;

use crate::clock::{FactAnchor, FactAnchorKind, MatchClock, VideoClock};
use crate::configuration::{MatchConfiguration, VideoProvider, VideoSource};
use crate::entities::{duplicate_opt_string, Match, Player, RosterSelection, Team};
use crate::facts::{
    ControlFact, MatchFact, MatchFactPayload, PhaseStartPayload, PlayFact, PossessionFact, StoppagePayload,
};
use crate::ids::{FactId, MatchId, PlayerId, TeamId};
use crate::seqs::{count_where, lemma_count_where_bound};
use crate::text::text_is;

use super::dtos::{
    SampleControlFactDtoV2, SampleFactAnchorDtoV2, SampleFactDtoV2, SampleFactPayloadDtoV2,
    SampleMatchConfigurationDtoV2, SampleMatchDecodeErrorV2, SampleMatchDtoV2,
    SamplePlayFactDtoV2, SamplePossessionFactDtoV2, SampleTeamDtoV2, SampleVideoSourceDtoV2, SCHEMA_VERSION_CURRENT,
};
use super::raw::{
    phase_kind_from_raw, play_event_kind_from_raw, spec_phase_kind_from_raw,
    spec_play_event_kind_from_raw, spec_stoppage_kind_from_raw, stoppage_kind_from_raw,
};

verus! {

/// A decode error with its texts taken by their characters.
pub enum DecodeErrorView {
    SchemaVersionMismatch { found: i64, expected: i64 },
    UnknownConfigurationKind(Seq<char>),
    MissingConfigurationPayload(Seq<char>),
    UnknownPayloadKind(Seq<char>),
    MissingPayloadBody(Seq<char>),
    UnknownPlayKind(Seq<char>),
    UnknownControlKind(Seq<char>),
    UnknownStoppageKind(Seq<char>),
    UnknownPhaseKind(Seq<char>),
    UnknownAnchorKind(Seq<char>),
    UnknownVideoProvider(Seq<char>),
    MissingAnchorBody(Seq<char>),
    UnknownTeamKey(Seq<char>),
    UnknownPlayerKey(Seq<char>),
    MissingPhaseStartEnd,
}

impl View for SampleMatchDecodeErrorV2 {
    type V = DecodeErrorView;

    open spec fn view(&self) -> DecodeErrorView {
        match self {
            SampleMatchDecodeErrorV2::SchemaVersionMismatch { found, expected } =>
                DecodeErrorView::SchemaVersionMismatch { found: *found, expected: *expected },
            SampleMatchDecodeErrorV2::UnknownConfigurationKind(s) => DecodeErrorView::UnknownConfigurationKind(s@),
            SampleMatchDecodeErrorV2::MissingConfigurationPayload(s) => DecodeErrorView::MissingConfigurationPayload(s@),
            SampleMatchDecodeErrorV2::UnknownPayloadKind(s) => DecodeErrorView::UnknownPayloadKind(s@),
            SampleMatchDecodeErrorV2::MissingPayloadBody(s) => DecodeErrorView::MissingPayloadBody(s@),
            SampleMatchDecodeErrorV2::UnknownPlayKind(s) => DecodeErrorView::UnknownPlayKind(s@),
            SampleMatchDecodeErrorV2::UnknownControlKind(s) => DecodeErrorView::UnknownControlKind(s@),
            SampleMatchDecodeErrorV2::UnknownStoppageKind(s) => DecodeErrorView::UnknownStoppageKind(s@),
            SampleMatchDecodeErrorV2::UnknownPhaseKind(s) => DecodeErrorView::UnknownPhaseKind(s@),
            SampleMatchDecodeErrorV2::UnknownAnchorKind(s) => DecodeErrorView::UnknownAnchorKind(s@),
            SampleMatchDecodeErrorV2::UnknownVideoProvider(s) => DecodeErrorView::UnknownVideoProvider(s@),
            SampleMatchDecodeErrorV2::MissingAnchorBody(s) => DecodeErrorView::MissingAnchorBody(s@),
            SampleMatchDecodeErrorV2::UnknownTeamKey(s) => DecodeErrorView::UnknownTeamKey(s@),
            SampleMatchDecodeErrorV2::UnknownPlayerKey(s) => DecodeErrorView::UnknownPlayerKey(s@),
            SampleMatchDecodeErrorV2::MissingPhaseStartEnd => DecodeErrorView::MissingPhaseStartEnd,
        }
    }
}

/// A result with its error taken by its view.
pub open spec fn outcome<T>(r: Result<T, SampleMatchDecodeErrorV2>) -> Result<T, DecodeErrorView> {
    match r {
        Ok(v) => Ok(v),
        Err(e) => Err(e@),
    }
}

// ── Key tables ──

/// The value stored under `key` in an association list; a later entry for the same
/// key replaces an earlier one.
pub open spec fn key_lookup<T>(table: Seq<(String, T)>, key: Seq<char>) -> Option<T>
    decreases table.len(),
{
    if table.len() == 0 {
        None
    } else if table.last().0@ == key {
        Some(table.last().1)
    } else {
        key_lookup(table.drop_last(), key)
    }
}

/// Looks `key` up in an association list (the last entry for the key wins).
pub fn lookup_key<T: Copy>(table: &[(String, T)], key: &String) -> (r: Option<T>)
    ensures
        r == key_lookup(table@, key@),
{
    let mut i: usize = table.len();
    assert(table@.take(i as int) == table@);
    while i > 0
        invariant
            i <= table.len(),
            key_lookup(table@, key@) == key_lookup(table@.take(i as int), key@),
        decreases i,
    {
        let entry = &table[i - 1];
        proof {
            assert(table@.take(i as int).drop_last() == table@.take(i - 1));
        }
        if entry.0 == *key {
            return Some(entry.1);
        }
        i -= 1;
    }
    None
}

// ── Configuration ──

pub open spec fn spec_decode_video_source(dto: SampleVideoSourceDtoV2) -> Result<VideoSource, DecodeErrorView> {
    if dto.provider@ == "youtube"@ {
        Ok(VideoSource { provider: VideoProvider::Youtube, external_id: dto.external_id })
    } else if dto.provider@ == "local"@ {
        Ok(VideoSource { provider: VideoProvider::Local, external_id: dto.external_id })
    } else {
        Err(DecodeErrorView::UnknownVideoProvider(dto.provider@))
    }
}

pub open spec fn spec_decode_configuration(dto: SampleMatchConfigurationDtoV2) -> Result<MatchConfiguration, DecodeErrorView> {
    if dto.kind@ == "timer"@ {
        match dto.timer {
            Some(t) => Ok(MatchConfiguration::Timer { phase_duration_seconds: t.phase_duration_seconds }),
            None => Err(DecodeErrorView::MissingConfigurationPayload("timer"@)),
        }
    } else if dto.kind@ == "video"@ {
        match dto.video {
            Some(v) => match spec_decode_video_source(v.source) {
                Ok(s) => Ok(MatchConfiguration::Video(s)),
                Err(e) => Err(e),
            },
            None => Err(DecodeErrorView::MissingConfigurationPayload("video"@)),
        }
    } else if dto.kind@ == "videoHighlight"@ {
        match dto.video_highlight {
            Some(v) => match spec_decode_video_source(v.source) {
                Ok(s) => Ok(MatchConfiguration::VideoHighlight(s)),
                Err(e) => Err(e),
            },
            None => Err(DecodeErrorView::MissingConfigurationPayload("videoHighlight"@)),
        }
    } else {
        Err(DecodeErrorView::UnknownConfigurationKind(dto.kind@))
    }
}

fn decode_video_source(dto: &SampleVideoSourceDtoV2) -> (r: Result<VideoSource, SampleMatchDecodeErrorV2>)
    ensures
        outcome(r) == spec_decode_video_source(*dto),
{
    if text_is(dto.provider.as_str(), "youtube") {
        Ok(VideoSource { provider: VideoProvider::Youtube, external_id: dto.external_id.clone() })
    } else if text_is(dto.provider.as_str(), "local") {
        Ok(VideoSource { provider: VideoProvider::Local, external_id: dto.external_id.clone() })
    } else {
        Err(SampleMatchDecodeErrorV2::UnknownVideoProvider(dto.provider.clone()))
    }
}

/// Decodes the configuration union.
pub fn decode_configuration(dto: &SampleMatchConfigurationDtoV2) -> (r: Result<MatchConfiguration, SampleMatchDecodeErrorV2>)
    ensures
        outcome(r) == spec_decode_configuration(*dto),
{
    if text_is(dto.kind.as_str(), "timer") {
        match &dto.timer {
            Some(t) => Ok(MatchConfiguration::Timer { phase_duration_seconds: t.phase_duration_seconds }),
            None => Err(SampleMatchDecodeErrorV2::MissingConfigurationPayload("timer".to_owned())),
        }
    } else if text_is(dto.kind.as_str(), "video") {
        match &dto.video {
            Some(v) => match decode_video_source(&v.source) {
                Ok(s) => Ok(MatchConfiguration::Video(s)),
                Err(e) => Err(e),
            },
            None => Err(SampleMatchDecodeErrorV2::MissingConfigurationPayload("video".to_owned())),
        }
    } else if text_is(dto.kind.as_str(), "videoHighlight") {
        match &dto.video_highlight {
            Some(v) => match decode_video_source(&v.source) {
                Ok(s) => Ok(MatchConfiguration::VideoHighlight(s)),
                Err(e) => Err(e),
            },
            None => Err(SampleMatchDecodeErrorV2::MissingConfigurationPayload("videoHighlight".to_owned())),
        }
    } else {
        Err(SampleMatchDecodeErrorV2::UnknownConfigurationKind(dto.kind.clone()))
    }
}

// ── Anchors ──

pub open spec fn spec_decode_start_anchor(dto: SampleFactAnchorDtoV2) -> Result<FactAnchor, DecodeErrorView> {
    if dto.kind@ == "matchClock"@ {
        match dto.match_clock {
            Some(m) => Ok(FactAnchor::MatchClock(MatchClock { elapsed_seconds: m.elapsed_seconds })),
            None => Err(DecodeErrorView::MissingAnchorBody("matchClock"@)),
        }
    } else if dto.kind@ == "videoClock"@ {
        match dto.video_clock {
            Some(v) => Ok(FactAnchor::VideoClock(VideoClock { elapsed_seconds: v.elapsed_seconds })),
            None => Err(DecodeErrorView::MissingAnchorBody("videoClock"@)),
        }
    } else if dto.kind@ == "both"@ {
        match (dto.match_clock, dto.video_clock) {
            (Some(m), Some(v)) => Ok(FactAnchor::Both {
                match_clock: MatchClock { elapsed_seconds: m.elapsed_seconds },
                video_clock: VideoClock { elapsed_seconds: v.elapsed_seconds },
            }),
            (None, _) => Err(DecodeErrorView::MissingAnchorBody("both.matchClock"@)),
            (Some(_), None) => Err(DecodeErrorView::MissingAnchorBody("both.videoClock"@)),
        }
    } else {
        Err(DecodeErrorView::UnknownAnchorKind(dto.kind@))
    }
}

/// The end anchor of a range, of the same kind as its start; `None` when the file
/// gives no end reading at all.
pub open spec fn spec_decode_end_anchor(dto: SampleFactAnchorDtoV2, start: FactAnchor) -> Result<Option<FactAnchor>, DecodeErrorView> {
    let em = dto.end_match_elapsed_seconds;
    let ev = dto.end_video_elapsed_seconds;
    if em is None && ev is None {
        Ok(None)
    } else {
        match start {
            FactAnchor::MatchClock(_) => match em {
                Some(m) => Ok(Some(FactAnchor::MatchClock(MatchClock { elapsed_seconds: m }))),
                None => Err(DecodeErrorView::MissingAnchorBody("end.matchClock"@)),
            },
            FactAnchor::VideoClock(_) => match ev {
                Some(v) => Ok(Some(FactAnchor::VideoClock(VideoClock { elapsed_seconds: v }))),
                None => Err(DecodeErrorView::MissingAnchorBody("end.videoClock"@)),
            },
            FactAnchor::Both { .. } => match (em, ev) {
                (Some(m), Some(v)) => Ok(Some(FactAnchor::Both {
                    match_clock: MatchClock { elapsed_seconds: m },
                    video_clock: VideoClock { elapsed_seconds: v },
                })),
                (None, _) => Err(DecodeErrorView::MissingAnchorBody("end.both.matchClock"@)),
                (Some(_), None) => Err(DecodeErrorView::MissingAnchorBody("end.both.videoClock"@)),
            },
        }
    }
}

fn decode_start_anchor(dto: &SampleFactAnchorDtoV2) -> (r: Result<FactAnchor, SampleMatchDecodeErrorV2>)
    ensures
        outcome(r) == spec_decode_start_anchor(*dto),
{
    if text_is(dto.kind.as_str(), "matchClock") {
        match dto.match_clock {
            Some(m) => Ok(FactAnchor::MatchClock(MatchClock { elapsed_seconds: m.elapsed_seconds })),
            None => Err(SampleMatchDecodeErrorV2::MissingAnchorBody("matchClock".to_owned())),
        }
    } else if text_is(dto.kind.as_str(), "videoClock") {
        match dto.video_clock {
            Some(v) => Ok(FactAnchor::VideoClock(VideoClock { elapsed_seconds: v.elapsed_seconds })),
            None => Err(SampleMatchDecodeErrorV2::MissingAnchorBody("videoClock".to_owned())),
        }
    } else if text_is(dto.kind.as_str(), "both") {
        match dto.match_clock {
            None => Err(SampleMatchDecodeErrorV2::MissingAnchorBody("both.matchClock".to_owned())),
            Some(m) => match dto.video_clock {
                None => Err(SampleMatchDecodeErrorV2::MissingAnchorBody("both.videoClock".to_owned())),
                Some(v) => Ok(FactAnchor::Both {
                    match_clock: MatchClock { elapsed_seconds: m.elapsed_seconds },
                    video_clock: VideoClock { elapsed_seconds: v.elapsed_seconds },
                }),
            },
        }
    } else {
        Err(SampleMatchDecodeErrorV2::UnknownAnchorKind(dto.kind.clone()))
    }
}

fn decode_end_anchor(dto: &SampleFactAnchorDtoV2, start: FactAnchor) -> (r: Result<Option<FactAnchor>, SampleMatchDecodeErrorV2>)
    ensures
        outcome(r) == spec_decode_end_anchor(*dto, start),
{
    let em = dto.end_match_elapsed_seconds;
    let ev = dto.end_video_elapsed_seconds;
    if em.is_none() && ev.is_none() {
        return Ok(None);
    }
    match start.kind() {
        FactAnchorKind::MatchClock => match em {
            Some(m) => Ok(Some(FactAnchor::MatchClock(MatchClock { elapsed_seconds: m }))),
            None => Err(SampleMatchDecodeErrorV2::MissingAnchorBody("end.matchClock".to_owned())),
        },
        FactAnchorKind::VideoClock => match ev {
            Some(v) => Ok(Some(FactAnchor::VideoClock(VideoClock { elapsed_seconds: v }))),
            None => Err(SampleMatchDecodeErrorV2::MissingAnchorBody("end.videoClock".to_owned())),
        },
        FactAnchorKind::Both => match em {
            None => Err(SampleMatchDecodeErrorV2::MissingAnchorBody("end.both.matchClock".to_owned())),
            Some(m) => match ev {
                None => Err(SampleMatchDecodeErrorV2::MissingAnchorBody("end.both.videoClock".to_owned())),
                Some(v) => Ok(Some(FactAnchor::Both {
                    match_clock: MatchClock { elapsed_seconds: m },
                    video_clock: VideoClock { elapsed_seconds: v },
                })),
            },
        },
    }
}

// ── Facts ──

pub open spec fn spec_team_key(table: Seq<(String, TeamId)>, key: Option<String>) -> Result<Option<TeamId>, DecodeErrorView> {
    match key {
        None => Ok(None),
        Some(k) => match key_lookup(table, k@) {
            Some(id) => Ok(Some(id)),
            None => Err(DecodeErrorView::UnknownTeamKey(k@)),
        },
    }
}

pub open spec fn spec_player_key(table: Seq<(String, PlayerId)>, key: Option<String>) -> Result<Option<PlayerId>, DecodeErrorView> {
    match key {
        None => Ok(None),
        Some(k) => match key_lookup(table, k@) {
            Some(id) => Ok(Some(id)),
            None => Err(DecodeErrorView::UnknownPlayerKey(k@)),
        },
    }
}

pub open spec fn spec_decode_play_fact(
    dto: SamplePlayFactDtoV2,
    teams: Seq<(String, TeamId)>,
    players: Seq<(String, PlayerId)>,
) -> Result<PlayFact, DecodeErrorView> {
    match spec_play_event_kind_from_raw(dto.kind@) {
        None => Err(DecodeErrorView::UnknownPlayKind(dto.kind@)),
        Some(kind) => match spec_team_key(teams, dto.team_key) {
            Err(e) => Err(e),
            Ok(team_id) => match spec_player_key(players, dto.player_key) {
                Err(e) => Err(e),
                Ok(player_id) => match spec_player_key(players, dto.related_player_key) {
                    Err(e) => Err(e),
                    Ok(related_player_id) => match spec_decode_start_anchor(dto.anchor) {
                        Err(e) => Err(e),
                        Ok(anchor) => Ok(PlayFact {
                            kind,
                            team_id,
                            player_id,
                            related_player_id,
                            anchor,
                            title: dto.title,
                            note: dto.note,
                        }),
                    },
                },
            },
        },
    }
}

pub open spec fn spec_decode_control_fact(dto: SampleControlFactDtoV2) -> Result<ControlFact, DecodeErrorView> {
    if dto.kind@ == "phaseStart"@ {
        match dto.phase_start {
            None => Err(DecodeErrorView::MissingPayloadBody("phaseStart"@)),
            Some(p) => match spec_phase_kind_from_raw(p.kind@) {
                None => Err(DecodeErrorView::UnknownPhaseKind(p.kind@)),
                Some(kind) => match spec_decode_start_anchor(dto.anchor) {
                    Err(e) => Err(e),
                    Ok(start_anchor) => match spec_decode_end_anchor(dto.anchor, start_anchor) {
                        Err(e) => Err(e),
                        Ok(None) => Err(DecodeErrorView::MissingPhaseStartEnd),
                        Ok(Some(end_anchor)) => Ok(
                            ControlFact::PhaseStart(PhaseStartPayload { kind, start_anchor, end_anchor }),
                        ),
                    },
                },
            },
        }
    } else if dto.kind@ == "stoppage"@ {
        match dto.stoppage {
            None => Err(DecodeErrorView::MissingPayloadBody("stoppage"@)),
            Some(st) => match spec_stoppage_kind_from_raw(st.stoppage_kind@) {
                None => Err(DecodeErrorView::UnknownStoppageKind(st.stoppage_kind@)),
                Some(kind) => match spec_decode_start_anchor(dto.anchor) {
                    Err(e) => Err(e),
                    Ok(start_anchor) => match spec_decode_end_anchor(dto.anchor, start_anchor) {
                        Err(e) => Err(e),
                        Ok(end_anchor) => Ok(
                            ControlFact::Stoppage(StoppagePayload { kind, start_anchor, end_anchor, note: st.note }),
                        ),
                    },
                },
            },
        }
    } else {
        Err(DecodeErrorView::UnknownControlKind(dto.kind@))
    }
}

pub open spec fn spec_decode_payload(
    dto: SampleFactPayloadDtoV2,
    teams: Seq<(String, TeamId)>,
    players: Seq<(String, PlayerId)>,
) -> Result<MatchFactPayload, DecodeErrorView> {
    if dto.kind@ == "play"@ {
        match dto.play {
            None => Err(DecodeErrorView::MissingPayloadBody("play"@)),
            Some(p) => match spec_decode_play_fact(p, teams, players) {
                Err(e) => Err(e),
                Ok(play) => Ok(MatchFactPayload::Play(play)),
            },
        }
    } else if dto.kind@ == "control"@ {
        match dto.control {
            None => Err(DecodeErrorView::MissingPayloadBody("control"@)),
            Some(c) => match spec_decode_control_fact(c) {
                Err(e) => Err(e),
                Ok(control) => Ok(MatchFactPayload::Control(control)),
            },
        }
    } else if dto.kind@ == "possession"@ {
        match dto.possession {
            None => Err(DecodeErrorView::MissingPayloadBody("possession"@)),
            Some(p) => match spec_decode_possession_fact(p, teams) {
                Err(e) => Err(e),
                Ok(possession) => Ok(MatchFactPayload::Possession(possession)),
            },
        }
    } else {
        Err(DecodeErrorView::UnknownPayloadKind(dto.kind@))
    }
}

/// A possession start: its team by key and its start anchor; end readings in the file
/// are not read, so the possession has no end.
pub open spec fn spec_decode_possession_fact(
    dto: SamplePossessionFactDtoV2,
    teams: Seq<(String, TeamId)>,
) -> Result<PossessionFact, DecodeErrorView> {
    match key_lookup(teams, dto.team_key@) {
        None => Err(DecodeErrorView::UnknownTeamKey(dto.team_key@)),
        Some(team_id) => match spec_decode_start_anchor(dto.anchor) {
            Err(e) => Err(e),
            Ok(anchor) => Ok(PossessionFact { team_id, anchor, end_anchor: None }),
        },
    }
}

/// A fact keeps its own id when the file carries one and takes `fallback_id` otherwise.
pub open spec fn spec_decode_fact(
    dto: SampleFactDtoV2,
    teams: Seq<(String, TeamId)>,
    players: Seq<(String, PlayerId)>,
    fallback_id: u128,
) -> Result<MatchFact, DecodeErrorView> {
    match spec_decode_payload(dto.payload, teams, players) {
        Err(e) => Err(e),
        Ok(payload) => Ok(MatchFact {
            id: FactId(
                match dto.fact_id {
                    Some(id) => id,
                    None => fallback_id,
                },
            ),
            recorded_at: dto.recorded_at,
            payload,
        }),
    }
}

/// The number of facts that carry no id of their own.
pub open spec fn missing_fact_ids(facts: Seq<SampleFactDtoV2>) -> nat {
    count_where(facts, |f: SampleFactDtoV2| f.fact_id is None)
}

/// The facts decoded in order, the `k`-th fact without an id taking `ids[k]`; the
/// first failure, if any.
pub open spec fn spec_decode_facts(
    facts: Seq<SampleFactDtoV2>,
    teams: Seq<(String, TeamId)>,
    players: Seq<(String, PlayerId)>,
    ids: Seq<u128>,
) -> Result<Seq<MatchFact>, DecodeErrorView>
    decreases facts.len(),
{
    if facts.len() == 0 {
        Ok(Seq::empty())
    } else {
        match spec_decode_facts(facts.drop_last(), teams, players, ids) {
            Err(e) => Err(e),
            Ok(prefix) => match spec_decode_fact(
                facts.last(),
                teams,
                players,
                ids[missing_fact_ids(facts.drop_last()) as int],
            ) {
                Err(e) => Err(e),
                Ok(f) => Ok(prefix.push(f)),
            },
        }
    }
}

fn resolve_team_key(table: &[(String, TeamId)], key: &Option<String>) -> (r: Result<Option<TeamId>, SampleMatchDecodeErrorV2>)
    ensures
        outcome(r) == spec_team_key(table@, *key),
{
    match key {
        None => Ok(None),
        Some(k) => match lookup_key(table, k) {
            Some(id) => Ok(Some(id)),
            None => Err(SampleMatchDecodeErrorV2::UnknownTeamKey(k.clone())),
        },
    }
}

fn resolve_player_key(table: &[(String, PlayerId)], key: &Option<String>) -> (r: Result<Option<PlayerId>, SampleMatchDecodeErrorV2>)
    ensures
        outcome(r) == spec_player_key(table@, *key),
{
    match key {
        None => Ok(None),
        Some(k) => match lookup_key(table, k) {
            Some(id) => Ok(Some(id)),
            None => Err(SampleMatchDecodeErrorV2::UnknownPlayerKey(k.clone())),
        },
    }
}

fn decode_play_fact(
    dto: &SamplePlayFactDtoV2,
    teams: &[(String, TeamId)],
    players: &[(String, PlayerId)],
) -> (r: Result<PlayFact, SampleMatchDecodeErrorV2>)
    ensures
        outcome(r) == spec_decode_play_fact(*dto, teams@, players@),
{
    let kind = match play_event_kind_from_raw(dto.kind.as_str()) {
        Some(k) => k,
        None => return Err(SampleMatchDecodeErrorV2::UnknownPlayKind(dto.kind.clone())),
    };
    let team_id = match resolve_team_key(teams, &dto.team_key) {
        Ok(v) => v,
        Err(e) => return Err(e),
    };
    let player_id = match resolve_player_key(players, &dto.player_key) {
        Ok(v) => v,
        Err(e) => return Err(e),
    };
    let related_player_id = match resolve_player_key(players, &dto.related_player_key) {
        Ok(v) => v,
        Err(e) => return Err(e),
    };
    let anchor = match decode_start_anchor(&dto.anchor) {
        Ok(a) => a,
        Err(e) => return Err(e),
    };
    Ok(PlayFact {
        kind,
        team_id,
        player_id,
        related_player_id,
        anchor,
        title: duplicate_opt_string(&dto.title),
        note: duplicate_opt_string(&dto.note),
    })
}

fn decode_control_fact(dto: &SampleControlFactDtoV2) -> (r: Result<ControlFact, SampleMatchDecodeErrorV2>)
    ensures
        outcome(r) == spec_decode_control_fact(*dto),
{
    if text_is(dto.kind.as_str(), "phaseStart") {
        let p = match &dto.phase_start {
            Some(p) => p,
            None => return Err(SampleMatchDecodeErrorV2::MissingPayloadBody("phaseStart".to_owned())),
        };
        let kind = match phase_kind_from_raw(p.kind.as_str()) {
            Some(k) => k,
            None => return Err(SampleMatchDecodeErrorV2::UnknownPhaseKind(p.kind.clone())),
        };
        let start_anchor = match decode_start_anchor(&dto.anchor) {
            Ok(a) => a,
            Err(e) => return Err(e),
        };
        match decode_end_anchor(&dto.anchor, start_anchor) {
            Err(e) => Err(e),
            Ok(None) => Err(SampleMatchDecodeErrorV2::MissingPhaseStartEnd),
            Ok(Some(end_anchor)) => Ok(ControlFact::PhaseStart(PhaseStartPayload { kind, start_anchor, end_anchor })),
        }
    } else if text_is(dto.kind.as_str(), "stoppage") {
        let st = match &dto.stoppage {
            Some(st) => st,
            None => return Err(SampleMatchDecodeErrorV2::MissingPayloadBody("stoppage".to_owned())),
        };
        let kind = match stoppage_kind_from_raw(st.stoppage_kind.as_str()) {
            Some(k) => k,
            None => return Err(SampleMatchDecodeErrorV2::UnknownStoppageKind(st.stoppage_kind.clone())),
        };
        let start_anchor = match decode_start_anchor(&dto.anchor) {
            Ok(a) => a,
            Err(e) => return Err(e),
        };
        match decode_end_anchor(&dto.anchor, start_anchor) {
            Err(e) => Err(e),
            Ok(end_anchor) => Ok(ControlFact::Stoppage(StoppagePayload {
                kind,
                start_anchor,
                end_anchor,
                note: duplicate_opt_string(&st.note),
            })),
        }
    } else {
        Err(SampleMatchDecodeErrorV2::UnknownControlKind(dto.kind.clone()))
    }
}

fn decode_payload(
    dto: &SampleFactPayloadDtoV2,
    teams: &[(String, TeamId)],
    players: &[(String, PlayerId)],
) -> (r: Result<MatchFactPayload, SampleMatchDecodeErrorV2>)
    ensures
        outcome(r) == spec_decode_payload(*dto, teams@, players@),
{
    if text_is(dto.kind.as_str(), "play") {
        match &dto.play {
            None => Err(SampleMatchDecodeErrorV2::MissingPayloadBody("play".to_owned())),
            Some(p) => match decode_play_fact(p, teams, players) {
                Err(e) => Err(e),
                Ok(play) => Ok(MatchFactPayload::Play(play)),
            },
        }
    } else if text_is(dto.kind.as_str(), "control") {
        match &dto.control {
            None => Err(SampleMatchDecodeErrorV2::MissingPayloadBody("control".to_owned())),
            Some(c) => match decode_control_fact(c) {
                Err(e) => Err(e),
                Ok(control) => Ok(MatchFactPayload::Control(control)),
            },
        }
    } else if text_is(dto.kind.as_str(), "possession") {
        match &dto.possession {
            None => Err(SampleMatchDecodeErrorV2::MissingPayloadBody("possession".to_owned())),
            Some(p) => match decode_possession_fact(p, teams) {
                Err(e) => Err(e),
                Ok(possession) => Ok(MatchFactPayload::Possession(possession)),
            },
        }
    } else {
        Err(SampleMatchDecodeErrorV2::UnknownPayloadKind(dto.kind.clone()))
    }
}

fn decode_possession_fact(
    dto: &SamplePossessionFactDtoV2,
    teams: &[(String, TeamId)],
) -> (r: Result<PossessionFact, SampleMatchDecodeErrorV2>)
    ensures
        outcome(r) == spec_decode_possession_fact(*dto, teams@),
{
    let team_id = match lookup_key(teams, &dto.team_key) {
        Some(t) => t,
        None => return Err(SampleMatchDecodeErrorV2::UnknownTeamKey(dto.team_key.clone())),
    };
    match decode_start_anchor(&dto.anchor) {
        Err(e) => Err(e),
        Ok(anchor) => Ok(PossessionFact { team_id, anchor, end_anchor: None }),
    }
}

/// Decodes one fact against the key tables of its match; a fact without an id of its
/// own gets `fallback_id`.
pub fn decode_fact(
    dto: &SampleFactDtoV2,
    teams_by_key: &[(String, TeamId)],
    players_by_key: &[(String, PlayerId)],
    fallback_id: u128,
) -> (r: Result<MatchFact, SampleMatchDecodeErrorV2>)
    ensures
        outcome(r) == spec_decode_fact(*dto, teams_by_key@, players_by_key@, fallback_id),
{
    let id = match dto.fact_id {
        Some(id) => id,
        None => fallback_id,
    };
    match decode_payload(&dto.payload, teams_by_key, players_by_key) {
        Err(e) => Err(e),
        Ok(payload) => Ok(MatchFact { id: FactId(id), recorded_at: dto.recorded_at, payload }),
    }
}

/// Decodes the facts in order; the `k`-th fact without an id of its own takes
/// `ids[k]`.  Stops at the first failure.
pub fn decode_facts(
    facts: &[SampleFactDtoV2],
    teams_by_key: &[(String, TeamId)],
    players_by_key: &[(String, PlayerId)],
    ids: &[u128],
) -> (r: Result<Vec<MatchFact>, SampleMatchDecodeErrorV2>)
    requires
        missing_fact_ids(facts@) <= ids@.len(),
    ensures
        match r {
            Ok(v) => spec_decode_facts(facts@, teams_by_key@, players_by_key@, ids@) == Ok::<Seq<MatchFact>, DecodeErrorView>(v@),
            Err(e) => spec_decode_facts(facts@, teams_by_key@, players_by_key@, ids@) == Err::<Seq<MatchFact>, DecodeErrorView>(e@),
        },
{
    let mut out: Vec<MatchFact> = Vec::new();
    let mut used: usize = 0;
    let mut i: usize = 0;
    while i < facts.len()
        invariant
            i <= facts.len(),
            used == missing_fact_ids(facts@.take(i as int)),
            missing_fact_ids(facts@) <= ids@.len(),
            spec_decode_facts(facts@.take(i as int), teams_by_key@, players_by_key@, ids@) == Ok::<Seq<MatchFact>, DecodeErrorView>(out@),
        decreases facts.len() - i,
    {
        let ghost prefix = facts@.take(i as int);
        let ghost next = facts@.take(i + 1);
        proof {
            assert(next.drop_last() == prefix);
            assert(next.last() == facts@[i as int]);
            lemma_missing_prefix(facts@, i + 1);
        }
        let fallback: u128 = if used < ids.len() { ids[used] } else { 0 };
        let fact = decode_fact(&facts[i], teams_by_key, players_by_key, fallback);
        proof {
            if facts@[i as int].fact_id is None {
                assert(missing_fact_ids(next) == used + 1);
            }
        }
        match fact {
            Err(e) => {
                proof {
                    lemma_decode_facts_error_extends(facts@, teams_by_key@, players_by_key@, ids@, i + 1);
                }
                return Err(e);
            },
            Ok(f) => {
                out.push(f);
                proof {
                    if facts@[i as int].fact_id is None {
                        assert(missing_fact_ids(next) == used + 1);
                    } else {
                        assert(missing_fact_ids(next) == used);
                    }
                }
                if facts[i].fact_id.is_none() {
                    used = used + 1;
                }
            },
        }
        i += 1;
    }
    proof {
        assert(facts@.take(facts@.len() as int) == facts@);
    }
    Ok(out)
}

proof fn lemma_missing_prefix(facts: Seq<SampleFactDtoV2>, n: int)
    requires
        0 <= n <= facts.len(),
    ensures
        missing_fact_ids(facts.take(n)) <= missing_fact_ids(facts),
    decreases facts.len() - n,
{
    if n < facts.len() {
        lemma_missing_prefix(facts, n + 1);
        assert(facts.take(n + 1).drop_last() == facts.take(n));
    } else {
        assert(facts.take(n) == facts);
    }
}

/// Once a prefix fails to decode, every longer prefix fails with the same error.
proof fn lemma_decode_facts_error_extends(
    facts: Seq<SampleFactDtoV2>,
    teams: Seq<(String, TeamId)>,
    players: Seq<(String, PlayerId)>,
    ids: Seq<u128>,
    n: int,
)
    requires
        0 <= n <= facts.len(),
        spec_decode_facts(facts.take(n), teams, players, ids) is Err,
    ensures
        spec_decode_facts(facts, teams, players, ids) == spec_decode_facts(facts.take(n), teams, players, ids),
    decreases facts.len() - n,
{
    if n < facts.len() {
        assert(facts.take(n + 1).drop_last() == facts.take(n));
        lemma_decode_facts_error_extends(facts, teams, players, ids, n + 1);
    } else {
        assert(facts.take(n) == facts);
    }
}

// ── Whole match ──

/// The result of converting one file.
///
/// `teams_by_key` and `players_by_key` map the file's keys to the identifiers given
/// out (a later entry for a repeated key replaces an earlier one).
#[derive(Debug, Clone, PartialEq)]
pub struct SampleMatchConversionResult {
    pub match_: Match,
    pub home_team: Team,
    pub away_team: Team,
    pub players: Vec<Player>,
    pub facts: Vec<MatchFact>,
    pub teams_by_key: Vec<(String, TeamId)>,
    pub players_by_key: Vec<(String, PlayerId)>,
}

impl SampleMatchConversionResult {
    /// Home team, then away team.
    pub fn teams(&self) -> (r: Vec<Team>)
        ensures
            r@ == seq![self.home_team, self.away_team],
    {
        let mut v: Vec<Team> = Vec::new();
        v.push(self.home_team.duplicate());
        v.push(self.away_team.duplicate());
        v
    }
}

/// The number of identifiers [`convert`] consumes.
pub open spec fn spec_required_id_count(dto: SampleMatchDtoV2) -> int {
    ((1 + dto.teams.home.players@.len()) + (1 + dto.teams.away.players@.len()) + 1 + missing_fact_ids(dto.facts@)) as int
}

/// The players of a team file, the `k`-th taking `ids[k]`.
pub open spec fn spec_players_of(team: SampleTeamDtoV2, team_id: TeamId, ids: Seq<u128>) -> Seq<Player> {
    Seq::new(
        team.players@.len(),
        |k: int|
            Player {
                id: PlayerId(ids[k]),
                team_id,
                name: team.players@[k].name,
                jersey_number: team.players@[k].jersey_number,
                photo: None,
            },
    )
}

/// The key table of a team file's players, the `k`-th taking `ids[k]`.
pub open spec fn spec_player_keys(team: SampleTeamDtoV2, ids: Seq<u128>) -> Seq<(String, PlayerId)> {
    Seq::new(team.players@.len(), |k: int| (team.players@[k].key, PlayerId(ids[k])))
}

pub open spec fn home_len(dto: SampleMatchDtoV2) -> int {
    dto.teams.home.players@.len() as int
}

pub open spec fn away_len(dto: SampleMatchDtoV2) -> int {
    dto.teams.away.players@.len() as int
}

pub open spec fn spec_home_team(dto: SampleMatchDtoV2, ids: Seq<u128>) -> Team {
    Team { id: TeamId(ids[0]), name: dto.teams.home.name }
}

pub open spec fn spec_away_team(dto: SampleMatchDtoV2, ids: Seq<u128>) -> Team {
    Team { id: TeamId(ids[1 + home_len(dto)]), name: dto.teams.away.name }
}

pub open spec fn spec_converted_players(dto: SampleMatchDtoV2, ids: Seq<u128>) -> Seq<Player> {
    spec_players_of(dto.teams.home, TeamId(ids[0]), ids.subrange(1, 1 + home_len(dto)))
        + spec_players_of(
        dto.teams.away,
        TeamId(ids[1 + home_len(dto)]),
        ids.subrange(2 + home_len(dto), 2 + home_len(dto) + away_len(dto)),
    )
}

pub open spec fn spec_teams_by_key(dto: SampleMatchDtoV2, ids: Seq<u128>) -> Seq<(String, TeamId)> {
    seq![(dto.teams.home.key, TeamId(ids[0])), (dto.teams.away.key, TeamId(ids[1 + home_len(dto)]))]
}

pub open spec fn spec_players_by_key(dto: SampleMatchDtoV2, ids: Seq<u128>) -> Seq<(String, PlayerId)> {
    spec_player_keys(dto.teams.home, ids.subrange(1, 1 + home_len(dto)))
        + spec_player_keys(dto.teams.away, ids.subrange(2 + home_len(dto), 2 + home_len(dto) + away_len(dto)))
}

pub open spec fn spec_match_id(dto: SampleMatchDtoV2, ids: Seq<u128>) -> MatchId {
    MatchId(ids[2 + home_len(dto) + away_len(dto)])
}

/// The identifiers left for facts without an id of their own.
pub open spec fn spec_fact_ids(dto: SampleMatchDtoV2, ids: Seq<u128>) -> Seq<u128> {
    ids.subrange(3 + home_len(dto) + away_len(dto), ids.len() as int)
}

/// The configuration and facts of a conversion, or its first failure: a schema
/// version other than the current one, then the configuration (unless overridden),
/// then the facts in order.
pub open spec fn spec_convert_outcome(
    dto: SampleMatchDtoV2,
    configuration_override: Option<MatchConfiguration>,
    ids: Seq<u128>,
) -> Result<(MatchConfiguration, Seq<MatchFact>), DecodeErrorView> {
    if dto.schema_version != SCHEMA_VERSION_CURRENT {
        Err(DecodeErrorView::SchemaVersionMismatch { found: dto.schema_version, expected: SCHEMA_VERSION_CURRENT })
    } else {
        let configuration = match configuration_override {
            Some(c) => Ok(c),
            None => spec_decode_configuration(dto.match_.configuration),
        };
        match configuration {
            Err(e) => Err(e),
            Ok(c) => match spec_decode_facts(
                dto.facts@,
                spec_teams_by_key(dto, ids),
                spec_players_by_key(dto, ids),
                spec_fact_ids(dto, ids),
            ) {
                Err(e) => Err(e),
                Ok(facts) => Ok((c, facts)),
            },
        }
    }
}

/// `res` is the successful conversion of `dto` with these identifiers.
pub open spec fn conversion_matches(
    res: SampleMatchConversionResult,
    dto: SampleMatchDtoV2,
    configuration_override: Option<MatchConfiguration>,
    ids: Seq<u128>,
) -> bool {
    &&& spec_convert_outcome(dto, configuration_override, ids)
        == Ok::<(MatchConfiguration, Seq<MatchFact>), DecodeErrorView>((res.match_.configuration, res.facts@))
    &&& res.home_team == spec_home_team(dto, ids)
    &&& res.away_team == spec_away_team(dto, ids)
    &&& res.players@ == spec_converted_players(dto, ids)
    &&& res.teams_by_key@ == spec_teams_by_key(dto, ids)
    &&& res.players_by_key@ == spec_players_by_key(dto, ids)
    &&& res.match_.id == spec_match_id(dto, ids)
    &&& res.match_.title == dto.match_.display_name
    &&& res.match_.date == dto.match_.date
    &&& res.match_.home_team_id == res.home_team.id
    &&& res.match_.away_team_id == res.away_team.id
    &&& res.match_.roster_selection.benched_player_ids@ == Seq::<PlayerId>::empty()
    &&& res.match_.roster_selection.out_of_roster_player_ids@ == Seq::<PlayerId>::empty()
    &&& res.match_.is_home_on_left
}

/// A successful decode gives one fact per file fact.
pub proof fn lemma_decode_facts_len(
    facts: Seq<SampleFactDtoV2>,
    teams: Seq<(String, TeamId)>,
    players: Seq<(String, PlayerId)>,
    ids: Seq<u128>,
)
    ensures
        spec_decode_facts(facts, teams, players, ids) matches Ok(v) ==> v.len() == facts.len(),
    decreases facts.len(),
{
    if facts.len() > 0 {
        lemma_decode_facts_len(facts.drop_last(), teams, players, ids);
    }
}

pub(crate) proof fn lemma_decode_facts_leading_ids(
    facts: Seq<SampleFactDtoV2>,
    teams: Seq<(String, TeamId)>,
    players: Seq<(String, PlayerId)>,
    a: Seq<u128>,
    b: Seq<u128>,
)
    requires
        missing_fact_ids(facts) <= a.len(),
        missing_fact_ids(facts) <= b.len(),
        a.take(missing_fact_ids(facts) as int) == b.take(missing_fact_ids(facts) as int),
    ensures
        spec_decode_facts(facts, teams, players, a) == spec_decode_facts(facts, teams, players, b),
    decreases facts.len(),
{
    if facts.len() > 0 {
        let prev = facts.drop_last();
        let n = missing_fact_ids(prev);
        assert(missing_fact_ids(facts) == n + if facts.last().fact_id is None { 1nat } else { 0nat });
        assert(a.take(n as int) == a.take(missing_fact_ids(facts) as int).take(n as int));
        assert(b.take(n as int) == b.take(missing_fact_ids(facts) as int).take(n as int));
        lemma_decode_facts_leading_ids(prev, teams, players, a, b);
        if facts.last().fact_id is None {
            assert(a[n as int] == a.take(missing_fact_ids(facts) as int)[n as int]);
            assert(b[n as int] == b.take(missing_fact_ids(facts) as int)[n as int]);
        }
    }
}

/// Decoding the file fact at position `j` on its own, with the identifier it would be
/// handed if it has no id.
pub open spec fn fact_decode_at(
    dfacts: Seq<SampleFactDtoV2>,
    teams: Seq<(String, TeamId)>,
    players: Seq<(String, PlayerId)>,
    ids: Seq<u128>,
    j: int,
) -> Result<MatchFact, DecodeErrorView> {
    spec_decode_fact(dfacts[j], teams, players, ids[missing_fact_ids(dfacts.take(j)) as int])
}

/// Each of the first `n` file facts decodes on its own.
pub open spec fn decodes_each(
    dfacts: Seq<SampleFactDtoV2>,
    teams: Seq<(String, TeamId)>,
    players: Seq<(String, PlayerId)>,
    ids: Seq<u128>,
    n: int,
) -> bool {
    forall|j: int| 0 <= j < n ==> #[trigger] fact_decode_at(dfacts, teams, players, ids, j) is Ok
}

/// The fact at `i` is the first that fails on its own, with error `e`.
pub open spec fn fails_first_at(
    dfacts: Seq<SampleFactDtoV2>,
    teams: Seq<(String, TeamId)>,
    players: Seq<(String, PlayerId)>,
    ids: Seq<u128>,
    i: int,
    e: DecodeErrorView,
) -> bool {
    &&& 0 <= i < dfacts.len()
    &&& fact_decode_at(dfacts, teams, players, ids, i) == Err::<MatchFact, DecodeErrorView>(e)
    &&& decodes_each(dfacts, teams, players, ids, i)
}

proof fn lemma_decode_at_prefix(
    dfacts: Seq<SampleFactDtoV2>,
    teams: Seq<(String, TeamId)>,
    players: Seq<(String, PlayerId)>,
    ids: Seq<u128>,
    j: int,
)
    requires
        0 <= j < dfacts.len(),
    ensures
        fact_decode_at(dfacts.drop_last(), teams, players, ids, j) == fact_decode_at(dfacts, teams, players, ids, j)
            || j == dfacts.len() - 1,
{
    if j < dfacts.len() - 1 {
        assert(dfacts.drop_last().take(j) == dfacts.take(j));
    }
}

proof fn lemma_decodes_each_prefix(
    dfacts: Seq<SampleFactDtoV2>,
    teams: Seq<(String, TeamId)>,
    players: Seq<(String, PlayerId)>,
    ids: Seq<u128>,
    n: int,
)
    requires
        0 <= n < dfacts.len(),
    ensures
        decodes_each(dfacts.drop_last(), teams, players, ids, n) == decodes_each(dfacts, teams, players, ids, n),
{
    let p = dfacts.drop_last();
    if decodes_each(p, teams, players, ids, n) {
        assert forall|j: int| 0 <= j < n implies #[trigger] fact_decode_at(dfacts, teams, players, ids, j) is Ok by {
            lemma_decode_at_prefix(dfacts, teams, players, ids, j);
            assert(fact_decode_at(p, teams, players, ids, j) is Ok);
        }
    }
    if decodes_each(dfacts, teams, players, ids, n) {
        assert forall|j: int| 0 <= j < n implies #[trigger] fact_decode_at(p, teams, players, ids, j) is Ok by {
            lemma_decode_at_prefix(dfacts, teams, players, ids, j);
            assert(fact_decode_at(dfacts, teams, players, ids, j) is Ok);
        }
    }
}

proof fn lemma_decode_ok_iff_each(
    dfacts: Seq<SampleFactDtoV2>,
    teams: Seq<(String, TeamId)>,
    players: Seq<(String, PlayerId)>,
    ids: Seq<u128>,
)
    ensures
        spec_decode_facts(dfacts, teams, players, ids) is Ok <==> decodes_each(dfacts, teams, players, ids, dfacts.len() as int),
    decreases dfacts.len(),
{
    if dfacts.len() > 0 {
        let p = dfacts.drop_last();
        lemma_decode_ok_iff_each(p, teams, players, ids);
        lemma_decodes_each_prefix(dfacts, teams, players, ids, p.len() as int);
        assert(dfacts.take(p.len() as int) == p);
        if decodes_each(dfacts, teams, players, ids, dfacts.len() as int) {
            assert(fact_decode_at(dfacts, teams, players, ids, p.len() as int) is Ok);
        }
    }
}

proof fn lemma_first_failure_gives_error(
    dfacts: Seq<SampleFactDtoV2>,
    teams: Seq<(String, TeamId)>,
    players: Seq<(String, PlayerId)>,
    ids: Seq<u128>,
    i: int,
    e: DecodeErrorView,
)
    requires
        fails_first_at(dfacts, teams, players, ids, i, e),
    ensures
        spec_decode_facts(dfacts, teams, players, ids) == Err::<Seq<MatchFact>, DecodeErrorView>(e),
    decreases dfacts.len(),
{
    let p = dfacts.drop_last();
    assert(dfacts.take(p.len() as int) == p);
    if i < p.len() {
        lemma_decodes_each_prefix(dfacts, teams, players, ids, i);
        lemma_decode_at_prefix(dfacts, teams, players, ids, i);
        lemma_first_failure_gives_error(p, teams, players, ids, i, e);
    } else {
        lemma_decodes_each_prefix(dfacts, teams, players, ids, i);
        lemma_decode_ok_iff_each(p, teams, players, ids);
    }
}

proof fn lemma_error_has_first_failure(
    dfacts: Seq<SampleFactDtoV2>,
    teams: Seq<(String, TeamId)>,
    players: Seq<(String, PlayerId)>,
    ids: Seq<u128>,
    e: DecodeErrorView,
) -> (i: int)
    requires
        spec_decode_facts(dfacts, teams, players, ids) == Err::<Seq<MatchFact>, DecodeErrorView>(e),
    ensures
        fails_first_at(dfacts, teams, players, ids, i, e),
    decreases dfacts.len(),
{
    let p = dfacts.drop_last();
    assert(dfacts.take(p.len() as int) == p);
    if spec_decode_facts(p, teams, players, ids) is Err {
        let i = lemma_error_has_first_failure(p, teams, players, ids, e);
        lemma_decodes_each_prefix(dfacts, teams, players, ids, i);
        lemma_decode_at_prefix(dfacts, teams, players, ids, i);
        i
    } else {
        lemma_decode_ok_iff_each(p, teams, players, ids);
        lemma_decodes_each_prefix(dfacts, teams, players, ids, p.len() as int);
        p.len() as int
    }
}

/// Decoding the facts succeeds exactly when every fact decodes on its own, and fails
/// exactly with the error of the first fact that fails on its own.
pub proof fn lemma_decode_facts_first_failure(
    dfacts: Seq<SampleFactDtoV2>,
    teams: Seq<(String, TeamId)>,
    players: Seq<(String, PlayerId)>,
    ids: Seq<u128>,
)
    ensures
        spec_decode_facts(dfacts, teams, players, ids) is Ok <==> decodes_each(dfacts, teams, players, ids, dfacts.len() as int),
        forall|e: DecodeErrorView|
            spec_decode_facts(dfacts, teams, players, ids) == Err::<Seq<MatchFact>, DecodeErrorView>(e) <==> exists|i: int|
                #[trigger] fails_first_at(dfacts, teams, players, ids, i, e),
{
    lemma_decode_ok_iff_each(dfacts, teams, players, ids);
    assert forall|e: DecodeErrorView|
        spec_decode_facts(dfacts, teams, players, ids) == Err::<Seq<MatchFact>, DecodeErrorView>(e) <==> exists|i: int|
            #[trigger] fails_first_at(dfacts, teams, players, ids, i, e) by {
        if spec_decode_facts(dfacts, teams, players, ids) == Err::<Seq<MatchFact>, DecodeErrorView>(e) {
            let i = lemma_error_has_first_failure(dfacts, teams, players, ids, e);
            assert(fails_first_at(dfacts, teams, players, ids, i, e));
        }
        if exists|i: int| #[trigger] fails_first_at(dfacts, teams, players, ids, i, e) {
            let i = choose|i: int| #[trigger] fails_first_at(dfacts, teams, players, ids, i, e);
            lemma_first_failure_gives_error(dfacts, teams, players, ids, i, e);
        }
    }
}

/// The identifiers given to the decoded facts that had none in the file, in file order.
pub open spec fn fresh_fact_ids(dfacts: Seq<SampleFactDtoV2>, fs: Seq<MatchFact>) -> Seq<u128>
    decreases dfacts.len(),
{
    if dfacts.len() == 0 {
        Seq::empty()
    } else {
        fresh_fact_ids(dfacts.drop_last(), fs.drop_last()) + if dfacts.last().fact_id is None {
            seq![fs.last().id.0]
        } else {
            Seq::<u128>::empty()
        }
    }
}

/// A decoded play keeps what the file says of it: its title and note are the file's
/// title and note, and its team, player and related player are what the file's keys
/// name in the key tables (absent when the file gives no key).
pub proof fn lemma_decoded_play_keeps_file_fields(
    dto: SamplePlayFactDtoV2,
    teams: Seq<(String, TeamId)>,
    players: Seq<(String, PlayerId)>,
)
    ensures
        spec_decode_play_fact(dto, teams, players) matches Ok(p) ==> {
            &&& p.title == dto.title
            &&& p.note == dto.note
            &&& (dto.team_key matches Some(k) ==> p.team_id == key_lookup(teams, k@))
            &&& (dto.team_key is None ==> p.team_id is None)
            &&& (dto.player_key matches Some(k) ==> p.player_id == key_lookup(players, k@))
            &&& (dto.player_key is None ==> p.player_id is None)
            &&& (dto.related_player_key matches Some(k) ==> p.related_player_id == key_lookup(players, k@))
            &&& (dto.related_player_key is None ==> p.related_player_id is None)
        },
{
}

/// The play text a file gives for a fact is the play text of the decoded fact: a fact
/// of kind `play` decodes to a play whose title and note are those of the file's play.
pub open spec fn play_text_kept(d: SampleFactDtoV2, f: MatchFact) -> bool {
    d.payload.kind@ == "play"@ ==> (d.payload.play matches Some(dp) && f.payload matches MatchFactPayload::Play(p)
        && p.title == dp.title && p.note == dp.note)
}

/// A decoded fact keeps the file's play title and note, its recorded time, and its own
/// id when it has one.
pub proof fn lemma_decoded_fact_keeps_file_fields(
    dto: SampleFactDtoV2,
    teams: Seq<(String, TeamId)>,
    players: Seq<(String, PlayerId)>,
    fallback_id: u128,
)
    ensures
        spec_decode_fact(dto, teams, players, fallback_id) matches Ok(f) ==> {
            &&& play_text_kept(dto, f)
            &&& f.recorded_at == dto.recorded_at
            &&& (dto.fact_id matches Some(id) ==> f.id == FactId(id))
        },
{
    if dto.payload.kind@ == "play"@ {
        if let Some(dp) = dto.payload.play {
            lemma_decoded_play_keeps_file_fields(dp, teams, players);
        }
    }
}

/// Decoding keeps each fact's position, recorded time and own id, and gives the facts
/// without an id exactly the first identifiers, in file order, one each.
pub proof fn lemma_decoded_facts_shape(
    dfacts: Seq<SampleFactDtoV2>,
    teams: Seq<(String, TeamId)>,
    players: Seq<(String, PlayerId)>,
    ids: Seq<u128>,
)
    requires
        missing_fact_ids(dfacts) <= ids.len(),
        spec_decode_facts(dfacts, teams, players, ids) is Ok,
    ensures
        ({
            let fs = spec_decode_facts(dfacts, teams, players, ids)->Ok_0;
            &&& fs.len() == dfacts.len()
            &&& forall|i: int| 0 <= i < dfacts.len() ==> {
                &&& (#[trigger] fs[i]).recorded_at == dfacts[i].recorded_at
                &&& (dfacts[i].fact_id matches Some(id) ==> fs[i].id == FactId(id))
                &&& play_text_kept(dfacts[i], fs[i])
            }
            &&& fresh_fact_ids(dfacts, fs) == ids.take(missing_fact_ids(dfacts) as int)
        }),
    decreases dfacts.len(),
{
    let fs = spec_decode_facts(dfacts, teams, players, ids)->Ok_0;
    if dfacts.len() == 0 {
        assert(ids.take(0) == Seq::<u128>::empty());
    } else {
        let p = dfacts.drop_last();
        let n = missing_fact_ids(p);
        assert(missing_fact_ids(dfacts) == n + if dfacts.last().fact_id is None { 1nat } else { 0nat });
        lemma_decoded_facts_shape(p, teams, players, ids);
        let prefix = spec_decode_facts(p, teams, players, ids)->Ok_0;
        assert(fs == prefix.push(fs.last()));
        assert(fs.drop_last() == prefix);
        lemma_decoded_fact_keeps_file_fields(dfacts.last(), teams, players, ids[n as int]);
        assert forall|i: int| 0 <= i < dfacts.len() implies {
            &&& (#[trigger] fs[i]).recorded_at == dfacts[i].recorded_at
            &&& (dfacts[i].fact_id matches Some(id) ==> fs[i].id == FactId(id))
            &&& play_text_kept(dfacts[i], fs[i])
        } by {
            if i < dfacts.len() - 1 {
                assert(fs[i] == prefix[i]);
                assert(dfacts[i] == p[i]);
            } else {
                assert(dfacts[i] == dfacts.last());
            }
        }
        if dfacts.last().fact_id is None {
            assert(ids.take(n as int).push(ids[n as int]) == ids.take((n + 1) as int));
        }
    }
}

/// The identifiers a conversion gives out, in the order it gives them: the home team,
/// the home players, the away team, the away players, the match, then the facts that
/// carry no id, in file order.
pub open spec fn handed_out_ids(dto: SampleMatchDtoV2, ids: Seq<u128>, facts: Seq<MatchFact>) -> Seq<u128> {
    let players = spec_converted_players(dto, ids);
    seq![spec_home_team(dto, ids).id.0] + players.take(home_len(dto)).map_values(|p: Player| p.id.0)
        + seq![spec_away_team(dto, ids).id.0] + players.skip(home_len(dto)).map_values(|p: Player| p.id.0)
        + seq![spec_match_id(dto, ids).0] + fresh_fact_ids(dto.facts@, facts)
}

/// A successful conversion gives out exactly the first [`spec_required_id_count`]
/// identifiers, each once, in the documented order; it keeps one fact per file fact
/// with its recorded time and own id, and takes the configuration override when there
/// is one.
pub proof fn lemma_convert_hands_out_required_ids(
    dto: SampleMatchDtoV2,
    configuration_override: Option<MatchConfiguration>,
    ids: Seq<u128>,
)
    requires
        spec_required_id_count(dto) <= ids.len(),
        spec_convert_outcome(dto, configuration_override, ids) is Ok,
    ensures
        ({
            let (c, facts) = spec_convert_outcome(dto, configuration_override, ids)->Ok_0;
            &&& handed_out_ids(dto, ids, facts) == ids.take(spec_required_id_count(dto))
            &&& facts.len() == dto.facts@.len()
            &&& forall|i: int| 0 <= i < facts.len() ==> {
                &&& (#[trigger] facts[i]).recorded_at == dto.facts@[i].recorded_at
                &&& (dto.facts@[i].fact_id matches Some(id) ==> facts[i].id == FactId(id))
                &&& play_text_kept(dto.facts@[i], facts[i])
            }
            &&& (configuration_override matches Some(o) ==> c == o)
        }),
{
    let h = home_len(dto);
    let w = away_len(dto);
    let fids = spec_fact_ids(dto, ids);
    let n = spec_required_id_count(dto);
    lemma_decoded_facts_shape(dto.facts@, spec_teams_by_key(dto, ids), spec_players_by_key(dto, ids), fids);
    let (c, facts) = spec_convert_outcome(dto, configuration_override, ids)->Ok_0;
    let players = spec_converted_players(dto, ids);
    assert(players.take(h).map_values(|p: Player| p.id.0) == ids.subrange(1, 1 + h));
    assert(players.skip(h).map_values(|p: Player| p.id.0) == ids.subrange(2 + h, 2 + h + w));
    assert(fids.take(missing_fact_ids(dto.facts@) as int) == ids.subrange(3 + h + w, n));
    assert(handed_out_ids(dto, ids, facts) == ids.take(n));
}

/// A conversion consumes exactly the first [`spec_required_id_count`] identifiers:
/// identifiers past them change nothing of the outcome.
pub proof fn lemma_convert_consumes_required_ids(
    dto: SampleMatchDtoV2,
    configuration_override: Option<MatchConfiguration>,
    a: Seq<u128>,
    b: Seq<u128>,
)
    requires
        spec_required_id_count(dto) <= a.len(),
        spec_required_id_count(dto) <= b.len(),
        a.take(spec_required_id_count(dto)) == b.take(spec_required_id_count(dto)),
    ensures
        spec_convert_outcome(dto, configuration_override, a) == spec_convert_outcome(dto, configuration_override, b),
        spec_home_team(dto, a) == spec_home_team(dto, b),
        spec_away_team(dto, a) == spec_away_team(dto, b),
        spec_converted_players(dto, a) == spec_converted_players(dto, b),
        spec_teams_by_key(dto, a) == spec_teams_by_key(dto, b),
        spec_players_by_key(dto, a) == spec_players_by_key(dto, b),
        spec_match_id(dto, a) == spec_match_id(dto, b),
{
    let n = spec_required_id_count(dto);
    let h = home_len(dto);
    let w = away_len(dto);
    assert forall|k: int| 0 <= k < n implies a[k] == b[k] by {
        assert(a[k] == a.take(n)[k]);
        assert(b[k] == b.take(n)[k]);
    }
    assert(a.subrange(1, 1 + h) == b.subrange(1, 1 + h));
    assert(a.subrange(2 + h, 2 + h + w) == b.subrange(2 + h, 2 + h + w));
    let fa = spec_fact_ids(dto, a);
    let fb = spec_fact_ids(dto, b);
    let m = missing_fact_ids(dto.facts@) as int;
    assert(fa.take(m) == fb.take(m)) by {
        assert forall|k: int| 0 <= k < m implies fa.take(m)[k] == fb.take(m)[k] by {
            assert(fa[k] == a[3 + h + w + k]);
            assert(fb[k] == b[3 + h + w + k]);
        }
    }
    lemma_decode_facts_leading_ids(dto.facts@, spec_teams_by_key(dto, a), spec_players_by_key(dto, a), fa, fb);
}

/// The number of identifiers that [`convert`] consumes: home team and players, away
/// team and players, the match, and each fact without an id of its own.
pub fn required_id_count(dto: &SampleMatchDtoV2) -> (r: usize)
    requires
        spec_required_id_count(*dto) <= usize::MAX,
    ensures
        r == spec_required_id_count(*dto),
{
    let mut missing: usize = 0;
    let mut i: usize = 0;
    while i < dto.facts.len()
        invariant
            i <= dto.facts@.len(),
            missing == missing_fact_ids(dto.facts@.take(i as int)),
            missing_fact_ids(dto.facts@.take(i as int)) <= i,
            spec_required_id_count(*dto) <= usize::MAX,
        decreases dto.facts@.len() - i,
    {
        proof {
            assert(dto.facts@.take(i + 1).drop_last() == dto.facts@.take(i as int));
            lemma_missing_prefix(dto.facts@, i + 1);
            assert(dto.facts@.take(dto.facts@.len() as int) == dto.facts@);
        }
        if dto.facts[i].fact_id.is_none() {
            missing = missing + 1;
        }
        i += 1;
    }
    proof {
        assert(dto.facts@.take(dto.facts@.len() as int) == dto.facts@);
    }
    (1 + dto.teams.home.players.len()) + (1 + dto.teams.away.players.len()) + 1 + missing
}

fn make_team(dto: &SampleTeamDtoV2, ids: &[u128], first: usize) -> (r: (Team, Vec<Player>, Vec<(String, PlayerId)>))
    requires
        first + 1 + dto.players@.len() <= ids@.len(),
    ensures
        r.0 == (Team { id: TeamId(ids@[first as int]), name: dto.name }),
        r.1@ == spec_players_of(*dto, TeamId(ids@[first as int]), ids@.subrange(first + 1, first + 1 + dto.players@.len())),
        r.2@ == spec_player_keys(*dto, ids@.subrange(first + 1, first + 1 + dto.players@.len())),
{
    let n_ids = ids.len();
    let team = Team { id: TeamId(ids[first]), name: dto.name.clone() };
    let ghost sub = ids@.subrange(first + 1, first + 1 + dto.players@.len());
    let mut players: Vec<Player> = Vec::new();
    let mut keys: Vec<(String, PlayerId)> = Vec::new();
    let mut k: usize = 0;
    while k < dto.players.len()
        invariant
            k <= dto.players@.len(),
            first + 1 + dto.players@.len() <= ids@.len(),
            ids@.len() == n_ids,
            sub == ids@.subrange(first + 1, first + 1 + dto.players@.len()),
            team.id == TeamId(ids@[first as int]),
            players@ == spec_players_of(*dto, team.id, sub).take(k as int),
            keys@ == spec_player_keys(*dto, sub).take(k as int),
        decreases dto.players@.len() - k,
    {
        let p = &dto.players[k];
        let id = PlayerId(ids[first + 1 + k]);
        players.push(Player {
            id,
            team_id: team.id,
            name: p.name.clone(),
            jersey_number: p.jersey_number,
            photo: None,
        });
        keys.push((p.key.clone(), id));
        proof {
            assert(spec_players_of(*dto, team.id, sub).take(k + 1) == spec_players_of(*dto, team.id, sub).take(k as int).push(spec_players_of(*dto, team.id, sub)[k as int]));
            assert(spec_player_keys(*dto, sub).take(k + 1) == spec_player_keys(*dto, sub).take(k as int).push(spec_player_keys(*dto, sub)[k as int]));
        }
        k += 1;
    }
    proof {
        assert(spec_players_of(*dto, team.id, sub).take(dto.players@.len() as int) == spec_players_of(*dto, team.id, sub));
        assert(spec_player_keys(*dto, sub).take(dto.players@.len() as int) == spec_player_keys(*dto, sub));
    }
    (team, players, keys)
}

/// Converts a file into domain values, taking new identifiers from `new_ids` in the
/// order given at the top of this module.
///
/// `_slug` names the file for the caller's diagnostics only.  A given
/// `configuration_override` replaces the file's configuration (which is then not
/// decoded).
pub fn convert(
    _slug: &str,
    dto: &SampleMatchDtoV2,
    configuration_override: Option<MatchConfiguration>,
    new_ids: &[u128],
) -> (r: Result<SampleMatchConversionResult, SampleMatchDecodeErrorV2>)
    requires
        spec_required_id_count(*dto) <= new_ids@.len(),
    ensures
        match r {
            Err(e) => spec_convert_outcome(*dto, configuration_override, new_ids@) == Err::<(MatchConfiguration, Seq<MatchFact>), DecodeErrorView>(e@),
            Ok(res) => conversion_matches(res, *dto, configuration_override, new_ids@),
        },
{
    if dto.schema_version != SCHEMA_VERSION_CURRENT {
        return Err(SampleMatchDecodeErrorV2::SchemaVersionMismatch {
            found: dto.schema_version,
            expected: SCHEMA_VERSION_CURRENT,
        });
    }
    let hp = dto.teams.home.players.len();
    let ap = dto.teams.away.players.len();
    let n_ids = new_ids.len();
    proof {
        lemma_count_where_bound(dto.facts@, |f: SampleFactDtoV2| f.fact_id is None);
    }
    let (home_team, home_players, home_keys) = make_team(&dto.teams.home, new_ids, 0);
    let (away_team, away_players, away_keys) = make_team(&dto.teams.away, new_ids, 1 + hp);

    let mut teams_by_key: Vec<(String, TeamId)> = Vec::new();
    teams_by_key.push((dto.teams.home.key.clone(), home_team.id));
    teams_by_key.push((dto.teams.away.key.clone(), away_team.id));

    let mut players_by_key = home_keys;
    let mut away_keys = away_keys;
    players_by_key.append(&mut away_keys);
    let mut players = home_players;
    let mut away_players = away_players;
    players.append(&mut away_players);

    let configuration = match configuration_override {
        Some(c) => c,
        None => match decode_configuration(&dto.match_.configuration) {
            Ok(c) => c,
            Err(e) => return Err(e),
        },
    };

    let match_ = Match {
        id: MatchId(new_ids[2 + hp + ap]),
        title: duplicate_opt_string(&dto.match_.display_name),
        date: dto.match_.date,
        home_team_id: home_team.id,
        away_team_id: away_team.id,
        configuration,
        roster_selection: RosterSelection::empty(),
        is_home_on_left: true,
    };

    let fact_ids = vstd::slice::slice_subrange(new_ids, 3 + hp + ap, new_ids.len());
    proof {
        assert(teams_by_key@ == spec_teams_by_key(*dto, new_ids@));
        assert(fact_ids@ == spec_fact_ids(*dto, new_ids@));
    }
    let facts = match decode_facts(dto.facts.as_slice(), teams_by_key.as_slice(), players_by_key.as_slice(), fact_ids) {
        Ok(f) => f,
        Err(e) => return Err(e),
    };
    Ok(SampleMatchConversionResult {
        match_,
        home_team,
        away_team,
        players,
        facts,
        teams_by_key,
        players_by_key,
    })
}

} // verus!
