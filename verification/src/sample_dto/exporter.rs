//! Domain values → sample DTO (the inverse of the converter).
//!
//! Export never fails and validates nothing: a team or player id that none of the
//! given teams or players carries is left out of the fact (its key is absent).  Player
//! keys are the upper-case hyphenated text of the player id; facts are ordered by
//! `recorded_at`, facts recorded at the same instant keeping their input order.

use vstd::prelude::*;

use crate::clock::FactAnchor;
use crate::configuration::{MatchConfiguration, PhaseKind, VideoProvider, VideoSource};
use crate::entities::{duplicate_opt_string, Match, Player, Team};
use crate::facts::{ControlFact, MatchFact, MatchFactPayload, PlayEventKind, PlayFact, PossessionFact, StoppageKind};
use crate::ids::{lemma_uuid_text_injective, uuid_lower_text, uuid_text, uuid_upper_text, PlayerId, TeamId};
use crate::seqs::{first_index, lemma_first_index_is};
use crate::sorting::{sorted_seq, stable_arrangement, stable_sort, KeyOrder};
use crate::text::{chars_of, collapse_separators, collapsed, lemma_collapsed_chars, lowercase_text, push_text, string_of, to_lowercase};

use super::dtos::{
    SampleControlFactDtoV2, SampleFactAnchorDtoV2, SampleFactDtoV2, SampleFactPayloadDtoV2,
    SampleMatchClockDtoV2, SampleMatchConfigurationDtoV2, SampleMatchDtoV2, SampleMatchHeaderV2,
    SamplePhaseStartPayloadDtoV2, SamplePlayFactDtoV2, SamplePlayerDtoV2, SamplePossessionFactDtoV2, SampleStoppagePayloadDtoV2,
    SampleTeamDtoV2, SampleTeamsDtoV2, SampleTimerConfigurationDtoV2, SampleVideoClockDtoV2,
    SampleVideoConfigurationDtoV2, SampleVideoSourceDtoV2, SCHEMA_VERSION_CURRENT,
};
use super::converter::{
    away_len, home_len, spec_convert_outcome, spec_converted_players, spec_fact_ids, spec_home_team, spec_away_team,
    spec_match_id, spec_player_keys, spec_players_by_key, spec_required_id_count, spec_teams_by_key,
    key_lookup, spec_decode_configuration, spec_decode_control_fact, spec_decode_end_anchor,
    spec_decode_fact, spec_decode_payload, spec_decode_play_fact, spec_decode_possession_fact, spec_decode_start_anchor, DecodeErrorView,
};
use super::raw::{
    lemma_raw_round_trip,
    phase_kind_raw, play_event_kind_raw, spec_phase_kind_raw, spec_play_event_kind_raw,
    spec_stoppage_kind_raw, stoppage_kind_raw,
};

verus! {

/// An optional text taken by its characters.
pub open spec fn opt_text(o: Option<String>) -> Option<Seq<char>> {
    match o {
        Some(s) => Some(s@),
        None => None,
    }
}

// ── Slugs and keys ──

/// A character kept in a slug: ASCII lower-case letters and digits; anything else
/// becomes `-`.
pub open spec fn slug_char(c: char) -> char {
    if ('a' <= c && c <= 'z') || ('0' <= c && c <= '9') {
        c
    } else {
        '-'
    }
}

/// The ASCII slug of a name: lower-cased, every character other than `a-z0-9` turned
/// into `-`, runs of `-` collapsed and trimmed.
pub open spec fn spec_ascii_slug(raw: Seq<char>) -> Seq<char> {
    collapsed(lowercase_text(raw).map_values(|c: char| slug_char(c)), '-')
}

/// The ASCII slug of a name (for file names).
pub fn ascii_slug(raw: &str) -> (r: String)
    ensures
        r@ == spec_ascii_slug(raw@),
{
    let lowered = to_lowercase(raw);
    let cs = chars_of(lowered.as_str());
    let mut mapped: Vec<char> = Vec::new();
    let mut i: usize = 0;
    while i < cs.len()
        invariant
            i <= cs.len(),
            mapped@ == cs@.take(i as int).map_values(|c: char| slug_char(c)),
        decreases cs.len() - i,
    {
        let c = cs[i];
        let m = if ('a' <= c && c <= 'z') || ('0' <= c && c <= '9') {
            c
        } else {
            '-'
        };
        mapped.push(m);
        proof {
            assert(cs@.take(i + 1).map_values(|c: char| slug_char(c))
                == cs@.take(i as int).map_values(|c: char| slug_char(c)).push(slug_char(c)));
        }
        i += 1;
    }
    proof {
        assert(cs@.take(cs@.len() as int) == cs@);
    }
    let out = collapse_separators(mapped.as_slice(), '-');
    string_of(out.as_slice())
}

/// A slug is safe for file names: only ASCII lower-case letters, digits and `-`.
pub proof fn lemma_ascii_slug_charset(raw: Seq<char>)
    ensures
        forall|j: int|
            0 <= j < spec_ascii_slug(raw).len() ==> {
                let c = #[trigger] spec_ascii_slug(raw)[j];
                ('a' <= c && c <= 'z') || ('0' <= c && c <= '9') || c == '-'
            },
{
    let m = lowercase_text(raw).map_values(|c: char| slug_char(c));
    lemma_collapsed_chars(m, '-');
    assert forall|j: int| 0 <= j < spec_ascii_slug(raw).len() implies {
        let c = #[trigger] spec_ascii_slug(raw)[j];
        ('a' <= c && c <= 'z') || ('0' <= c && c <= '9') || c == '-'
    } by {
        let c = spec_ascii_slug(raw)[j];
        if c != '-' {
            let i = choose|i: int| 0 <= i < m.len() && m[i] == c;
            assert(m[i] == slug_char(lowercase_text(raw)[i]));
        }
    }
}

/// The key of a player in an exported file: the upper-case text of its id.
pub fn uuid_key(id: PlayerId) -> (r: String)
    ensures
        r@ == uuid_text(id.0, true),
{
    uuid_upper_text(id.0)
}

/// The key of a team in the facts of an export: `away` for the away team's id, else
/// `home` for the home team's id, else none.
pub open spec fn team_key_of(home: TeamId, away: TeamId, id: TeamId) -> Option<Seq<char>> {
    if id == away {
        Some("away"@)
    } else if id == home {
        Some("home"@)
    } else {
        None
    }
}

/// The key of a player in the facts of an export: its id's text when one of the given
/// players carries the id, else none.
pub open spec fn player_key_of(players: Seq<Player>, id: PlayerId) -> Option<Seq<char>> {
    if exists|k: int| 0 <= k < players.len() && players[k].id == id {
        Some(uuid_text(id.0, true))
    } else {
        None
    }
}

// ── Encoded forms ──

pub open spec fn video_source_encoded(d: SampleVideoSourceDtoV2, s: VideoSource) -> bool {
    &&& d.provider@ == (match s.provider {
        VideoProvider::Youtube => "youtube"@,
        VideoProvider::Local => "local"@,
    })
    &&& d.external_id == s.external_id
}

pub open spec fn configuration_encoded(d: SampleMatchConfigurationDtoV2, c: MatchConfiguration) -> bool {
    match c {
        MatchConfiguration::Timer { phase_duration_seconds } => {
            &&& d.kind@ == "timer"@
            &&& d.timer == Some(SampleTimerConfigurationDtoV2 { phase_duration_seconds })
            &&& d.video is None
            &&& d.video_highlight is None
        },
        MatchConfiguration::Video(s) => {
            &&& d.kind@ == "video"@
            &&& d.timer is None
            &&& d.video matches Some(v) && video_source_encoded(v.source, s)
            &&& d.video_highlight is None
        },
        MatchConfiguration::VideoHighlight(s) => {
            &&& d.kind@ == "videoHighlight"@
            &&& d.timer is None
            &&& d.video is None
            &&& d.video_highlight matches Some(v) && video_source_encoded(v.source, s)
        },
    }
}

/// The start anchor fills `kind` and the clocks; the end anchor, whatever its kind,
/// is flattened into the two `end_*` readings.
pub open spec fn anchor_encoded(d: SampleFactAnchorDtoV2, a: FactAnchor, end: Option<FactAnchor>) -> bool {
    &&& d.kind@ == (match a {
        FactAnchor::MatchClock(_) => "matchClock"@,
        FactAnchor::VideoClock(_) => "videoClock"@,
        FactAnchor::Both { .. } => "both"@,
    })
    &&& d.match_clock == (match a.spec_match_clock() {
        Some(c) => Some(SampleMatchClockDtoV2 { elapsed_seconds: c.elapsed_seconds }),
        None => None,
    })
    &&& d.video_clock == (match a.spec_video_clock() {
        Some(c) => Some(SampleVideoClockDtoV2 { elapsed_seconds: c.elapsed_seconds }),
        None => None,
    })
    &&& d.end_match_elapsed_seconds == (match end {
        Some(e) => match e.spec_match_clock() {
            Some(c) => Some(c.elapsed_seconds),
            None => None,
        },
        None => None,
    })
    &&& d.end_video_elapsed_seconds == (match end {
        Some(e) => match e.spec_video_clock() {
            Some(c) => Some(c.elapsed_seconds),
            None => None,
        },
        None => None,
    })
}

pub open spec fn play_encoded(d: SamplePlayFactDtoV2, p: PlayFact, home: TeamId, away: TeamId, players: Seq<Player>) -> bool {
    &&& d.kind@ == spec_play_event_kind_raw(p.kind)
    &&& opt_text(d.team_key) == (match p.team_id {
        Some(id) => team_key_of(home, away, id),
        None => None,
    })
    &&& opt_text(d.player_key) == (match p.player_id {
        Some(id) => player_key_of(players, id),
        None => None,
    })
    &&& opt_text(d.related_player_key) == (match p.related_player_id {
        Some(id) => player_key_of(players, id),
        None => None,
    })
    &&& anchor_encoded(d.anchor, p.anchor, None)
    &&& d.title == p.title
    &&& d.note == p.note
}

pub open spec fn control_encoded(d: SampleControlFactDtoV2, c: ControlFact) -> bool {
    match c {
        ControlFact::PhaseStart(p) => {
            &&& d.kind@ == "phaseStart"@
            &&& d.phase_start matches Some(ps) && ps.kind@ == spec_phase_kind_raw(p.kind)
            &&& d.stoppage is None
            &&& anchor_encoded(d.anchor, p.start_anchor, Some(p.end_anchor))
        },
        ControlFact::Stoppage(p) => {
            &&& d.kind@ == "stoppage"@
            &&& d.phase_start is None
            &&& d.stoppage matches Some(st) && st.stoppage_kind@ == spec_stoppage_kind_raw(p.kind) && st.note == p.note
            &&& anchor_encoded(d.anchor, p.start_anchor, p.end_anchor)
        },
    }
}

/// The key a possession's team is written under: `home` or `away`, else the upper-case
/// text of its id (a key no file's team carries).
pub open spec fn possession_team_key(home: TeamId, away: TeamId, id: TeamId) -> Seq<char> {
    match team_key_of(home, away, id) {
        Some(k) => k,
        None => uuid_text(id.0, true),
    }
}

/// A possession is written as its team and its start; an end it carries is not written
/// (ranges belong to phases and stoppages only).
pub open spec fn possession_encoded(d: SamplePossessionFactDtoV2, p: PossessionFact, home: TeamId, away: TeamId) -> bool {
    &&& d.team_key@ == possession_team_key(home, away, p.team_id)
    &&& anchor_encoded(d.anchor, p.anchor, None)
}

pub open spec fn payload_encoded(
    d: SampleFactPayloadDtoV2,
    p: MatchFactPayload,
    home: TeamId,
    away: TeamId,
    players: Seq<Player>,
) -> bool {
    match p {
        MatchFactPayload::Play(play) => {
            &&& d.kind@ == "play"@
            &&& d.play matches Some(dp) && play_encoded(dp, play, home, away, players)
            &&& d.control is None
            &&& d.possession is None
        },
        MatchFactPayload::Control(control) => {
            &&& d.kind@ == "control"@
            &&& d.play is None
            &&& d.control matches Some(dc) && control_encoded(dc, control)
            &&& d.possession is None
        },
        MatchFactPayload::Possession(possession) => {
            &&& d.kind@ == "possession"@
            &&& d.play is None
            &&& d.control is None
            &&& d.possession matches Some(dp) && possession_encoded(dp, possession, home, away)
        },
    }
}

pub open spec fn team_encoded(d: SampleTeamDtoV2, key: Seq<char>, team: Team, players: Seq<Player>) -> bool {
    &&& d.key@ == key
    &&& d.name == team.name
    &&& d.players@.len() == players.len()
    &&& forall|k: int|
        0 <= k < players.len() ==> {
            &&& (#[trigger] d.players@[k]).key@ == uuid_text(players[k].id.0, true)
            &&& d.players@[k].name == players[k].name
            &&& d.players@[k].jersey_number == players[k].jersey_number
        }
}

// ── Encoders ──

fn encode_video_source(source: &VideoSource) -> (r: SampleVideoSourceDtoV2)
    ensures
        video_source_encoded(r, *source),
{
    SampleVideoSourceDtoV2 {
        provider: match source.provider {
            VideoProvider::Youtube => "youtube".to_owned(),
            VideoProvider::Local => "local".to_owned(),
        },
        external_id: source.external_id.clone(),
    }
}

fn encode_configuration(configuration: &MatchConfiguration) -> (r: SampleMatchConfigurationDtoV2)
    ensures
        configuration_encoded(r, *configuration),
{
    match configuration {
        MatchConfiguration::Timer { phase_duration_seconds } => SampleMatchConfigurationDtoV2 {
            kind: "timer".to_owned(),
            timer: Some(SampleTimerConfigurationDtoV2 { phase_duration_seconds: *phase_duration_seconds }),
            video: None,
            video_highlight: None,
        },
        MatchConfiguration::Video(source) => SampleMatchConfigurationDtoV2 {
            kind: "video".to_owned(),
            timer: None,
            video: Some(SampleVideoConfigurationDtoV2 { source: encode_video_source(source) }),
            video_highlight: None,
        },
        MatchConfiguration::VideoHighlight(source) => SampleMatchConfigurationDtoV2 {
            kind: "videoHighlight".to_owned(),
            timer: None,
            video: None,
            video_highlight: Some(SampleVideoConfigurationDtoV2 { source: encode_video_source(source) }),
        },
    }
}

fn encode_anchor(anchor: FactAnchor, end_anchor: Option<FactAnchor>) -> (r: SampleFactAnchorDtoV2)
    ensures
        anchor_encoded(r, anchor, end_anchor),
{
    let kind = match anchor {
        FactAnchor::MatchClock(_) => "matchClock".to_owned(),
        FactAnchor::VideoClock(_) => "videoClock".to_owned(),
        FactAnchor::Both { .. } => "both".to_owned(),
    };
    let match_clock = match anchor.match_clock() {
        Some(c) => Some(SampleMatchClockDtoV2 { elapsed_seconds: c.elapsed_seconds }),
        None => None,
    };
    let video_clock = match anchor.video_clock() {
        Some(c) => Some(SampleVideoClockDtoV2 { elapsed_seconds: c.elapsed_seconds }),
        None => None,
    };
    let (end_match, end_video) = match end_anchor {
        None => (None, None),
        Some(e) => (e.match_elapsed_seconds(), e.video_elapsed_seconds()),
    };
    SampleFactAnchorDtoV2 {
        kind,
        match_clock,
        video_clock,
        end_match_elapsed_seconds: end_match,
        end_video_elapsed_seconds: end_video,
    }
}

fn team_key(home: TeamId, away: TeamId, id: TeamId) -> (r: Option<String>)
    ensures
        opt_text(r) == team_key_of(home, away, id),
{
    if id == away {
        Some("away".to_owned())
    } else if id == home {
        Some("home".to_owned())
    } else {
        None
    }
}

fn player_key(players: &[Player], id: PlayerId) -> (r: Option<String>)
    ensures
        opt_text(r) == player_key_of(players@, id),
{
    let mut k: usize = 0;
    while k < players.len()
        invariant
            k <= players.len(),
            forall|j: int| 0 <= j < k ==> players@[j].id != id,
        decreases players.len() - k,
    {
        if players[k].id == id {
            return Some(uuid_upper_text(id.0));
        }
        k += 1;
    }
    None
}

fn player_key_opt(players: &[Player], id: Option<PlayerId>) -> (r: Option<String>)
    ensures
        opt_text(r) == (match id {
            Some(i) => player_key_of(players@, i),
            None => None,
        }),
{
    match id {
        Some(i) => player_key(players, i),
        None => None,
    }
}

fn encode_play(play: &PlayFact, home: TeamId, away: TeamId, players: &[Player]) -> (r: SamplePlayFactDtoV2)
    ensures
        play_encoded(r, *play, home, away, players@),
{
    SamplePlayFactDtoV2 {
        kind: play_event_kind_raw(play.kind).to_owned(),
        team_key: match play.team_id {
            Some(id) => team_key(home, away, id),
            None => None,
        },
        player_key: player_key_opt(players, play.player_id),
        related_player_key: player_key_opt(players, play.related_player_id),
        anchor: encode_anchor(play.anchor, None),
        title: duplicate_opt_string(&play.title),
        note: duplicate_opt_string(&play.note),
    }
}

fn encode_control(control: &ControlFact) -> (r: SampleControlFactDtoV2)
    ensures
        control_encoded(r, *control),
{
    match control {
        ControlFact::PhaseStart(p) => SampleControlFactDtoV2 {
            kind: "phaseStart".to_owned(),
            phase_start: Some(SamplePhaseStartPayloadDtoV2 { kind: phase_kind_raw(p.kind).to_owned() }),
            stoppage: None,
            anchor: encode_anchor(p.start_anchor, Some(p.end_anchor)),
        },
        ControlFact::Stoppage(p) => SampleControlFactDtoV2 {
            kind: "stoppage".to_owned(),
            phase_start: None,
            stoppage: Some(SampleStoppagePayloadDtoV2 {
                stoppage_kind: stoppage_kind_raw(p.kind).to_owned(),
                note: duplicate_opt_string(&p.note),
            }),
            anchor: encode_anchor(p.start_anchor, p.end_anchor),
        },
    }
}

fn encode_possession(p: &PossessionFact, home: TeamId, away: TeamId) -> (r: SamplePossessionFactDtoV2)
    ensures
        possession_encoded(r, *p, home, away),
{
    let team_key = if p.team_id == away {
        "away".to_owned()
    } else if p.team_id == home {
        "home".to_owned()
    } else {
        uuid_upper_text(p.team_id.0)
    };
    SamplePossessionFactDtoV2 { team_key, anchor: encode_anchor(p.anchor, None) }
}

fn encode_payload(payload: &MatchFactPayload, home: TeamId, away: TeamId, players: &[Player]) -> (r: SampleFactPayloadDtoV2)
    ensures
        payload_encoded(r, *payload, home, away, players@),
{
    match payload {
        MatchFactPayload::Play(play) => SampleFactPayloadDtoV2 {
            kind: "play".to_owned(),
            play: Some(encode_play(play, home, away, players)),
            control: None,
            possession: None,
        },
        MatchFactPayload::Control(control) => SampleFactPayloadDtoV2 {
            kind: "control".to_owned(),
            play: None,
            control: Some(encode_control(control)),
            possession: None,
        },
        MatchFactPayload::Possession(possession) => SampleFactPayloadDtoV2 {
            kind: "possession".to_owned(),
            play: None,
            control: None,
            possession: Some(encode_possession(possession, home, away)),
        },
    }
}

fn make_team_dto(key: &str, team: &Team, players: &[Player]) -> (r: SampleTeamDtoV2)
    ensures
        team_encoded(r, key@, *team, players@),
{
    let mut dtos: Vec<SamplePlayerDtoV2> = Vec::new();
    let mut k: usize = 0;
    while k < players.len()
        invariant
            k <= players.len(),
            dtos@.len() == k,
            forall|j: int|
                0 <= j < k ==> {
                    &&& (#[trigger] dtos@[j]).key@ == uuid_text(players@[j].id.0, true)
                    &&& dtos@[j].name == players@[j].name
                    &&& dtos@[j].jersey_number == players@[j].jersey_number
                },
        decreases players.len() - k,
    {
        let p = &players[k];
        dtos.push(SamplePlayerDtoV2 { key: uuid_key(p.id), name: p.name.clone(), jersey_number: p.jersey_number });
        k += 1;
    }
    SampleTeamDtoV2 { key: key.to_owned(), name: team.name.clone(), players: dtos }
}

// ── Fact order ──

/// A fact's position in the input with its recording instant; ordered by the instant
/// alone.
#[derive(Debug, Clone, Copy, PartialEq, Eq, Structural)]
pub struct RecordedIndex {
    pub recorded_at: i128,
    pub index: usize,
}

impl KeyOrder for RecordedIndex {
    open spec fn key_le(self, other: Self) -> bool {
        self.recorded_at <= other.recorded_at
    }

    proof fn lemma_total(a: Self, b: Self) {
    }

    proof fn lemma_trans(a: Self, b: Self, c: Self) {
    }

    fn le(&self, other: &Self) -> (r: bool) {
        self.recorded_at <= other.recorded_at
    }
}

/// The input positions of the facts in export order: by `recorded_at`, ties in input
/// order.
pub open spec fn export_order(facts: Seq<MatchFact>) -> Seq<RecordedIndex> {
    sorted_seq(Seq::new(facts.len(), |i: int| RecordedIndex { recorded_at: facts[i].recorded_at.unix_nanos, index: i as usize }))
}

pub open spec fn fact_encoded(d: SampleFactDtoV2, f: MatchFact, home: TeamId, away: TeamId, players: Seq<Player>) -> bool {
    &&& d.fact_id == Some(f.id.0)
    &&& d.recorded_at == f.recorded_at
    &&& payload_encoded(d.payload, f.payload, home, away, players)
}

/// An export lists each fact exactly once, ordered by `recorded_at` (never
/// decreasing), with facts recorded at the same instant in their input order.
pub proof fn lemma_export_order(facts: Seq<MatchFact>)
    requires
        facts.len() <= usize::MAX,
    ensures
        export_order(facts).len() == facts.len(),
        forall|t: int| 0 <= t < facts.len() ==> #[trigger] exported_at(export_order(facts), t),
        forall|i: int, j: int|
            0 <= i < j < export_order(facts).len() ==> (#[trigger] export_order(facts)[i]).recorded_at
                <= (#[trigger] export_order(facts)[j]).recorded_at,
        forall|k: int|
            0 <= k < export_order(facts).len() ==> (#[trigger] export_order(facts)[k]).index < facts.len()
                && export_order(facts)[k].recorded_at == facts[export_order(facts)[k].index as int].recorded_at.unix_nanos,
{
    broadcast use vstd::seq_lib::to_multiset_contains;

    let all = Seq::new(facts.len(), |i: int| RecordedIndex { recorded_at: facts[i].recorded_at.unix_nanos, index: i as usize });
    let order = export_order(facts);
    crate::sorting::lemma_sorted_seq_len(all);
    crate::sorting::lemma_sorted_seq_sorted(all);
    assert forall|i: int, j: int| 0 <= i < j < order.len() implies (#[trigger] order[i]).recorded_at <= (#[trigger] order[j]).recorded_at by {
        assert(order[i].key_le(order[j]));
    }
    assert forall|k: int| 0 <= k < order.len() implies (#[trigger] order[k]).index < facts.len()
        && order[k].recorded_at == facts[order[k].index as int].recorded_at.unix_nanos by {
        assert(order.to_multiset().count(order[k]) > 0);
        assert(all.contains(order[k]));
        let i = choose|i: int| 0 <= i < all.len() && all[i] == order[k];
        assert(all[i].index == i as usize);
    }
    assert forall|t: int| 0 <= t < facts.len() implies #[trigger] exported_at(order, t) by {
        assert(all[t].index == t as usize);
        assert(all.to_multiset().count(all[t]) > 0);
        assert(order.contains(all[t]));
        let k = choose|k: int| 0 <= k < order.len() && order[k] == all[t];
        assert(order[k].index == t);
    }
}

/// The input fact at position `t` appears in the export order.
pub open spec fn exported_at(order: Seq<RecordedIndex>, t: int) -> bool {
    exists|k: int| 0 <= k < order.len() && order[k].index == t
}

/// What the export of a match holds: the current schema version, the match's title,
/// date and configuration, the two teams under the keys `home` and `away` with their
/// players keyed by their ids' upper-case text, and one entry per fact, in export order.
pub open spec fn match_exported(
    d: SampleMatchDtoV2,
    m: Match,
    home: Team,
    away: Team,
    home_players: Seq<Player>,
    away_players: Seq<Player>,
    facts: Seq<MatchFact>,
) -> bool {
    &&& d.schema_version == SCHEMA_VERSION_CURRENT
    &&& d.match_.display_name == m.title
    &&& d.match_.date == m.date
    &&& configuration_encoded(d.match_.configuration, m.configuration)
    &&& team_encoded(d.teams.home, "home"@, home, home_players)
    &&& team_encoded(d.teams.away, "away"@, away, away_players)
    &&& d.facts@.len() == facts.len()
    &&& forall|k: int|
        0 <= k < facts.len() ==> fact_encoded(
            #[trigger] d.facts@[k],
            facts[export_order(facts)[k].index as int],
            home.id,
            away.id,
            home_players + away_players,
        )
}

/// Writes a match, its teams and players, and its facts into the sample schema.
pub fn export_match(
    match_: &Match,
    home_team: &Team,
    away_team: &Team,
    home_players: &[Player],
    away_players: &[Player],
    facts: &[MatchFact],
) -> (r: SampleMatchDtoV2)
    ensures
        match_exported(r, *match_, *home_team, *away_team, home_players@, away_players@, facts@),
{
    let home_dto = make_team_dto("home", home_team, home_players);
    let away_dto = make_team_dto("away", away_team, away_players);
    let mut all_players: Vec<Player> = Vec::new();
    let mut k: usize = 0;
    while k < home_players.len()
        invariant
            k <= home_players.len(),
            all_players@ == home_players@.take(k as int),
        decreases home_players.len() - k,
    {
        all_players.push(home_players[k].duplicate());
        proof {
            assert(home_players@.take(k + 1) == home_players@.take(k as int).push(home_players@[k as int]));
        }
        k += 1;
    }
    let mut k: usize = 0;
    while k < away_players.len()
        invariant
            k <= away_players.len(),
            all_players@ == home_players@ + away_players@.take(k as int),
        decreases away_players.len() - k,
    {
        proof {
            if k == 0 {
                assert(home_players@.take(home_players@.len() as int) == home_players@);
                assert(home_players@ + away_players@.take(0) == home_players@);
            }
        }
        all_players.push(away_players[k].duplicate());
        proof {
            assert(away_players@.take(k + 1) == away_players@.take(k as int).push(away_players@[k as int]));
            assert(home_players@ + away_players@.take(k + 1) == (home_players@ + away_players@.take(k as int)).push(away_players@[k as int]));
        }
        k += 1;
    }
    proof {
        if away_players@.len() == 0 {
            assert(home_players@.take(home_players@.len() as int) == home_players@);
        }
        assert(away_players@.take(away_players@.len() as int) == away_players@);
    }

    let mut order: Vec<RecordedIndex> = Vec::new();
    let mut i: usize = 0;
    while i < facts.len()
        invariant
            i <= facts.len(),
            order@ == Seq::new(facts@.len(), |j: int| RecordedIndex { recorded_at: facts@[j].recorded_at.unix_nanos, index: j as usize }).take(i as int),
        decreases facts.len() - i,
    {
        order.push(RecordedIndex { recorded_at: facts[i].recorded_at.unix_nanos, index: i });
        proof {
            let all = Seq::new(facts@.len(), |j: int| RecordedIndex { recorded_at: facts@[j].recorded_at.unix_nanos, index: j as usize });
            assert(all.take(i + 1) == all.take(i as int).push(all[i as int]));
        }
        i += 1;
    }
    let ghost all = Seq::new(facts@.len(), |j: int| RecordedIndex { recorded_at: facts@[j].recorded_at.unix_nanos, index: j as usize });
    proof {
        assert(all.take(facts@.len() as int) == all);
    }
    let sorted = stable_sort(order);
    proof {
        let p = choose|p: Seq<int>| stable_arrangement(sorted@, all, p);
        assert forall|j: int| 0 <= j < sorted@.len() implies (#[trigger] sorted@[j]).index < facts@.len() by {
            assert(sorted@[j] == all[p[j]]);
        }
    }

    let mut fact_dtos: Vec<SampleFactDtoV2> = Vec::new();
    let mut k: usize = 0;
    while k < sorted.len()
        invariant
            k <= sorted@.len(),
            sorted@ == export_order(facts@),
            sorted@.len() == facts@.len(),
            all_players@ == home_players@ + away_players@,
            forall|j: int| 0 <= j < sorted@.len() ==> (#[trigger] sorted@[j]).index < facts@.len(),
            fact_dtos@.len() == k,
            forall|j: int|
                0 <= j < k ==> fact_encoded(
                    #[trigger] fact_dtos@[j],
                    facts@[sorted@[j].index as int],
                    home_team.id,
                    away_team.id,
                    home_players@ + away_players@,
                ),
        decreases sorted@.len() - k,
    {
        let fact = &facts[sorted[k].index];
        fact_dtos.push(SampleFactDtoV2 {
            fact_id: Some(fact.id.0),
            recorded_at: fact.recorded_at,
            payload: encode_payload(&fact.payload, home_team.id, away_team.id, all_players.as_slice()),
        });
        k += 1;
    }

    SampleMatchDtoV2 {
        schema_version: SCHEMA_VERSION_CURRENT,
        match_: SampleMatchHeaderV2 {
            display_name: duplicate_opt_string(&match_.title),
            date: match_.date,
            configuration: encode_configuration(&match_.configuration),
        },
        teams: SampleTeamsDtoV2 { home: home_dto, away: away_dto },
        facts: fact_dtos,
    }
}

// ── Slug of a whole match ──

/// The file name slug of a match: `{date}-{home}-vs-{away}` with the ASCII slugs of
/// the team names, or `{date}-{first 8 hex digits of the match id}` when either slug
/// is empty.  The date is the match date in UTC, `yyyy-mm-dd`; `None` when that date
/// cannot be written.
pub open spec fn spec_default_slug(match_: Match, home_team: Team, away_team: Team) -> Option<Seq<char>> {
    match match_.date.spec_date_label() {
        None => None,
        Some(date) => {
            let home = spec_ascii_slug(home_team.name@);
            let away = spec_ascii_slug(away_team.name@);
            if home.len() > 0 && away.len() > 0 {
                Some(date + "-"@ + home + "-vs-"@ + away)
            } else {
                Some(date + "-"@ + uuid_text(match_.id.0, false).take(8))
            }
        },
    }
}

/// The file name slug of a match whose date can be written; see [`spec_default_slug`].
pub fn default_slug(match_: &Match, home_team: &Team, away_team: &Team) -> (r: String)
    requires
        match_.date.spec_date_label() is Some,
    ensures
        spec_default_slug(*match_, *home_team, *away_team) == Some(r@),
{
    let date = match match_.date.date_label() {
        Some(d) => d,
        None => {
            proof {
                assert(false);
            }
            String::new()
        },
    };
    let home = ascii_slug(home_team.name.as_str());
    let away = ascii_slug(away_team.name.as_str());
    let mut out = chars_of(date.as_str());
    push_text(&mut out, "-");
    if home.as_str().unicode_len() > 0 && away.as_str().unicode_len() > 0 {
        push_text(&mut out, home.as_str());
        push_text(&mut out, "-vs-");
        push_text(&mut out, away.as_str());
    } else {
        let id_text = uuid_lower_text(match_.id.0);
        let id_chars = chars_of(id_text.as_str());
        let mut k: usize = 0;
        while k < 8
            invariant
                k <= 8,
                id_chars@ == uuid_text(match_.id.0, false),
                id_chars@.len() == 36,
                out@ == date@ + "-"@ + uuid_text(match_.id.0, false).take(k as int),
            decreases 8 - k,
        {
            out.push(id_chars[k]);
            proof {
                assert(uuid_text(match_.id.0, false).take(k + 1) == uuid_text(match_.id.0, false).take(k as int).push(id_chars@[k as int]));
            }
            k += 1;
        }
    }
    string_of(out.as_slice())
}

/// The file name slug of a match, or `None` when its date cannot be written.
pub fn default_slug_checked(match_: &Match, home_team: &Team, away_team: &Team) -> (r: Option<String>)
    ensures
        opt_text(r) == spec_default_slug(*match_, *home_team, *away_team),
{
    match match_.date.date_label() {
        None => None,
        Some(_) => Some(default_slug(match_, home_team, away_team)),
    }
}

// ── Export then import ──

/// The wire names of the unions are told apart by their length or first character.
proof fn lemma_wire_names()
    ensures
        "timer"@ != "video"@,
        "timer"@ != "videoHighlight"@,
        "video"@ != "videoHighlight"@,
        "youtube"@ != "local"@,
        "matchClock"@ != "videoClock"@,
        "matchClock"@ != "both"@,
        "videoClock"@ != "both"@,
        "play"@ != "control"@,
        "phaseStart"@ != "stoppage"@,
{
    reveal_strlit("timer");
    reveal_strlit("video");
    reveal_strlit("videoHighlight");
    reveal_strlit("youtube");
    reveal_strlit("local");
    reveal_strlit("matchClock");
    reveal_strlit("videoClock");
    reveal_strlit("both");
    reveal_strlit("play");
    reveal_strlit("control");
    reveal_strlit("phaseStart");
    reveal_strlit("stoppage");
    assert("timer"@.len() == 5 && "timer"@[0] == 't');
    assert("video"@.len() == 5 && "video"@[0] == 'v');
    assert("videoHighlight"@.len() == 14);
    assert("youtube"@.len() == 7);
    assert("local"@.len() == 5);
    assert("matchClock"@.len() == 10 && "matchClock"@[0] == 'm');
    assert("videoClock"@.len() == 10 && "videoClock"@[0] == 'v');
    assert("both"@.len() == 4);
    assert("play"@.len() == 4);
    assert("control"@.len() == 7);
    assert("phaseStart"@.len() == 10);
    assert("stoppage"@.len() == 8);
}

/// Importing an exported configuration gives it back.
pub proof fn lemma_configuration_round_trip(d: SampleMatchConfigurationDtoV2, c: MatchConfiguration)
    requires
        configuration_encoded(d, c),
    ensures
        spec_decode_configuration(d) == Ok::<MatchConfiguration, DecodeErrorView>(c),
{
    lemma_wire_names();
}

/// The end of a range has the kind of its start (absent ends count as such).
pub open spec fn end_of_same_kind(start: FactAnchor, end: Option<FactAnchor>) -> bool {
    match end {
        None => true,
        Some(e) => e.spec_kind() == start.spec_kind(),
    }
}

/// Importing an exported anchor gives back its start, and its end when the end has the
/// start's kind (the file keeps only the end readings, and the importer reads them by
/// the start's kind).
pub proof fn lemma_anchor_round_trip(d: SampleFactAnchorDtoV2, a: FactAnchor, end: Option<FactAnchor>)
    requires
        anchor_encoded(d, a, end),
    ensures
        spec_decode_start_anchor(d) == Ok::<FactAnchor, DecodeErrorView>(a),
        end_of_same_kind(a, end) ==> spec_decode_end_anchor(d, a) == Ok::<Option<FactAnchor>, DecodeErrorView>(end),
{
    lemma_wire_names();
}

/// Importing an exported control fact gives it back when each end anchor has its start's
/// kind.
pub proof fn lemma_control_round_trip(d: SampleControlFactDtoV2, c: ControlFact)
    requires
        control_encoded(d, c),
        match c {
            ControlFact::PhaseStart(p) => end_of_same_kind(p.start_anchor, Some(p.end_anchor)),
            ControlFact::Stoppage(p) => end_of_same_kind(p.start_anchor, p.end_anchor),
        },
    ensures
        spec_decode_control_fact(d) == Ok::<ControlFact, DecodeErrorView>(c),
{
    lemma_wire_names();
    lemma_raw_round_trip(PlayEventKind::Goal, PhaseKind::Regular, StoppageKind::Timeout);
    lemma_raw_round_trip(PlayEventKind::Goal, PhaseKind::Shootout, StoppageKind::Pause);
    match c {
        ControlFact::PhaseStart(p) => {
            lemma_anchor_round_trip(d.anchor, p.start_anchor, Some(p.end_anchor));
        },
        ControlFact::Stoppage(p) => {
            lemma_anchor_round_trip(d.anchor, p.start_anchor, p.end_anchor);
        },
    }
}

/// Key tables under which exported keys read back: `home` and `away` name the two teams
/// and each player's key text names that player.
pub open spec fn tables_read_back(
    teams: Seq<(String, TeamId)>,
    players_table: Seq<(String, PlayerId)>,
    home: TeamId,
    away: TeamId,
    players: Seq<Player>,
) -> bool {
    &&& key_lookup(teams, "home"@) == Some(home)
    &&& key_lookup(teams, "away"@) == Some(away)
    &&& forall|k: int| 0 <= k < players.len() ==> key_lookup(players_table, uuid_text((#[trigger] players[k]).id.0, true)) == Some(players[k].id)
}

/// A play refers only to the two teams and to given players.
pub open spec fn play_refs_known(p: PlayFact, home: TeamId, away: TeamId, players: Seq<Player>) -> bool {
    &&& (match p.team_id {
        Some(t) => t == home || t == away,
        None => true,
    })
    &&& (match p.player_id {
        Some(id) => exists|k: int| 0 <= k < players.len() && players[k].id == id,
        None => true,
    })
    &&& (match p.related_player_id {
        Some(id) => exists|k: int| 0 <= k < players.len() && players[k].id == id,
        None => true,
    })
}

/// Importing an exported play under tables that read the keys back gives it back,
/// when it refers only to the two teams and to players that were exported.
pub proof fn lemma_play_round_trip(
    d: SamplePlayFactDtoV2,
    p: PlayFact,
    home: TeamId,
    away: TeamId,
    players: Seq<Player>,
    teams_table: Seq<(String, TeamId)>,
    players_table: Seq<(String, PlayerId)>,
)
    requires
        play_encoded(d, p, home, away, players),
        play_refs_known(p, home, away, players),
        tables_read_back(teams_table, players_table, home, away, players),
    ensures
        spec_decode_play_fact(d, teams_table, players_table) == Ok::<PlayFact, DecodeErrorView>(p),
{
    lemma_raw_round_trip(p.kind, PhaseKind::Regular, StoppageKind::Timeout);
    lemma_anchor_round_trip(d.anchor, p.anchor, None);
    match p.player_id {
        Some(id) => {
            let k = choose|k: int| 0 <= k < players.len() && players[k].id == id;
            assert(key_lookup(players_table, uuid_text(players[k].id.0, true)) == Some(players[k].id));
        },
        None => {},
    }
    match p.related_player_id {
        Some(id) => {
            let k = choose|k: int| 0 <= k < players.len() && players[k].id == id;
            assert(key_lookup(players_table, uuid_text(players[k].id.0, true)) == Some(players[k].id));
        },
        None => {},
    }
}

/// Importing an exported fact gives the fact back (its id included),
/// under tables that read the keys back, when a play refers only to the two teams and
/// exported players, each range end has its start's kind, and a possession is of one of
/// the two teams and has no end.
pub proof fn lemma_fact_round_trip(
    d: SampleFactDtoV2,
    f: MatchFact,
    home: TeamId,
    away: TeamId,
    players: Seq<Player>,
    teams_table: Seq<(String, TeamId)>,
    players_table: Seq<(String, PlayerId)>,
    fallback_id: u128,
)
    requires
        fact_encoded(d, f, home, away, players),
        tables_read_back(teams_table, players_table, home, away, players),
        match f.payload {
            MatchFactPayload::Play(p) => play_refs_known(p, home, away, players),
            MatchFactPayload::Control(ControlFact::PhaseStart(p)) => end_of_same_kind(p.start_anchor, Some(p.end_anchor)),
            MatchFactPayload::Control(ControlFact::Stoppage(p)) => end_of_same_kind(p.start_anchor, p.end_anchor),
            MatchFactPayload::Possession(p) => possession_survives(p, home, away),
        },
    ensures
        spec_decode_fact(d, teams_table, players_table, fallback_id) == Ok::<MatchFact, DecodeErrorView>(f),
{
    lemma_wire_names();
    match f.payload {
        MatchFactPayload::Play(p) => {
            let dp = d.payload.play->0;
            lemma_play_round_trip(dp, p, home, away, players, teams_table, players_table);
            assert(spec_decode_payload(d.payload, teams_table, players_table) == Ok::<MatchFactPayload, DecodeErrorView>(f.payload));
            assert(d.fact_id == Some(f.id.0));
            assert(spec_decode_fact(d, teams_table, players_table, fallback_id) == Ok::<MatchFact, DecodeErrorView>(f));
        },
        MatchFactPayload::Control(c) => {
            let dc = d.payload.control->0;
            lemma_control_round_trip(dc, c);
            assert(spec_decode_payload(d.payload, teams_table, players_table) == Ok::<MatchFactPayload, DecodeErrorView>(f.payload));
        },
        MatchFactPayload::Possession(p) => {
            let dp = d.payload.possession->0;
            lemma_anchor_round_trip(dp.anchor, p.anchor, None);
            reveal_strlit("home");
            reveal_strlit("away");
            assert("home"@[0] != "away"@[0]);
            assert(key_lookup(teams_table, dp.team_key@) == Some(p.team_id));
            assert(spec_decode_possession_fact(dp, teams_table) == Ok::<PossessionFact, DecodeErrorView>(p));
            reveal_strlit("possession");
            reveal_strlit("play");
            reveal_strlit("control");
            assert("possession"@.len() == 10 && "play"@.len() == 4 && "control"@.len() == 7);
            assert(spec_decode_payload(d.payload, teams_table, players_table) == Ok::<MatchFactPayload, DecodeErrorView>(f.payload));
        },
    }
}

/// A possession the file keeps whole: of one of the two teams, without an end.
pub open spec fn possession_survives(p: PossessionFact, home: TeamId, away: TeamId) -> bool {
    (p.team_id == home || p.team_id == away) && p.end_anchor is None
}

// ── A whole match, exported and converted back ──

/// A fact that an export keeps whole: a play referring only to the two teams and to
/// exported players, a phase or stoppage whose end has its start's kind, or a
/// possession of one of the two teams without an end.
pub open spec fn survives_export(f: MatchFact, home: TeamId, away: TeamId, players: Seq<Player>) -> bool {
    match f.payload {
        MatchFactPayload::Play(p) => play_refs_known(p, home, away, players),
        MatchFactPayload::Control(ControlFact::PhaseStart(p)) => end_of_same_kind(p.start_anchor, Some(p.end_anchor)),
        MatchFactPayload::Control(ControlFact::Stoppage(p)) => end_of_same_kind(p.start_anchor, p.end_anchor),
        MatchFactPayload::Possession(p) => possession_survives(p, home, away),
    }
}

/// The identifiers of an exported match's own entities in the order the converter
/// hands them out: home team, home players, away team, away players, match.
pub open spec fn own_ids(m: Match, home: Team, away: Team, home_players: Seq<Player>, away_players: Seq<Player>) -> Seq<u128> {
    seq![home.id.0] + home_players.map_values(|p: Player| p.id.0) + seq![away.id.0] + away_players.map_values(
        |p: Player| p.id.0,
    ) + seq![m.id.0]
}

/// The facts in the order an export lists them.
pub open spec fn in_export_order(facts: Seq<MatchFact>) -> Seq<MatchFact> {
    export_order(facts).map_values(|r: RecordedIndex| facts[r.index as int])
}

proof fn lemma_lookup_single_value<T>(table: Seq<(String, T)>, key: Seq<char>, v: T, witness: int)
    requires
        0 <= witness < table.len(),
        table[witness].0@ == key,
        forall|j: int| 0 <= j < table.len() && (#[trigger] table[j]).0@ == key ==> table[j].1 == v,
    ensures
        key_lookup(table, key) == Some(v),
    decreases table.len(),
{
    if table.last().0@ != key {
        assert(witness < table.len() - 1);
        assert forall|j: int| 0 <= j < table.drop_last().len() && (#[trigger] table.drop_last()[j]).0@ == key implies table.drop_last()[j].1 == v by {
            assert(table.drop_last()[j] == table[j]);
        }
        assert(table.drop_last()[witness] == table[witness]);
        lemma_lookup_single_value(table.drop_last(), key, v, witness);
    } else {
        assert(table[table.len() - 1] == table.last());
    }
}

proof fn lemma_no_missing_ids(facts: Seq<SampleFactDtoV2>)
    requires
        forall|k: int| 0 <= k < facts.len() ==> (#[trigger] facts[k]).fact_id is Some,
    ensures
        crate::sample_dto::converter::missing_fact_ids(facts) == 0,
    decreases facts.len(),
{
    if facts.len() > 0 {
        assert forall|k: int| 0 <= k < facts.drop_last().len() implies (#[trigger] facts.drop_last()[k]).fact_id is Some by {
            assert(facts.drop_last()[k] == facts[k]);
        }
        lemma_no_missing_ids(facts.drop_last());
        assert(facts[facts.len() - 1] == facts.last());
    }
}

proof fn lemma_decode_exported_facts(
    dfacts: Seq<SampleFactDtoV2>,
    facts: Seq<MatchFact>,
    home: TeamId,
    away: TeamId,
    players: Seq<Player>,
    teams_table: Seq<(String, TeamId)>,
    players_table: Seq<(String, PlayerId)>,
    ids: Seq<u128>,
    n: int,
)
    requires
        0 <= n <= dfacts.len(),
        dfacts.len() == facts.len(),
        forall|k: int| 0 <= k < facts.len() ==> fact_encoded(#[trigger] dfacts[k], facts[k], home, away, players),
        forall|k: int| 0 <= k < facts.len() ==> survives_export(#[trigger] facts[k], home, away, players),
        tables_read_back(teams_table, players_table, home, away, players),
    ensures
        crate::sample_dto::converter::spec_decode_facts(dfacts.take(n), teams_table, players_table, ids)
            == Ok::<Seq<MatchFact>, DecodeErrorView>(facts.take(n)),
    decreases n,
{
    if n > 0 {
        lemma_decode_exported_facts(dfacts, facts, home, away, players, teams_table, players_table, ids, n - 1);
        assert(dfacts.take(n).drop_last() == dfacts.take(n - 1));
        assert(dfacts.take(n).last() == dfacts[n - 1]);
        let fallback = ids[crate::sample_dto::converter::missing_fact_ids(dfacts.take(n - 1)) as int];
        assert(fact_encoded(dfacts[n - 1], facts[n - 1], home, away, players));
        assert(survives_export(facts[n - 1], home, away, players));
        lemma_fact_round_trip(dfacts[n - 1], facts[n - 1], home, away, players, teams_table, players_table, fallback);
        assert(facts.take(n - 1).push(facts[n - 1]) == facts.take(n));
    } else {
        assert(dfacts.take(0).len() == 0);
        assert(facts.take(0) == Seq::<MatchFact>::empty());
    }
}

// ── A whole match, converted back under any identifiers ──

/// Team `t` under new identifiers: the away team becomes `na`, the home team `nh`
/// (the away key wins, as in an export, should the two ids coincide).
pub open spec fn renamed_team(t: TeamId, home: TeamId, away: TeamId, nh: TeamId, na: TeamId) -> TeamId {
    if t == away {
        na
    } else if t == home {
        nh
    } else {
        t
    }
}

/// Player `id` under new identifiers: the player at position `k` of `players` becomes
/// `new_ids[k]`.
pub open spec fn renamed_player(id: PlayerId, players: Seq<Player>, new_ids: Seq<PlayerId>) -> PlayerId {
    match first_index(players, |p: Player| p.id == id) {
        Some(k) => new_ids[k],
        None => id,
    }
}

pub open spec fn renamed_opt_player(id: Option<PlayerId>, players: Seq<Player>, new_ids: Seq<PlayerId>) -> Option<PlayerId> {
    match id {
        Some(i) => Some(renamed_player(i, players, new_ids)),
        None => None,
    }
}

/// A fact with its teams and players under new identifiers (everything else kept).
pub open spec fn renamed_fact(
    f: MatchFact,
    home: TeamId,
    away: TeamId,
    nh: TeamId,
    na: TeamId,
    players: Seq<Player>,
    new_ids: Seq<PlayerId>,
) -> MatchFact {
    MatchFact {
        id: f.id,
        recorded_at: f.recorded_at,
        payload: match f.payload {
            MatchFactPayload::Play(p) => MatchFactPayload::Play(PlayFact {
                kind: p.kind,
                team_id: match p.team_id {
                    Some(t) => Some(renamed_team(t, home, away, nh, na)),
                    None => None,
                },
                player_id: renamed_opt_player(p.player_id, players, new_ids),
                related_player_id: renamed_opt_player(p.related_player_id, players, new_ids),
                anchor: p.anchor,
                title: p.title,
                note: p.note,
            }),
            MatchFactPayload::Control(c) => MatchFactPayload::Control(c),
            MatchFactPayload::Possession(p) => MatchFactPayload::Possession(PossessionFact {
                team_id: renamed_team(p.team_id, home, away, nh, na),
                anchor: p.anchor,
                end_anchor: p.end_anchor,
            }),
        },
    }
}

/// Key tables under which the exported keys name new identifiers: `home` names `nh`,
/// `away` names `na`, and the key of the player at position `k` names `new_ids[k]`.
pub open spec fn tables_rename(
    teams: Seq<(String, TeamId)>,
    players_table: Seq<(String, PlayerId)>,
    nh: TeamId,
    na: TeamId,
    players: Seq<Player>,
    new_ids: Seq<PlayerId>,
) -> bool {
    &&& key_lookup(teams, "home"@) == Some(nh)
    &&& key_lookup(teams, "away"@) == Some(na)
    &&& forall|k: int| 0 <= k < players.len() ==> key_lookup(players_table, uuid_text((#[trigger] players[k]).id.0, true)) == Some(new_ids[k])
}

/// No two players share an id.
pub open spec fn distinct_player_ids(players: Seq<Player>) -> bool {
    forall|a: int, b: int| 0 <= a < b < players.len() ==> (#[trigger] players[a]).id != (#[trigger] players[b]).id
}

proof fn lemma_renamed_player_at(players: Seq<Player>, new_ids: Seq<PlayerId>, k: int)
    requires
        0 <= k < players.len(),
        distinct_player_ids(players),
    ensures
        renamed_player(players[k].id, players, new_ids) == new_ids[k],
{
    let id = players[k].id;
    let f = |p: Player| p.id == id;
    assert forall|j: int| 0 <= j < k implies !f(#[trigger] players[j]) by {
        assert(players[j].id != players[k].id);
    }
    lemma_first_index_is(players, f, k);
}

proof fn lemma_play_round_trip_renamed(
    d: SamplePlayFactDtoV2,
    p: PlayFact,
    home: TeamId,
    away: TeamId,
    nh: TeamId,
    na: TeamId,
    players: Seq<Player>,
    new_ids: Seq<PlayerId>,
    teams_table: Seq<(String, TeamId)>,
    players_table: Seq<(String, PlayerId)>,
)
    requires
        play_encoded(d, p, home, away, players),
        play_refs_known(p, home, away, players),
        distinct_player_ids(players),
        tables_rename(teams_table, players_table, nh, na, players, new_ids),
    ensures
        spec_decode_play_fact(d, teams_table, players_table) == Ok::<PlayFact, DecodeErrorView>(PlayFact {
            kind: p.kind,
            team_id: match p.team_id {
                Some(t) => Some(renamed_team(t, home, away, nh, na)),
                None => None,
            },
            player_id: renamed_opt_player(p.player_id, players, new_ids),
            related_player_id: renamed_opt_player(p.related_player_id, players, new_ids),
            anchor: p.anchor,
            title: p.title,
            note: p.note,
        }),
{
    lemma_raw_round_trip(p.kind, PhaseKind::Regular, StoppageKind::Timeout);
    lemma_anchor_round_trip(d.anchor, p.anchor, None);
    match p.player_id {
        Some(id) => {
            let k = choose|k: int| 0 <= k < players.len() && players[k].id == id;
            assert(key_lookup(players_table, uuid_text(players[k].id.0, true)) == Some(new_ids[k]));
            lemma_renamed_player_at(players, new_ids, k);
        },
        None => {},
    }
    match p.related_player_id {
        Some(id) => {
            let k = choose|k: int| 0 <= k < players.len() && players[k].id == id;
            assert(key_lookup(players_table, uuid_text(players[k].id.0, true)) == Some(new_ids[k]));
            lemma_renamed_player_at(players, new_ids, k);
        },
        None => {},
    }
}

proof fn lemma_fact_round_trip_renamed(
    d: SampleFactDtoV2,
    f: MatchFact,
    home: TeamId,
    away: TeamId,
    nh: TeamId,
    na: TeamId,
    players: Seq<Player>,
    new_ids: Seq<PlayerId>,
    teams_table: Seq<(String, TeamId)>,
    players_table: Seq<(String, PlayerId)>,
    fallback_id: u128,
)
    requires
        fact_encoded(d, f, home, away, players),
        tables_rename(teams_table, players_table, nh, na, players, new_ids),
        distinct_player_ids(players),
        survives_export(f, home, away, players),
    ensures
        spec_decode_fact(d, teams_table, players_table, fallback_id)
            == Ok::<MatchFact, DecodeErrorView>(renamed_fact(f, home, away, nh, na, players, new_ids)),
{
    lemma_wire_names();
    let g = renamed_fact(f, home, away, nh, na, players, new_ids);
    match f.payload {
        MatchFactPayload::Play(p) => {
            let dp = d.payload.play->0;
            lemma_play_round_trip_renamed(dp, p, home, away, nh, na, players, new_ids, teams_table, players_table);
            assert(spec_decode_payload(d.payload, teams_table, players_table) == Ok::<MatchFactPayload, DecodeErrorView>(g.payload));
            assert(d.fact_id == Some(f.id.0));
        },
        MatchFactPayload::Control(c) => {
            let dc = d.payload.control->0;
            lemma_control_round_trip(dc, c);
            assert(spec_decode_payload(d.payload, teams_table, players_table) == Ok::<MatchFactPayload, DecodeErrorView>(g.payload));
        },
        MatchFactPayload::Possession(p) => {
            let dp = d.payload.possession->0;
            lemma_anchor_round_trip(dp.anchor, p.anchor, None);
            reveal_strlit("home");
            reveal_strlit("away");
            assert("home"@[0] != "away"@[0]);
            assert(key_lookup(teams_table, dp.team_key@) == Some(renamed_team(p.team_id, home, away, nh, na)));
            reveal_strlit("possession");
            reveal_strlit("play");
            reveal_strlit("control");
            assert("possession"@.len() == 10 && "play"@.len() == 4 && "control"@.len() == 7);
            assert(spec_decode_payload(d.payload, teams_table, players_table) == Ok::<MatchFactPayload, DecodeErrorView>(g.payload));
        },
    }
}

proof fn lemma_decode_exported_facts_renamed(
    dfacts: Seq<SampleFactDtoV2>,
    facts: Seq<MatchFact>,
    home: TeamId,
    away: TeamId,
    nh: TeamId,
    na: TeamId,
    players: Seq<Player>,
    new_ids: Seq<PlayerId>,
    teams_table: Seq<(String, TeamId)>,
    players_table: Seq<(String, PlayerId)>,
    ids: Seq<u128>,
    n: int,
)
    requires
        0 <= n <= dfacts.len(),
        dfacts.len() == facts.len(),
        forall|k: int| 0 <= k < facts.len() ==> fact_encoded(#[trigger] dfacts[k], facts[k], home, away, players),
        forall|k: int| 0 <= k < facts.len() ==> survives_export(#[trigger] facts[k], home, away, players),
        tables_rename(teams_table, players_table, nh, na, players, new_ids),
        distinct_player_ids(players),
    ensures
        crate::sample_dto::converter::spec_decode_facts(dfacts.take(n), teams_table, players_table, ids)
            == Ok::<Seq<MatchFact>, DecodeErrorView>(
                facts.take(n).map_values(|f: MatchFact| renamed_fact(f, home, away, nh, na, players, new_ids)),
            ),
    decreases n,
{
    let rn = |f: MatchFact| renamed_fact(f, home, away, nh, na, players, new_ids);
    if n > 0 {
        lemma_decode_exported_facts_renamed(dfacts, facts, home, away, nh, na, players, new_ids, teams_table, players_table, ids, n - 1);
        assert(dfacts.take(n).drop_last() == dfacts.take(n - 1));
        assert(dfacts.take(n).last() == dfacts[n - 1]);
        let fallback = ids[crate::sample_dto::converter::missing_fact_ids(dfacts.take(n - 1)) as int];
        assert(fact_encoded(dfacts[n - 1], facts[n - 1], home, away, players));
        assert(survives_export(facts[n - 1], home, away, players));
        lemma_fact_round_trip_renamed(dfacts[n - 1], facts[n - 1], home, away, nh, na, players, new_ids, teams_table, players_table, fallback);
        assert(facts.take(n - 1).map_values(rn).push(rn(facts[n - 1])) == facts.take(n).map_values(rn));
    } else {
        assert(dfacts.take(0).len() == 0);
        assert(facts.take(0).map_values(rn) == Seq::<MatchFact>::empty());
    }
}

/// Converting an exported match, handing the converter the exported entities' own
/// identifiers, gives the match back: its configuration, its id, the two teams, the
/// players' ids, names and jersey numbers in order, and every fact in export order, when
/// each fact survives the export (plays refer only to the two teams and to exported
/// players, range ends have their start's kind, possessions are of the two teams and
/// have no end).
pub proof fn lemma_export_convert_round_trip(
    d: SampleMatchDtoV2,
    m: Match,
    home: Team,
    away: Team,
    home_players: Seq<Player>,
    away_players: Seq<Player>,
    facts: Seq<MatchFact>,
)
    requires
        match_exported(d, m, home, away, home_players, away_players, facts),
        facts.len() <= usize::MAX,
        forall|t: int|
            0 <= t < facts.len() ==> survives_export(#[trigger] facts[t], home.id, away.id, home_players + away_players),
    ensures
        spec_required_id_count(d) == own_ids(m, home, away, home_players, away_players).len(),
        spec_convert_outcome(d, None, own_ids(m, home, away, home_players, away_players))
            == Ok::<(MatchConfiguration, Seq<MatchFact>), DecodeErrorView>((m.configuration, in_export_order(facts))),
        spec_home_team(d, own_ids(m, home, away, home_players, away_players)) == home,
        spec_away_team(d, own_ids(m, home, away, home_players, away_players)) == away,
        spec_match_id(d, own_ids(m, home, away, home_players, away_players)) == m.id,
        spec_converted_players(d, own_ids(m, home, away, home_players, away_players)).len() == home_players.len()
            + away_players.len(),
        forall|k: int|
            0 <= k < home_players.len() + away_players.len() ==> {
                let back = #[trigger] spec_converted_players(d, own_ids(m, home, away, home_players, away_players))[k];
                let sent = (home_players + away_players)[k];
                &&& back.id == sent.id
                &&& back.name == sent.name
                &&& back.jersey_number == sent.jersey_number
            },
{
    let ids = own_ids(m, home, away, home_players, away_players);
    let hl = home_players.len() as int;
    let al = away_players.len() as int;
    let all = home_players + away_players;
    lemma_wire_names();
    lemma_export_order(facts);
    assert(home_len(d) == hl);
    assert(away_len(d) == al);
    assert(ids.len() == 3 + hl + al);
    assert(ids[0] == home.id.0);
    assert(ids[1 + hl] == away.id.0);
    assert(ids[2 + hl + al] == m.id.0);
    assert forall|j: int| 0 <= j < hl implies #[trigger] ids.subrange(1, 1 + hl)[j] == home_players[j].id.0 by {
        assert(ids[1 + j] == home_players.map_values(|p: Player| p.id.0)[j]);
    }
    assert forall|j: int| 0 <= j < al implies #[trigger] ids.subrange(2 + hl, 2 + hl + al)[j] == away_players[j].id.0 by {
        assert(ids[2 + hl + j] == away_players.map_values(|p: Player| p.id.0)[j]);
    }

    // Every fact carries its id, so no identifier is spent on facts.
    assert forall|k: int| 0 <= k < d.facts@.len() implies (#[trigger] d.facts@[k]).fact_id is Some by {
        assert(fact_encoded(d.facts@[k], facts[export_order(facts)[k].index as int], home.id, away.id, all));
    }
    lemma_no_missing_ids(d.facts@);

    // The key tables read the exported keys back.
    let teams_table = spec_teams_by_key(d, ids);
    let players_table = spec_players_by_key(d, ids);
    assert(key_lookup(teams_table, "home"@) == Some(home.id)) by {
        reveal_strlit("home");
        reveal_strlit("away");
        assert("home"@[0] != "away"@[0]);
        assert(teams_table.last().0@ == "away"@);
        assert(teams_table.drop_last().last() == teams_table[0]);
        assert(key_lookup(teams_table.drop_last(), "home"@) == Some(home.id));
    }
    assert(key_lookup(teams_table, "away"@) == Some(away.id));
    assert(players_table.len() == all.len());
    assert forall|j: int| 0 <= j < all.len() implies (#[trigger] players_table[j]).0@ == uuid_text(all[j].id.0, true)
        && players_table[j].1 == all[j].id by {
        if j < hl {
            assert(players_table[j] == spec_player_keys(d.teams.home, ids.subrange(1, 1 + hl))[j]);
            assert(d.teams.home.players@[j].key@ == uuid_text(home_players[j].id.0, true));
        } else {
            assert(players_table[j] == spec_player_keys(d.teams.away, ids.subrange(2 + hl, 2 + hl + al))[j - hl]);
            assert(d.teams.away.players@[j - hl].key@ == uuid_text(away_players[j - hl].id.0, true));
        }
    }
    assert forall|k: int| 0 <= k < all.len() implies key_lookup(players_table, uuid_text((#[trigger] all[k]).id.0, true))
        == Some(all[k].id) by {
        assert forall|j: int| 0 <= j < players_table.len() && (#[trigger] players_table[j]).0@ == uuid_text(all[k].id.0, true)
            implies players_table[j].1 == all[k].id by {
            lemma_uuid_text_injective(all[j].id.0, all[k].id.0, true);
        }
        lemma_lookup_single_value(players_table, uuid_text(all[k].id.0, true), all[k].id, k);
    }
    assert(tables_read_back(teams_table, players_table, home.id, away.id, all));

    // The facts decode to the facts in export order.
    let ordered = in_export_order(facts);
    assert forall|k: int| 0 <= k < facts.len() implies fact_encoded(#[trigger] d.facts@[k], ordered[k], home.id, away.id, all)
        && survives_export(ordered[k], home.id, away.id, all) by {
        let t = export_order(facts)[k].index as int;
        assert(0 <= t < facts.len());
        assert(survives_export(facts[t], home.id, away.id, all));
    }
    lemma_decode_exported_facts(d.facts@, ordered, home.id, away.id, all, teams_table, players_table, spec_fact_ids(d, ids), facts.len() as int);
    assert(d.facts@.take(facts.len() as int) == d.facts@);
    assert(ordered.take(facts.len() as int) == ordered);

    lemma_configuration_round_trip(d.match_.configuration, m.configuration);
    assert(d.teams.home.name == home.name);
    assert(d.teams.away.name == away.name);
    assert forall|k: int| 0 <= k < hl + al implies {
        let back = #[trigger] spec_converted_players(d, ids)[k];
        &&& back.id == all[k].id
        &&& back.name == all[k].name
        &&& back.jersey_number == all[k].jersey_number
    } by {
        if k < hl {
            assert(d.teams.home.players@[k].name == home_players[k].name);
        } else {
            assert(d.teams.away.players@[k - hl].name == away_players[k - hl].name);
        }
    }
}

/// Converting an exported match, whatever identifiers the converter hands out, gives the
/// match back under those identifiers: its configuration, the two team names, the
/// players' names and jersey numbers in order, and every fact in export order with its
/// teams and players renamed to the identifiers the conversion gave them, when each
/// fact survives the export and no two exported players share an id.
pub proof fn lemma_export_convert_with_any_ids(
    d: SampleMatchDtoV2,
    m: Match,
    home: Team,
    away: Team,
    home_players: Seq<Player>,
    away_players: Seq<Player>,
    facts: Seq<MatchFact>,
    ids: Seq<u128>,
)
    requires
        match_exported(d, m, home, away, home_players, away_players, facts),
        facts.len() <= usize::MAX,
        forall|t: int|
            0 <= t < facts.len() ==> survives_export(#[trigger] facts[t], home.id, away.id, home_players + away_players),
        distinct_player_ids(home_players + away_players),
        ids.len() >= 3 + home_players.len() + away_players.len(),
    ensures
        spec_required_id_count(d) == 3 + home_players.len() + away_players.len(),
        spec_convert_outcome(d, None, ids) == Ok::<(MatchConfiguration, Seq<MatchFact>), DecodeErrorView>((
            m.configuration,
            in_export_order(facts).map_values(
                |f: MatchFact|
                    renamed_fact(
                        f,
                        home.id,
                        away.id,
                        spec_home_team(d, ids).id,
                        spec_away_team(d, ids).id,
                        home_players + away_players,
                        spec_converted_players(d, ids).map_values(|p: Player| p.id),
                    ),
            ),
        )),
        spec_home_team(d, ids).name == home.name,
        spec_away_team(d, ids).name == away.name,
        spec_converted_players(d, ids).len() == home_players.len() + away_players.len(),
        forall|k: int|
            0 <= k < home_players.len() + away_players.len() ==> {
                let back = #[trigger] spec_converted_players(d, ids)[k];
                let sent = (home_players + away_players)[k];
                &&& back.name == sent.name
                &&& back.jersey_number == sent.jersey_number
            },
{
    let hl = home_players.len() as int;
    let al = away_players.len() as int;
    let all = home_players + away_players;
    let nh = spec_home_team(d, ids).id;
    let na = spec_away_team(d, ids).id;
    let new_ids = spec_converted_players(d, ids).map_values(|p: Player| p.id);
    lemma_wire_names();
    lemma_export_order(facts);
    assert(home_len(d) == hl);
    assert(away_len(d) == al);

    // Every fact carries its id, so no identifier is spent on facts.
    assert forall|k: int| 0 <= k < d.facts@.len() implies (#[trigger] d.facts@[k]).fact_id is Some by {
        assert(fact_encoded(d.facts@[k], facts[export_order(facts)[k].index as int], home.id, away.id, all));
    }
    lemma_no_missing_ids(d.facts@);

    // The key tables read the exported keys as the new identifiers.
    let teams_table = spec_teams_by_key(d, ids);
    let players_table = spec_players_by_key(d, ids);
    assert(key_lookup(teams_table, "home"@) == Some(nh)) by {
        reveal_strlit("home");
        reveal_strlit("away");
        assert("home"@[0] != "away"@[0]);
        assert(teams_table.last().0@ == "away"@);
        assert(teams_table.drop_last().last() == teams_table[0]);
        assert(key_lookup(teams_table.drop_last(), "home"@) == Some(nh));
    }
    assert(key_lookup(teams_table, "away"@) == Some(na));
    assert(players_table.len() == all.len());
    assert(new_ids.len() == all.len());
    assert forall|j: int| 0 <= j < all.len() implies (#[trigger] players_table[j]).0@ == uuid_text(all[j].id.0, true)
        && players_table[j].1 == new_ids[j] by {
        if j < hl {
            assert(players_table[j] == spec_player_keys(d.teams.home, ids.subrange(1, 1 + hl))[j]);
            assert(d.teams.home.players@[j].key@ == uuid_text(home_players[j].id.0, true));
        } else {
            assert(players_table[j] == spec_player_keys(d.teams.away, ids.subrange(2 + hl, 2 + hl + al))[j - hl]);
            assert(d.teams.away.players@[j - hl].key@ == uuid_text(away_players[j - hl].id.0, true));
        }
    }
    assert forall|k: int| 0 <= k < all.len() implies key_lookup(players_table, uuid_text((#[trigger] all[k]).id.0, true))
        == Some(new_ids[k]) by {
        assert forall|j: int| 0 <= j < players_table.len() && (#[trigger] players_table[j]).0@ == uuid_text(all[k].id.0, true)
            implies players_table[j].1 == new_ids[k] by {
            lemma_uuid_text_injective(all[j].id.0, all[k].id.0, true);
            if j < k {
                assert(all[j].id != all[k].id);
            } else if j > k {
                assert(all[k].id != all[j].id);
            }
        }
        lemma_lookup_single_value(players_table, uuid_text(all[k].id.0, true), new_ids[k], k);
    }
    assert(tables_rename(teams_table, players_table, nh, na, all, new_ids));

    // The facts decode to the renamed facts in export order.
    let ordered = in_export_order(facts);
    assert forall|k: int| 0 <= k < facts.len() implies fact_encoded(#[trigger] d.facts@[k], ordered[k], home.id, away.id, all)
        && survives_export(ordered[k], home.id, away.id, all) by {
        let t = export_order(facts)[k].index as int;
        assert(0 <= t < facts.len());
        assert(survives_export(facts[t], home.id, away.id, all));
    }
    lemma_decode_exported_facts_renamed(
        d.facts@, ordered, home.id, away.id, nh, na, all, new_ids, teams_table, players_table, spec_fact_ids(d, ids), facts.len() as int,
    );
    assert(d.facts@.take(facts.len() as int) == d.facts@);
    assert(ordered.take(facts.len() as int) == ordered);

    lemma_configuration_round_trip(d.match_.configuration, m.configuration);
    assert(d.teams.home.name == home.name);
    assert(d.teams.away.name == away.name);
    assert forall|k: int| 0 <= k < hl + al implies {
        let back = #[trigger] spec_converted_players(d, ids)[k];
        &&& back.name == all[k].name
        &&& back.jersey_number == all[k].jersey_number
    } by {
        if k < hl {
            assert(d.teams.home.players@[k].name == home_players[k].name);
        } else {
            assert(d.teams.away.players@[k - hl].name == away_players[k - hl].name);
        }
    }
}

} // verus!
