//! Importing a sample match into an existing store.
//!
//! Two jobs: proposing how the teams and players of a file map onto what the store
//! already holds (exact and partial matches by jersey number and normalized name,
//! ranked options, default decisions), and planning the commit (which entities to
//! save, with which identifiers, and the facts in the order they are stored).
//!
//! Player decisions are kept as an association list from the file's player key to a
//! target; a later entry for the same key replaces an earlier one.

use vstd::prelude::*;

use crate::entities::{duplicate_opt_string, Match, Player, RosterSelection, Team};
use crate::facts::MatchFact;
use crate::ids::{MatchId, PlayerId, TeamId};
use crate::configuration::MatchConfiguration;
use crate::persistence_order::{persistence_sorted, sort_by_persistence_order};
use crate::sample_dto::converter::{
    fails_first_at, fresh_fact_ids, lemma_decode_facts_first_failure, lemma_decoded_facts_shape,
    decode_configuration, decode_facts, key_lookup, lookup_key, missing_fact_ids, outcome,
    spec_decode_configuration, spec_decode_facts, DecodeErrorView,
};
use crate::seqs::{first_index, lemma_first_index_is, lemma_first_index_none};
use crate::sample_dto::dtos::{SampleFactDtoV2, SampleMatchDecodeErrorV2, SampleMatchDtoV2, SamplePlayerDtoV2, SampleTeamDtoV2};
use crate::sorting::{sorted_seq, stable_arrangement, stable_sort, KeyOrder};
use crate::text::{
    chars_le, chars_of, collapse_separators, collapsed, is_unicode_whitespace, is_whitespace,
    lemma_collapsed_chars, lemma_collapsed_idempotent, lemma_collapsed_keeps_non_white, lemma_collapsed_shape,
    lemma_text_le_total, lemma_text_le_trans, without_white_space,
    string_of, text_le,
};

verus! {

// ── Targets and decisions ──

/// Whether a team of the file merges into a stored team or is created.
#[derive(Debug, Clone, Copy, PartialEq, Eq, Structural)]
pub enum TeamTarget {
    Existing { team_id: TeamId },
    CreateNew,
}

/// Whether a player of the file merges into a stored player or is created.
#[derive(Debug, Clone, Copy, PartialEq, Eq, Structural)]
pub enum PlayerTarget {
    Existing { player_id: PlayerId },
    CreateNew,
}

/// The user's decisions.  `players` maps a player key of the file (home and away
/// together) to its target.
#[derive(Debug, Clone, PartialEq)]
pub struct ImportDecisions {
    pub home_team: TeamTarget,
    pub away_team: TeamTarget,
    pub players: Vec<(String, PlayerTarget)>,
}

// ── Snapshot and options ──

/// What the store holds, as far as matching needs.  A player's team is its `team_id`.
#[derive(Debug, Clone, PartialEq)]
pub struct ExistingSnapshot {
    pub teams: Vec<Team>,
    pub players: Vec<Player>,
}

/// The stored players of a team, in snapshot order.
pub open spec fn players_of_team(players: Seq<Player>, team_id: TeamId) -> Seq<Player> {
    players.filter(|p: Player| p.team_id == team_id)
}

impl ExistingSnapshot {
    /// The stored players of a team, in snapshot order.
    pub fn players_in(&self, team_id: TeamId) -> (r: Vec<Player>)
        ensures
            r@ == players_of_team(self.players@, team_id),
    {
        let mut out: Vec<Player> = Vec::new();
        let mut i: usize = 0;
        while i < self.players.len()
            invariant
                i <= self.players@.len(),
                out@ == players_of_team(self.players@.take(i as int), team_id),
            decreases self.players@.len() - i,
        {
            proof {
                assert(self.players@.take(i + 1) == self.players@.take(i as int).push(self.players@[i as int]));
                self.players@.take(i as int).lemma_filter_push(self.players@[i as int], |p: Player| p.team_id == team_id);
            }
            if self.players[i].team_id == team_id {
                out.push(self.players[i].duplicate());
            }
            i += 1;
        }
        proof {
            assert(self.players@.take(self.players@.len() as int) == self.players@);
        }
        out
    }
}

/// A player of the file matched exactly (jersey number and normalized name) to a
/// stored player.
#[derive(Debug, Clone, PartialEq)]
pub struct ExactMatch {
    pub parsed_key: String,
    pub existing: Player,
}

/// The stored players that share the jersey number or the normalized name of a player
/// of the file.
#[derive(Debug, Clone, PartialEq)]
pub struct PartialMatch {
    pub parsed_key: String,
    pub candidates: Vec<Player>,
}

/// One choice offered for a team of the file; `existing == None` means creating a new
/// team.
#[derive(Debug, Clone, PartialEq)]
pub struct TeamOption {
    pub existing: Option<Team>,
    pub exact_matches: Vec<ExactMatch>,
    pub partial_matches: Vec<PartialMatch>,
    pub parsed_only: Vec<String>,
    pub existing_only: Vec<Player>,
}

impl TeamOption {
    /// The "create a new team" choice: every player of the file is new.
    pub fn new_team(parsed_keys: Vec<String>) -> (r: TeamOption)
        ensures
            r.existing is None,
            r.exact_matches@.len() == 0,
            r.partial_matches@.len() == 0,
            r.parsed_only@ == parsed_keys@,
            r.existing_only@.len() == 0,
    {
        TeamOption {
            existing: None,
            exact_matches: Vec::new(),
            partial_matches: Vec::new(),
            parsed_only: parsed_keys,
            existing_only: Vec::new(),
        }
    }
}

// ── Names ──

/// The canonical form of a name: each white-space character (the ideographic space
/// among them) read as a space, runs of spaces collapsed to one, none at either end.
pub open spec fn spec_normalize_name(name: Seq<char>) -> Seq<char> {
    collapsed(name.map_values(|c: char| if is_unicode_whitespace(c) { ' ' } else { c }), ' ')
}

/// Brings a player or team name into its canonical form.
///
/// Variant glyphs (髙 / 高 and the like) are left alone: telling them apart is left to
/// the person reviewing the merge.
pub fn normalize_name(name: &str) -> (r: String)
    ensures
        r@ == spec_normalize_name(name@),
{
    let cs = chars_of(name);
    let mut mapped: Vec<char> = Vec::new();
    let mut i: usize = 0;
    while i < cs.len()
        invariant
            i <= cs.len(),
            mapped@ == cs@.take(i as int).map_values(|c: char| if is_unicode_whitespace(c) { ' ' } else { c }),
        decreases cs.len() - i,
    {
        let c = cs[i];
        let m = if is_whitespace(c) {
            ' '
        } else {
            c
        };
        mapped.push(m);
        proof {
            assert(cs@.take(i + 1).map_values(|c: char| if is_unicode_whitespace(c) { ' ' } else { c })
                == cs@.take(i as int).map_values(|c: char| if is_unicode_whitespace(c) { ' ' } else { c }).push(m));
        }
        i += 1;
    }
    proof {
        assert(cs@.take(cs@.len() as int) == cs@);
    }
    let out = collapse_separators(mapped.as_slice(), ' ');
    string_of(out.as_slice())
}

/// A canonical name is its own canonical form: normalizing twice is normalizing once.
pub proof fn lemma_normalize_name_idempotent(name: Seq<char>)
    ensures
        spec_normalize_name(spec_normalize_name(name)) == spec_normalize_name(name),
{
    let f = |c: char| if is_unicode_whitespace(c) { ' ' } else { c };
    let m = name.map_values(f);
    let n = collapsed(m, ' ');
    assert(n == spec_normalize_name(name));
    lemma_collapsed_chars(m, ' ');
    assert forall|j: int| 0 <= j < n.len() implies #[trigger] f(n[j]) == n[j] by {
        if n[j] != ' ' {
            assert(m.contains(n[j]));
            let i = choose|i: int| 0 <= i < m.len() && m[i] == n[j];
            assert(m[i] == f(name[i]));
        }
    }
    assert(n.map_values(f) =~= n);
    lemma_collapsed_idempotent(m, ' ');
}

proof fn lemma_blank_spaces_keeps_non_white(name: Seq<char>)
    ensures
        without_white_space(name.map_values(|c: char| if is_unicode_whitespace(c) { ' ' } else { c }))
            == without_white_space(name),
    decreases name.len(),
{
    let f = |c: char| if is_unicode_whitespace(c) { ' ' } else { c };
    if name.len() > 0 {
        let t = name.drop_last();
        lemma_blank_spaces_keeps_non_white(t);
        assert(name.map_values(f) == t.map_values(f).push(f(name.last())));
        assert(name.map_values(f).drop_last() == t.map_values(f));
    }
}

/// The canonical form of a name holds no white space but single inner spaces: no
/// ideographic space, none at either end, never two in a row. Taking the white space
/// out of it gives what taking the white space out of the name gives.
pub proof fn lemma_normalize_name_shape(name: Seq<char>) -> (r: Seq<char>)
    ensures
        r == spec_normalize_name(name),
        forall|j: int| 0 <= j < r.len() ==> (is_unicode_whitespace(#[trigger] r[j]) ==> r[j] == ' '),
        forall|j: int| 0 <= j < r.len() ==> #[trigger] r[j] != '\u{3000}',
        r.len() > 0 ==> r[0] != ' ' && r[r.len() - 1] != ' ',
        forall|j: int| 0 <= j < r.len() - 1 && #[trigger] r[j] == ' ' ==> r[j + 1] != ' ',
        without_white_space(r) == without_white_space(name),
{
    let f = |c: char| if is_unicode_whitespace(c) { ' ' } else { c };
    let m = name.map_values(f);
    let r = collapsed(m, ' ');
    lemma_collapsed_chars(m, ' ');
    assert forall|j: int| 0 <= j < r.len() implies (is_unicode_whitespace(#[trigger] r[j]) ==> r[j] == ' ') by {
        if r[j] != ' ' {
            assert(m.contains(r[j]));
            let i = choose|i: int| 0 <= i < m.len() && m[i] == r[j];
            assert(m[i] == f(name[i]));
        }
    }
    assert forall|j: int| 0 <= j < r.len() implies #[trigger] r[j] != '\u{3000}' by {
        assert(is_unicode_whitespace('\u{3000}'));
        if is_unicode_whitespace(r[j]) {
            assert(r[j] == ' ');
        }
    }
    lemma_collapsed_shape(m, ' ');
    lemma_collapsed_keeps_non_white(m, ' ');
    lemma_blank_spaces_keeps_non_white(name);
    r
}

// ── Default decisions ──

pub open spec fn spec_team_target(option: TeamOption) -> TeamTarget {
    match option.existing {
        Some(team) => TeamTarget::Existing { team_id: team.id },
        None => TeamTarget::CreateNew,
    }
}

/// Merge into the offered team, or create one for the "new team" choice.
pub fn team_target(option: &TeamOption) -> (r: TeamTarget)
    ensures
        r == spec_team_target(*option),
{
    match &option.existing {
        Some(team) => TeamTarget::Existing { team_id: team.id },
        None => TeamTarget::CreateNew,
    }
}

/// Exact matches merge into their stored player.
pub open spec fn exact_entries(option: TeamOption) -> Seq<(String, PlayerTarget)> {
    option.exact_matches@.map_values(
        |e: ExactMatch| (e.parsed_key, PlayerTarget::Existing { player_id: e.existing.id }),
    )
}

/// Partial matches merge into their first candidate (none: create).
pub open spec fn partial_entries(option: TeamOption) -> Seq<(String, PlayerTarget)> {
    option.partial_matches@.map_values(
        |p: PartialMatch|
            (
                p.parsed_key,
                if p.candidates@.len() > 0 {
                    PlayerTarget::Existing { player_id: p.candidates@[0].id }
                } else {
                    PlayerTarget::CreateNew
                },
            ),
    )
}

/// Players only in the file are created.
pub open spec fn only_entries(option: TeamOption) -> Seq<(String, PlayerTarget)> {
    option.parsed_only@.map_values(|k: String| (k, PlayerTarget::CreateNew))
}

/// The decision entries an option implies, exact matches first.
pub open spec fn decision_entries(option: TeamOption) -> Seq<(String, PlayerTarget)> {
    exact_entries(option) + partial_entries(option) + only_entries(option)
}

fn push_decision_entries(out: &mut Vec<(String, PlayerTarget)>, option: &TeamOption)
    ensures
        final(out)@ == old(out)@ + decision_entries(*option),
{
    let ghost start = out@;
    let mut i: usize = 0;
    while i < option.exact_matches.len()
        invariant
            i <= option.exact_matches@.len(),
            out@ == start + exact_entries(*option).take(i as int),
        decreases option.exact_matches@.len() - i,
    {
        let e = &option.exact_matches[i];
        out.push((e.parsed_key.clone(), PlayerTarget::Existing { player_id: e.existing.id }));
        proof {
            let exact = exact_entries(*option);
            assert(exact.take(i + 1) == exact.take(i as int).push(exact[i as int]));
            assert(start + exact.take(i + 1) == (start + exact.take(i as int)).push(exact[i as int]));
        }
        i += 1;
    }
    proof {
        assert(exact_entries(*option).take(option.exact_matches@.len() as int) == exact_entries(*option));
    }
    let mut i: usize = 0;
    while i < option.partial_matches.len()
        invariant
            i <= option.partial_matches@.len(),
            out@ == start + exact_entries(*option) + partial_entries(*option).take(i as int),
        decreases option.partial_matches@.len() - i,
    {
        let p = &option.partial_matches[i];
        let target = if p.candidates.len() > 0 {
            PlayerTarget::Existing { player_id: p.candidates[0].id }
        } else {
            PlayerTarget::CreateNew
        };
        out.push((p.parsed_key.clone(), target));
        proof {
            let exact = exact_entries(*option);
            let partial = partial_entries(*option);
            assert(partial.take(i + 1) == partial.take(i as int).push(partial[i as int]));
            assert(start + exact + partial.take(i + 1) == (start + exact + partial.take(i as int)).push(partial[i as int]));
        }
        i += 1;
    }
    proof {
        assert(partial_entries(*option).take(option.partial_matches@.len() as int) == partial_entries(*option));
    }
    let mut i: usize = 0;
    while i < option.parsed_only.len()
        invariant
            i <= option.parsed_only@.len(),
            out@ == start + exact_entries(*option) + partial_entries(*option) + only_entries(*option).take(i as int),
        decreases option.parsed_only@.len() - i,
    {
        out.push((option.parsed_only[i].clone(), PlayerTarget::CreateNew));
        proof {
            let exact = exact_entries(*option);
            let partial = partial_entries(*option);
            let only = only_entries(*option);
            assert(only.take(i + 1) == only.take(i as int).push(only[i as int]));
            assert(start + exact + partial + only.take(i + 1) == (start + exact + partial + only.take(i as int)).push(only[i as int]));
        }
        i += 1;
    }
    proof {
        let exact = exact_entries(*option);
        let partial = partial_entries(*option);
        let only = only_entries(*option);
        assert(only.take(option.parsed_only@.len() as int) == only);
        assert(start + exact + partial + only == start + decision_entries(*option));
    }
}

/// The decisions that can be made without asking: each team as its option says,
/// players as [`decision_entries`] of the home option and then the away option.
pub fn default_decisions(home_option: &TeamOption, away_option: &TeamOption) -> (r: ImportDecisions)
    ensures
        r.home_team == spec_team_target(*home_option),
        r.away_team == spec_team_target(*away_option),
        r.players@ == decision_entries(*home_option) + decision_entries(*away_option),
{
    let mut players: Vec<(String, PlayerTarget)> = Vec::new();
    push_decision_entries(&mut players, home_option);
    push_decision_entries(&mut players, away_option);
    ImportDecisions { home_team: team_target(home_option), away_team: team_target(away_option), players }
}

// ── Matching the players of a file against a stored team ──

/// A stored player matches a player of the file exactly: the same jersey number (or
/// both none) and the same normalized name.
pub open spec fn exact_same(p: Player, jersey: Option<i64>, name: Seq<char>) -> bool {
    p.jersey_number == jersey && spec_normalize_name(p.name@) == spec_normalize_name(name)
}

/// The first stored player matching exactly, if any.
pub open spec fn first_exact(existing: Seq<Player>, jersey: Option<i64>, name: Seq<char>) -> Option<Player> {
    match first_index(existing, |p: Player| exact_same(p, jersey, name)) {
        Some(i) => Some(existing[i]),
        None => None,
    }
}

pub open spec fn ids_of(s: Seq<Player>) -> Seq<PlayerId> {
    s.map_values(|p: Player| p.id)
}

/// The players of `extra` appended to `cands` in order, skipping consumed ones and
/// ones whose id is already there.
pub open spec fn add_new_candidates(cands: Seq<Player>, extra: Seq<Player>, consumed: Seq<PlayerId>) -> Seq<Player>
    decreases extra.len(),
{
    if extra.len() == 0 {
        cands
    } else {
        let c = add_new_candidates(cands, extra.drop_last(), consumed);
        let p = extra.last();
        if !consumed.contains(p.id) && !ids_of(c).contains(p.id) {
            c.push(p)
        } else {
            c
        }
    }
}

pub open spec fn same_jersey(p: Player, jersey: Option<i64>) -> bool {
    jersey is Some && p.jersey_number == jersey
}

pub open spec fn same_name(p: Player, name: Seq<char>) -> bool {
    spec_normalize_name(p.name@) == spec_normalize_name(name)
}

/// The partial-match candidates of a player of the file: the unconsumed stored players
/// with its jersey number, then those with its normalized name not listed yet.
pub open spec fn candidates_for(existing: Seq<Player>, consumed: Seq<PlayerId>, jersey: Option<i64>, name: Seq<char>) -> Seq<Player> {
    add_new_candidates(
        existing.filter(|p: Player| same_jersey(p, jersey) && !consumed.contains(p.id)),
        existing.filter(|p: Player| same_name(p, name)),
        consumed,
    )
}

/// The matching so far: the stored players consumed by exact matches, the exact and
/// partial matches and the players found nowhere.
pub struct MergeState {
    pub consumed: Seq<PlayerId>,
    pub exact: Seq<ExactMatch>,
    pub partial: Seq<(String, Seq<Player>)>,
    pub parsed_only: Seq<String>,
}

/// One player of the file: an exact match with an unconsumed stored player consumes
/// it; otherwise the candidates make a partial match, or none makes the player new.
pub open spec fn merge_step(existing: Seq<Player>, st: MergeState, parsed: SamplePlayerDtoV2) -> MergeState {
    match first_exact(existing, parsed.jersey_number, parsed.name@) {
        Some(e) if !st.consumed.contains(e.id) => MergeState {
            consumed: st.consumed.push(e.id),
            exact: st.exact.push(ExactMatch { parsed_key: parsed.key, existing: e }),
            ..st
        },
        _ => {
            let c = candidates_for(existing, st.consumed, parsed.jersey_number, parsed.name@);
            if c.len() == 0 {
                MergeState { parsed_only: st.parsed_only.push(parsed.key), ..st }
            } else {
                MergeState { partial: st.partial.push((parsed.key, c)), ..st }
            }
        },
    }
}

/// The matching of the players of the file, in file order.
pub open spec fn merge_all(existing: Seq<Player>, parsed: Seq<SamplePlayerDtoV2>) -> MergeState
    decreases parsed.len(),
{
    if parsed.len() == 0 {
        MergeState { consumed: Seq::empty(), exact: Seq::empty(), partial: Seq::empty(), parsed_only: Seq::empty() }
    } else {
        merge_step(existing, merge_all(existing, parsed.drop_last()), parsed.last())
    }
}

/// A stored player is referenced when consumed or listed as a candidate.
pub open spec fn referenced(st: MergeState, id: PlayerId) -> bool {
    st.consumed.contains(id) || exists|k: int| 0 <= k < st.partial.len() && ids_of(st.partial[k].1).contains(id)
}

pub open spec fn partial_view(v: Seq<PartialMatch>) -> Seq<(String, Seq<Player>)> {
    v.map_values(|m: PartialMatch| (m.parsed_key, m.candidates@))
}

/// `o` is the option for merging the file's team into `team`, whose stored players are
/// `existing`.
pub open spec fn option_built(o: TeamOption, parsed_team: SampleTeamDtoV2, team: Team, existing: Seq<Player>) -> bool {
    let st = merge_all(existing, parsed_team.players@);
    &&& o.existing == Some(team)
    &&& o.exact_matches@ == st.exact
    &&& partial_view(o.partial_matches@) == st.partial
    &&& o.parsed_only@ == st.parsed_only
    &&& o.existing_only@ == existing.filter(|p: Player| !referenced(st, p.id))
}

fn contains_id(ids: &[PlayerId], id: PlayerId) -> (r: bool)
    ensures
        r == ids@.contains(id),
{
    let mut k: usize = 0;
    while k < ids.len()
        invariant
            k <= ids.len(),
            forall|j: int| 0 <= j < k ==> ids@[j] != id,
        decreases ids.len() - k,
    {
        if ids[k] == id {
            return true;
        }
        k += 1;
    }
    false
}

fn players_contain_id(ps: &[Player], id: PlayerId) -> (r: bool)
    ensures
        r == ids_of(ps@).contains(id),
{
    let mut k: usize = 0;
    while k < ps.len()
        invariant
            k <= ps.len(),
            forall|j: int| 0 <= j < k ==> ps@[j].id != id,
        decreases ps.len() - k,
    {
        if ps[k].id == id {
            proof {
                assert(ids_of(ps@)[k as int] == id);
            }
            return true;
        }
        k += 1;
    }
    proof {
        if ids_of(ps@).contains(id) {
            let j = choose|j: int| 0 <= j < ids_of(ps@).len() && ids_of(ps@)[j] == id;
            assert(ps@[j].id == id);
        }
    }
    false
}

fn first_exact_index(existing: &[Player], norms: &[String], jersey: Option<i64>, name: &String, parsed_name: Ghost<Seq<char>>) -> (r: Option<usize>)
    requires
        norms@.len() == existing@.len(),
        forall|k: int| 0 <= k < norms@.len() ==> (#[trigger] norms@[k])@ == spec_normalize_name(existing@[k].name@),
        name@ == spec_normalize_name(parsed_name@),
    ensures
        match r {
            Some(i) => i < existing@.len() && first_exact(existing@, jersey, parsed_name@) == Some(existing@[i as int]),
            None => first_exact(existing@, jersey, parsed_name@) is None,
        },
{
    let ghost f = |p: Player| exact_same(p, jersey, parsed_name@);
    let mut k: usize = 0;
    while k < existing.len()
        invariant
            k <= existing@.len(),
            norms@.len() == existing@.len(),
            forall|k: int| 0 <= k < norms@.len() ==> (#[trigger] norms@[k])@ == spec_normalize_name(existing@[k].name@),
            name@ == spec_normalize_name(parsed_name@),
            f == (|p: Player| exact_same(p, jersey, parsed_name@)),
            forall|j: int| 0 <= j < k ==> !f(#[trigger] existing@[j]),
        decreases existing@.len() - k,
    {
        if existing[k].jersey_number == jersey && norms[k] == *name {
            proof {
                lemma_first_index_is(existing@, f, k as int);
            }
            return Some(k);
        }
        k += 1;
    }
    proof {
        lemma_first_index_none(existing@, f);
    }
    None
}

fn candidates(
    existing: &[Player],
    norms: &[String],
    consumed: &[PlayerId],
    jersey: Option<i64>,
    name: &String,
    parsed_name: Ghost<Seq<char>>,
) -> (r: Vec<Player>)
    requires
        norms@.len() == existing@.len(),
        forall|k: int| 0 <= k < norms@.len() ==> (#[trigger] norms@[k])@ == spec_normalize_name(existing@[k].name@),
        name@ == spec_normalize_name(parsed_name@),
    ensures
        r@ == candidates_for(existing@, consumed@, jersey, parsed_name@),
{
    let ghost fj = |p: Player| same_jersey(p, jersey) && !consumed@.contains(p.id);
    let ghost fnm = |p: Player| same_name(p, parsed_name@);
    let mut out: Vec<Player> = Vec::new();
    let mut k: usize = 0;
    while k < existing.len()
        invariant
            k <= existing@.len(),
            fj == (|p: Player| same_jersey(p, jersey) && !consumed@.contains(p.id)),
            out@ == existing@.take(k as int).filter(fj),
        decreases existing@.len() - k,
    {
        proof {
            assert(existing@.take(k + 1) == existing@.take(k as int).push(existing@[k as int]));
            existing@.take(k as int).lemma_filter_push(existing@[k as int], fj);
        }
        let p = &existing[k];
        if jersey.is_some() && p.jersey_number == jersey && !contains_id(consumed, p.id) {
            out.push(p.duplicate());
        }
        k += 1;
    }
    proof {
        assert(existing@.take(existing@.len() as int) == existing@);
    }
    let ghost by_jersey = out@;
    let mut k: usize = 0;
    while k < existing.len()
        invariant
            k <= existing@.len(),
            norms@.len() == existing@.len(),
            forall|k: int| 0 <= k < norms@.len() ==> (#[trigger] norms@[k])@ == spec_normalize_name(existing@[k].name@),
            name@ == spec_normalize_name(parsed_name@),
            fnm == (|p: Player| same_name(p, parsed_name@)),
            out@ == add_new_candidates(by_jersey, existing@.take(k as int).filter(fnm), consumed@),
        decreases existing@.len() - k,
    {
        proof {
            assert(existing@.take(k + 1) == existing@.take(k as int).push(existing@[k as int]));
            existing@.take(k as int).lemma_filter_push(existing@[k as int], fnm);
            let ext = existing@.take(k as int).filter(fnm).push(existing@[k as int]);
            assert(ext.drop_last() == existing@.take(k as int).filter(fnm));
        }
        let p = &existing[k];
        if norms[k] == *name && !contains_id(consumed, p.id) && !players_contain_id(out.as_slice(), p.id) {
            out.push(p.duplicate());
        }
        k += 1;
    }
    proof {
        assert(existing@.take(existing@.len() as int) == existing@);
    }
    out
}

/// The option of merging the file's team into the stored team `existing`.
pub fn build_option(parsed_team: &SampleTeamDtoV2, existing: &Team, snapshot: &ExistingSnapshot) -> (r: TeamOption)
    ensures
        option_built(r, *parsed_team, *existing, players_of_team(snapshot.players@, existing.id)),
{
    let existing_players = snapshot.players_in(existing.id);
    let ghost ep = existing_players@;
    let mut norms: Vec<String> = Vec::new();
    let mut k: usize = 0;
    while k < existing_players.len()
        invariant
            k <= ep.len(),
            existing_players@ == ep,
            norms@.len() == k,
            forall|j: int| 0 <= j < k ==> (#[trigger] norms@[j])@ == spec_normalize_name(ep[j].name@),
        decreases ep.len() - k,
    {
        norms.push(normalize_name(existing_players[k].name.as_str()));
        k += 1;
    }

    let ghost parsed = parsed_team.players@;
    let mut consumed: Vec<PlayerId> = Vec::new();
    let mut exact_matches: Vec<ExactMatch> = Vec::new();
    let mut partial_matches: Vec<PartialMatch> = Vec::new();
    let mut parsed_only: Vec<String> = Vec::new();
    let mut i: usize = 0;
    while i < parsed_team.players.len()
        invariant
            i <= parsed.len(),
            parsed == parsed_team.players@,
            existing_players@ == ep,
            norms@.len() == ep.len(),
            forall|j: int| 0 <= j < norms@.len() ==> (#[trigger] norms@[j])@ == spec_normalize_name(ep[j].name@),
            consumed@ == merge_all(ep, parsed.take(i as int)).consumed,
            exact_matches@ == merge_all(ep, parsed.take(i as int)).exact,
            partial_view(partial_matches@) == merge_all(ep, parsed.take(i as int)).partial,
            parsed_only@ == merge_all(ep, parsed.take(i as int)).parsed_only,
        decreases parsed.len() - i,
    {
        let ghost before = merge_all(ep, parsed.take(i as int));
        proof {
            assert(parsed.take(i + 1).drop_last() == parsed.take(i as int));
            assert(parsed.take(i + 1).last() == parsed[i as int]);
        }
        let p = &parsed_team.players[i];
        let name = normalize_name(p.name.as_str());
        let found = first_exact_index(existing_players.as_slice(), norms.as_slice(), p.jersey_number, &name, Ghost(p.name@));
        let mut done = false;
        match found {
            Some(j) => {
                let e = &existing_players[j];
                if !contains_id(consumed.as_slice(), e.id) {
                    consumed.push(e.id);
                    exact_matches.push(ExactMatch { parsed_key: p.key.clone(), existing: e.duplicate() });
                    done = true;
                }
            },
            None => {},
        }
        if !done {
            let cands = candidates(
                existing_players.as_slice(),
                norms.as_slice(),
                consumed.as_slice(),
                p.jersey_number,
                &name,
                Ghost(p.name@),
            );
            if cands.len() == 0 {
                parsed_only.push(p.key.clone());
            } else {
                let ghost old_partial = partial_matches@;
                partial_matches.push(PartialMatch { parsed_key: p.key.clone(), candidates: cands });
                proof {
                    assert(partial_view(partial_matches@) == partial_view(old_partial).push((p.key, cands@)));
                }
            }
        }
        i += 1;
    }
    proof {
        assert(parsed.take(parsed.len() as int) == parsed);
    }
    let ghost st = merge_all(ep, parsed);

    let mut existing_only: Vec<Player> = Vec::new();
    let ghost f = |q: Player| !referenced(st, q.id);
    let mut k: usize = 0;
    while k < existing_players.len()
        invariant
            k <= ep.len(),
            existing_players@ == ep,
            consumed@ == st.consumed,
            partial_view(partial_matches@) == st.partial,
            f == (|q: Player| !referenced(st, q.id)),
            existing_only@ == ep.take(k as int).filter(f),
        decreases ep.len() - k,
    {
        proof {
            assert(ep.take(k + 1) == ep.take(k as int).push(ep[k as int]));
            ep.take(k as int).lemma_filter_push(ep[k as int], f);
        }
        let q = &existing_players[k];
        let mut seen = contains_id(consumed.as_slice(), q.id);
        let mut m: usize = 0;
        while m < partial_matches.len() && !seen
            invariant
                m <= partial_matches@.len(),
                partial_view(partial_matches@) == st.partial,
                seen == (st.consumed.contains(q.id) || exists|j: int| 0 <= j < m && ids_of(st.partial[j].1).contains(q.id)),
            decreases partial_matches@.len() - m,
        {
            proof {
                assert(st.partial[m as int].1 == partial_matches@[m as int].candidates@);
            }
            if players_contain_id(partial_matches[m].candidates.as_slice(), q.id) {
                seen = true;
            }
            m += 1;
        }
        proof {
            assert(seen == referenced(st, q.id));
        }
        if !seen {
            existing_only.push(q.duplicate());
        }
        k += 1;
    }
    proof {
        assert(ep.take(ep.len() as int) == ep);
    }
    TeamOption {
        existing: Some(existing.duplicate()),
        exact_matches,
        partial_matches,
        parsed_only,
        existing_only,
    }
}

/// Every player of the file lands in exactly one place (an exact match, a partial
/// match, or the players found nowhere), and no stored player is matched exactly
/// twice.
pub proof fn lemma_merge_classifies(existing: Seq<Player>, parsed: Seq<SamplePlayerDtoV2>)
    ensures
        merge_all(existing, parsed).exact.len() + merge_all(existing, parsed).partial.len()
            + merge_all(existing, parsed).parsed_only.len() == parsed.len(),
        merge_all(existing, parsed).consumed == merge_all(existing, parsed).exact.map_values(|e: ExactMatch| e.existing.id),
        forall|i: int, j: int|
            0 <= i < j < merge_all(existing, parsed).exact.len() ==> (#[trigger] merge_all(existing, parsed).exact[i]).existing.id
                != (#[trigger] merge_all(existing, parsed).exact[j]).existing.id,
    decreases parsed.len(),
{
    if parsed.len() > 0 {
        let prev = parsed.drop_last();
        lemma_merge_classifies(existing, prev);
        let st = merge_all(existing, prev);
        let next = merge_all(existing, parsed);
        assert(next == merge_step(existing, st, parsed.last()));
        match first_exact(existing, parsed.last().jersey_number, parsed.last().name@) {
            Some(e) => {
                if !st.consumed.contains(e.id) {
                    assert(next.exact == st.exact.push(ExactMatch { parsed_key: parsed.last().key, existing: e }));
                    assert(next.consumed =~= next.exact.map_values(|e: ExactMatch| e.existing.id));
                    assert forall|i: int, j: int| 0 <= i < j < next.exact.len() implies (#[trigger] next.exact[i]).existing.id
                        != (#[trigger] next.exact[j]).existing.id by {
                        if j == next.exact.len() - 1 {
                            assert(st.consumed[i] == st.exact[i].existing.id);
                        }
                    }
                }
            },
            None => {},
        }
    }
}

/// The default decisions of an option have one entry per player of the file the option
/// was built for.
pub proof fn lemma_decision_entries_cover(o: TeamOption, parsed_team: SampleTeamDtoV2, team: Team, existing: Seq<Player>)
    requires
        option_built(o, parsed_team, team, existing),
    ensures
        decision_entries(o).len() == parsed_team.players@.len(),
{
    lemma_merge_classifies(existing, parsed_team.players@);
    assert(partial_view(o.partial_matches@).len() == o.partial_matches@.len());
}

// ── Ranking the options ──

/// The rank of an option: more exact matches first, then more partial matches, then
/// by team name.  `index` is the team's position in the snapshot.
#[derive(Debug, Clone, PartialEq)]
pub struct OptionRank {
    pub exact: usize,
    pub partial: usize,
    pub name: String,
    pub index: usize,
}

impl KeyOrder for OptionRank {
    open spec fn key_le(self, other: Self) -> bool {
        if self.exact != other.exact {
            self.exact > other.exact
        } else if self.partial != other.partial {
            self.partial > other.partial
        } else {
            text_le(self.name@, other.name@)
        }
    }

    proof fn lemma_total(a: Self, b: Self) {
        lemma_text_le_total(a.name@, b.name@);
    }

    proof fn lemma_trans(a: Self, b: Self, c: Self) {
        if a.exact == b.exact && b.exact == c.exact && a.partial == b.partial && b.partial == c.partial {
            lemma_text_le_trans(a.name@, b.name@, c.name@);
        }
    }

    fn le(&self, other: &Self) -> (r: bool) {
        if self.exact != other.exact {
            self.exact > other.exact
        } else if self.partial != other.partial {
            self.partial > other.partial
        } else {
            let a = chars_of(self.name.as_str());
            let b = chars_of(other.name.as_str());
            chars_le(a.as_slice(), b.as_slice())
        }
    }
}

/// The rank of the option for the snapshot's `i`-th team.
pub open spec fn rank_of(parsed_team: SampleTeamDtoV2, teams: Seq<Team>, players: Seq<Player>, i: int) -> OptionRank {
    let st = merge_all(players_of_team(players, teams[i].id), parsed_team.players@);
    OptionRank { exact: st.exact.len() as usize, partial: st.partial.len() as usize, name: teams[i].name, index: i as usize }
}

/// The snapshot's teams in the order their options are offered.
pub open spec fn option_order(parsed_team: SampleTeamDtoV2, snapshot: ExistingSnapshot) -> Seq<OptionRank> {
    sorted_seq(Seq::new(snapshot.teams@.len(), |i: int| rank_of(parsed_team, snapshot.teams@, snapshot.players@, i)))
}

/// The keys of the players of a file's team.
pub open spec fn parsed_keys(parsed_team: SampleTeamDtoV2) -> Seq<String> {
    parsed_team.players@.map_values(|p: SamplePlayerDtoV2| p.key)
}

/// The team at position `t` of the snapshot is among the ranked options.
pub open spec fn offered(order: Seq<OptionRank>, t: int) -> bool {
    exists|k: int| 0 <= k < order.len() && order[k].index == t
}

/// The options are ranked and complete: every stored team is offered (the order has
/// one entry per team and names each team), and an option comes before a later one
/// when it has more exact matches, or as many and more partial matches, or as many of
/// both and a team name that sorts no later.
pub proof fn lemma_option_order(parsed_team: SampleTeamDtoV2, snapshot: ExistingSnapshot)
    ensures
        option_order(parsed_team, snapshot).len() == snapshot.teams@.len(),
        forall|t: int| 0 <= t < snapshot.teams@.len() ==> #[trigger] offered(option_order(parsed_team, snapshot), t),
        forall|i: int, j: int|
            0 <= i < j < option_order(parsed_team, snapshot).len() ==> (#[trigger] option_order(parsed_team, snapshot)[i]).key_le(
                #[trigger] option_order(parsed_team, snapshot)[j],
            ),
{
    broadcast use vstd::seq_lib::to_multiset_contains;

    let teams = snapshot.teams@;
    let ranks = Seq::new(teams.len(), |i: int| rank_of(parsed_team, teams, snapshot.players@, i));
    let order = option_order(parsed_team, snapshot);
    crate::sorting::lemma_sorted_seq_len(ranks);
    crate::sorting::lemma_sorted_seq_sorted(ranks);
    assert forall|t: int| 0 <= t < teams.len() implies #[trigger] offered(order, t) by {
        assert(snapshot.teams.len() == teams.len());
        assert(ranks[t].index == t);
        assert(ranks.to_multiset().count(ranks[t]) > 0);
        assert(order.contains(ranks[t]));
        let k = choose|k: int| 0 <= k < order.len() && order[k] == ranks[t];
        assert(order[k].index == t);
    }
}

/// The options for a team of the file: one per stored team, ranked (more exact matches
/// first, then more partial matches, then by team name; a stable order), and last the
/// choice of creating a new team.
pub fn find_team_options(parsed_team: &SampleTeamDtoV2, snapshot: &ExistingSnapshot) -> (r: Vec<TeamOption>)
    ensures
        r@.len() == snapshot.teams@.len() + 1,
        forall|k: int|
            0 <= k < snapshot.teams@.len() ==> option_built(
                #[trigger] r@[k],
                *parsed_team,
                snapshot.teams@[option_order(*parsed_team, *snapshot)[k].index as int],
                players_of_team(snapshot.players@, snapshot.teams@[option_order(*parsed_team, *snapshot)[k].index as int].id),
            ),
        r@[snapshot.teams@.len() as int].existing is None,
        r@[snapshot.teams@.len() as int].exact_matches@.len() == 0,
        r@[snapshot.teams@.len() as int].partial_matches@.len() == 0,
        r@[snapshot.teams@.len() as int].parsed_only@ == parsed_keys(*parsed_team),
        r@[snapshot.teams@.len() as int].existing_only@.len() == 0,
{
    let ghost teams = snapshot.teams@;
    let ghost ranks_all = Seq::new(teams.len(), |i: int| rank_of(*parsed_team, teams, snapshot.players@, i));
    let mut slots: Vec<Option<TeamOption>> = Vec::new();
    let mut ranks: Vec<OptionRank> = Vec::new();
    let mut i: usize = 0;
    while i < snapshot.teams.len()
        invariant
            i <= teams.len(),
            teams == snapshot.teams@,
            ranks_all == Seq::new(teams.len(), |i: int| rank_of(*parsed_team, teams, snapshot.players@, i)),
            slots@.len() == i,
            ranks@ == ranks_all.take(i as int),
            forall|j: int|
                0 <= j < i ==> ((#[trigger] slots@[j]) matches Some(o) && option_built(
                    o,
                    *parsed_team,
                    teams[j],
                    players_of_team(snapshot.players@, teams[j].id),
                )),
        decreases teams.len() - i,
    {
        let team = &snapshot.teams[i];
        let option = build_option(parsed_team, team, snapshot);
        ranks.push(OptionRank {
            exact: option.exact_matches.len(),
            partial: option.partial_matches.len(),
            name: team.name.clone(),
            index: i,
        });
        proof {
            let st = merge_all(players_of_team(snapshot.players@, teams[i as int].id), parsed_team.players@);
            assert(partial_view(option.partial_matches@).len() == option.partial_matches@.len());
            assert(ranks_all.take(i + 1) == ranks_all.take(i as int).push(ranks_all[i as int]));
        }
        slots.push(Some(option));
        i += 1;
    }
    proof {
        assert(ranks_all.take(teams.len() as int) == ranks_all);
    }
    let sorted = stable_sort(ranks);
    let ghost p = choose|p: Seq<int>| stable_arrangement(sorted@, ranks_all, p);
    proof {
        assert forall|k: int| 0 <= k < sorted@.len() implies (#[trigger] sorted@[k]).index == p[k] by {
            assert(sorted@[k] == ranks_all[p[k]]);
        }
    }
    let mut out: Vec<TeamOption> = Vec::new();
    let mut k: usize = 0;
    while k < sorted.len()
        invariant
            k <= sorted@.len(),
            sorted@.len() == teams.len(),
            teams == snapshot.teams@,
            sorted@ == option_order(*parsed_team, *snapshot),
            stable_arrangement(sorted@, ranks_all, p),
            forall|j: int| 0 <= j < sorted@.len() ==> (#[trigger] sorted@[j]).index == p[j],
            slots@.len() == teams.len(),
            forall|j: int|
                k <= j < sorted@.len() ==> ((#[trigger] slots@[p[j]]) matches Some(o) && option_built(
                    o,
                    *parsed_team,
                    teams[p[j]],
                    players_of_team(snapshot.players@, teams[p[j]].id),
                )),
            out@.len() == k,
            forall|j: int|
                0 <= j < k ==> option_built(
                    #[trigger] out@[j],
                    *parsed_team,
                    teams[sorted@[j].index as int],
                    players_of_team(snapshot.players@, teams[sorted@[j].index as int].id),
                ),
        decreases sorted@.len() - k,
    {
        let idx = sorted[k].index;
        let ghost old_slots = slots@;
        let taken = slots.remove(idx);
        slots.insert(idx, None);
        proof {
            assert(slots@ == old_slots.update(idx as int, None));
            assert forall|j: int| k + 1 <= j < sorted@.len() implies (#[trigger] slots@[p[j]]) == old_slots[p[j]] by {
                assert(p[j] != p[k as int]);
            }
        }
        match taken {
            Some(o) => out.push(o),
            None => {
                proof {
                    assert(false);
                }
            },
        }
        k += 1;
    }
    let mut keys: Vec<String> = Vec::new();
    let mut i: usize = 0;
    while i < parsed_team.players.len()
        invariant
            i <= parsed_team.players@.len(),
            keys@ == parsed_keys(*parsed_team).take(i as int),
        decreases parsed_team.players@.len() - i,
    {
        keys.push(parsed_team.players[i].key.clone());
        proof {
            assert(parsed_keys(*parsed_team).take(i + 1) == parsed_keys(*parsed_team).take(i as int).push(parsed_keys(*parsed_team)[i as int]));
        }
        i += 1;
    }
    proof {
        assert(parsed_keys(*parsed_team).take(parsed_team.players@.len() as int) == parsed_keys(*parsed_team));
    }
    out.push(TeamOption::new_team(keys));
    out
}

// ── Commit plan ──

/// What an import commit saves, and in which order.
#[derive(Debug, Clone, PartialEq)]
pub struct ImportCommitPlan {
    /// Only the teams created (a merged team is not saved); home before away.
    pub teams_to_save: Vec<Team>,
    /// Only the players created; home players before away players, each team in file
    /// order.
    pub players_to_save: Vec<Player>,
    pub match_: Match,
    /// In persistence order, not in file order.
    pub facts: Vec<MatchFact>,
    pub outcome: ImportCommitOutcome,
}

/// The tallies of a commit, for the summary screen.
#[derive(Debug, Clone, Copy, PartialEq, Eq, Structural)]
pub struct ImportCommitOutcome {
    pub match_id: MatchId,
    pub home_team_id: TeamId,
    pub away_team_id: TeamId,
    pub teams_created: u32,
    pub teams_reused: u32,
    pub players_created: u32,
    pub players_reused: u32,
    pub fact_count: u32,
}

/// A player of the file is created unless the decisions merge it into a stored player
/// (a key without a decision is created).
pub open spec fn player_is_new(decisions: Seq<(String, PlayerTarget)>, p: SamplePlayerDtoV2) -> bool {
    !(key_lookup(decisions, p.key@) matches Some(PlayerTarget::Existing { .. }))
}

/// The players of the file that are created, in order.
pub open spec fn new_players(decisions: Seq<(String, PlayerTarget)>, ps: Seq<SamplePlayerDtoV2>) -> Seq<SamplePlayerDtoV2> {
    ps.filter(|p: SamplePlayerDtoV2| player_is_new(decisions, p))
}

pub open spec fn team_is_new(t: TeamTarget) -> bool {
    t is CreateNew
}

/// The number of identifiers [`import_commit_plan`] consumes.
pub open spec fn spec_required_import_id_count(dto: SampleMatchDtoV2, decisions: ImportDecisions) -> int {
    (if team_is_new(decisions.home_team) { 1int } else { 0int }) + (if team_is_new(decisions.away_team) { 1int } else { 0int })
        + new_players(decisions.players@, dto.teams.home.players@).len()
        + new_players(decisions.players@, dto.teams.away.players@).len() + 1 + missing_fact_ids(dto.facts@)
}

fn count_new_players(decisions: &[(String, PlayerTarget)], ps: &[SamplePlayerDtoV2]) -> (r: usize)
    ensures
        r == new_players(decisions@, ps@).len(),
{
    let mut n: usize = 0;
    let mut i: usize = 0;
    while i < ps.len()
        invariant
            i <= ps@.len(),
            n == new_players(decisions@, ps@.take(i as int)).len(),
            n <= i,
        decreases ps@.len() - i,
    {
        proof {
            assert(ps@.take(i + 1) == ps@.take(i as int).push(ps@[i as int]));
            ps@.take(i as int).lemma_filter_push(ps@[i as int], |p: SamplePlayerDtoV2| player_is_new(decisions@, p));
        }
        match lookup_key(decisions, &ps[i].key) {
            Some(PlayerTarget::Existing { .. }) => {},
            _ => {
                n = n + 1;
            },
        }
        i += 1;
    }
    proof {
        assert(ps@.take(ps@.len() as int) == ps@);
    }
    n
}

/// The number of new identifiers [`import_commit_plan`] consumes: one per created team,
/// one per created player, one for the match and one per fact without an id of its
/// own.
pub fn required_import_id_count(dto: &SampleMatchDtoV2, decisions: &ImportDecisions) -> (r: usize)
    requires
        spec_required_import_id_count(*dto, *decisions) <= usize::MAX,
    ensures
        r == spec_required_import_id_count(*dto, *decisions),
{
    let teams: usize = (if decisions.home_team == TeamTarget::CreateNew { 1 } else { 0 })
        + (if decisions.away_team == TeamTarget::CreateNew { 1 } else { 0 });
    let home = count_new_players(decisions.players.as_slice(), dto.teams.home.players.as_slice());
    let away = count_new_players(decisions.players.as_slice(), dto.teams.away.players.as_slice());
    let mut missing: usize = 0;
    let mut i: usize = 0;
    while i < dto.facts.len()
        invariant
            i <= dto.facts@.len(),
            missing == missing_fact_ids(dto.facts@.take(i as int)),
            missing <= i,
        decreases dto.facts@.len() - i,
    {
        proof {
            assert(dto.facts@.take(i + 1).drop_last() == dto.facts@.take(i as int));
        }
        if dto.facts[i].fact_id.is_none() {
            missing = missing + 1;
        }
        i += 1;
    }
    proof {
        assert(dto.facts@.take(dto.facts@.len() as int) == dto.facts@);
    }
    teams + home + away + 1 + missing
}

/// The identifier of the `k`-th player of a team of the file: the stored player's when
/// merged, else the next new identifier (`ids[c]` for the team's first created player).
pub open spec fn resolved_player_id(
    decisions: Seq<(String, PlayerTarget)>,
    ps: Seq<SamplePlayerDtoV2>,
    k: int,
    ids: Seq<u128>,
    c: int,
) -> PlayerId {
    match key_lookup(decisions, ps[k].key@) {
        Some(PlayerTarget::Existing { player_id }) => player_id,
        _ => PlayerId(ids[c + new_players(decisions, ps.take(k)).len()]),
    }
}

/// The key table entries of a team's players.
pub open spec fn player_entries(
    decisions: Seq<(String, PlayerTarget)>,
    ps: Seq<SamplePlayerDtoV2>,
    ids: Seq<u128>,
    c: int,
) -> Seq<(String, PlayerId)> {
    Seq::new(ps.len(), |k: int| (ps[k].key, resolved_player_id(decisions, ps, k, ids, c)))
}

/// The players a team creates, the `m`-th taking `ids[c + m]`.
pub open spec fn created_players(
    decisions: Seq<(String, PlayerTarget)>,
    ps: Seq<SamplePlayerDtoV2>,
    team_id: TeamId,
    ids: Seq<u128>,
    c: int,
) -> Seq<Player> {
    let np = new_players(decisions, ps);
    Seq::new(
        np.len(),
        |m: int|
            Player { id: PlayerId(ids[c + m]), team_id, name: np[m].name, jersey_number: np[m].jersey_number, photo: None },
    )
}

pub open spec fn plan_home_team_id(decisions: ImportDecisions, ids: Seq<u128>) -> TeamId {
    match decisions.home_team {
        TeamTarget::Existing { team_id } => team_id,
        TeamTarget::CreateNew => TeamId(ids[0]),
    }
}

pub open spec fn plan_away_team_id(decisions: ImportDecisions, ids: Seq<u128>) -> TeamId {
    match decisions.away_team {
        TeamTarget::Existing { team_id } => team_id,
        TeamTarget::CreateNew => TeamId(ids[if team_is_new(decisions.home_team) { 1int } else { 0int }]),
    }
}

/// The identifiers taken by created teams.
pub open spec fn team_id_count(decisions: ImportDecisions) -> int {
    (if team_is_new(decisions.home_team) { 1int } else { 0int }) + (if team_is_new(decisions.away_team) { 1int } else { 0int })
}

/// The position in `ids` of the away team's first created player.
pub open spec fn away_players_start(dto: SampleMatchDtoV2, decisions: ImportDecisions) -> int {
    team_id_count(decisions) + new_players(decisions.players@, dto.teams.home.players@).len()
}

/// The position in `ids` of the match identifier.
pub open spec fn plan_match_id_index(dto: SampleMatchDtoV2, decisions: ImportDecisions) -> int {
    away_players_start(dto, decisions) + new_players(decisions.players@, dto.teams.away.players@).len()
}

pub open spec fn plan_teams_to_save(dto: SampleMatchDtoV2, decisions: ImportDecisions, ids: Seq<u128>) -> Seq<Team> {
    let home: Seq<Team> = if team_is_new(decisions.home_team) {
        seq![Team { id: plan_home_team_id(decisions, ids), name: dto.teams.home.name }]
    } else {
        Seq::empty()
    };
    let away: Seq<Team> = if team_is_new(decisions.away_team) {
        seq![Team { id: plan_away_team_id(decisions, ids), name: dto.teams.away.name }]
    } else {
        Seq::empty()
    };
    home + away
}

pub open spec fn plan_players_to_save(dto: SampleMatchDtoV2, decisions: ImportDecisions, ids: Seq<u128>) -> Seq<Player> {
    created_players(decisions.players@, dto.teams.home.players@, plan_home_team_id(decisions, ids), ids, team_id_count(decisions))
        + created_players(
        decisions.players@,
        dto.teams.away.players@,
        plan_away_team_id(decisions, ids),
        ids,
        away_players_start(dto, decisions),
    )
}

pub open spec fn plan_teams_by_key(dto: SampleMatchDtoV2, decisions: ImportDecisions, ids: Seq<u128>) -> Seq<(String, TeamId)> {
    seq![(dto.teams.home.key, plan_home_team_id(decisions, ids)), (dto.teams.away.key, plan_away_team_id(decisions, ids))]
}

pub open spec fn plan_players_by_key(dto: SampleMatchDtoV2, decisions: ImportDecisions, ids: Seq<u128>) -> Seq<(String, PlayerId)> {
    player_entries(decisions.players@, dto.teams.home.players@, ids, team_id_count(decisions))
        + player_entries(decisions.players@, dto.teams.away.players@, ids, away_players_start(dto, decisions))
}

/// The configuration and the facts (in persistence order) of a commit, or its first
/// failure: the configuration, then the facts in file order.
pub open spec fn spec_import_outcome(
    dto: SampleMatchDtoV2,
    decisions: ImportDecisions,
    ids: Seq<u128>,
) -> Result<(MatchConfiguration, Seq<MatchFact>), DecodeErrorView> {
    match spec_decode_configuration(dto.match_.configuration) {
        Err(e) => Err(e),
        Ok(c) => match spec_decode_facts(
            dto.facts@,
            plan_teams_by_key(dto, decisions, ids),
            plan_players_by_key(dto, decisions, ids),
            ids.subrange(plan_match_id_index(dto, decisions) + 1, ids.len() as int),
        ) {
            Err(e) => Err(e),
            Ok(facts) => Ok((c, persistence_sorted(facts))),
        },
    }
}

fn resolve_team(
    target: TeamTarget,
    parsed_team: &SampleTeamDtoV2,
    ids: &[u128],
    cursor: usize,
    to_save: &mut Vec<Team>,
) -> (r: TeamId)
    requires
        target is CreateNew ==> cursor < ids@.len(),
    ensures
        r == (match target {
            TeamTarget::Existing { team_id } => team_id,
            TeamTarget::CreateNew => TeamId(ids@[cursor as int]),
        }),
        final(to_save)@ == if target is CreateNew {
            old(to_save)@.push(Team { id: r, name: parsed_team.name })
        } else {
            old(to_save)@
        },
{
    match target {
        TeamTarget::Existing { team_id } => team_id,
        TeamTarget::CreateNew => {
            let team = Team { id: TeamId(ids[cursor]), name: parsed_team.name.clone() };
            let id = team.id;
            to_save.push(team);
            id
        },
    }
}

fn resolve_players(
    parsed_team: &SampleTeamDtoV2,
    team_id: TeamId,
    decisions: &[(String, PlayerTarget)],
    ids: &[u128],
    cursor: usize,
    keys: &mut Vec<(String, PlayerId)>,
    to_save: &mut Vec<Player>,
)
    requires
        cursor + new_players(decisions@, parsed_team.players@).len() <= ids@.len(),
    ensures
        final(keys)@ == old(keys)@ + player_entries(decisions@, parsed_team.players@, ids@, cursor as int),
        final(to_save)@ == old(to_save)@ + created_players(decisions@, parsed_team.players@, team_id, ids@, cursor as int),
{
    let ghost ps = parsed_team.players@;
    let ghost keys0 = keys@;
    let ghost save0 = to_save@;
    let n_ids = ids.len();
    let mut used: usize = 0;
    let mut i: usize = 0;
    while i < parsed_team.players.len()
        invariant
            i <= ps.len(),
            ps == parsed_team.players@,
            n_ids == ids@.len(),
            cursor + new_players(decisions@, ps).len() <= ids@.len(),
            used == new_players(decisions@, ps.take(i as int)).len(),
            keys@ == keys0 + player_entries(decisions@, ps, ids@, cursor as int).take(i as int),
            to_save@ == save0 + created_players(decisions@, ps, team_id, ids@, cursor as int).take(used as int),
        decreases ps.len() - i,
    {
        let ghost entries = player_entries(decisions@, ps, ids@, cursor as int);
        let ghost created = created_players(decisions@, ps, team_id, ids@, cursor as int);
        let ghost f = |p: SamplePlayerDtoV2| player_is_new(decisions@, p);
        proof {
            assert(ps.take(i + 1) == ps.take(i as int).push(ps[i as int]));
            ps.take(i as int).lemma_filter_push(ps[i as int], f);
            lemma_new_players_prefix(decisions@, ps, i as int);
        }
        let p = &parsed_team.players[i];
        match lookup_key(decisions, &p.key) {
            Some(PlayerTarget::Existing { player_id }) => {
                keys.push((p.key.clone(), player_id));
                proof {
                    assert(entries.take(i + 1) == entries.take(i as int).push(entries[i as int]));
                    assert(keys0 + entries.take(i + 1) == (keys0 + entries.take(i as int)).push(entries[i as int]));
                }
            },
            _ => {
                let id = PlayerId(ids[cursor + used]);
                keys.push((p.key.clone(), id));
                to_save.push(Player {
                    id,
                    team_id,
                    name: p.name.clone(),
                    jersey_number: p.jersey_number,
                    photo: None,
                });
                proof {
                    assert(entries.take(i + 1) == entries.take(i as int).push(entries[i as int]));
                    assert(keys0 + entries.take(i + 1) == (keys0 + entries.take(i as int)).push(entries[i as int]));
                    let np = new_players(decisions@, ps);
                    assert(np[used as int] == ps[i as int]);
                    assert(created.take(used + 1) == created.take(used as int).push(created[used as int]));
                    assert(save0 + created.take(used + 1) == (save0 + created.take(used as int)).push(created[used as int]));
                }
                used = used + 1;
            },
        }
        i += 1;
    }
    proof {
        assert(ps.take(ps.len() as int) == ps);
        let entries = player_entries(decisions@, ps, ids@, cursor as int);
        let created = created_players(decisions@, ps, team_id, ids@, cursor as int);
        assert(entries.take(ps.len() as int) == entries);
        assert(created.take(created.len() as int) == created);
    }
}

/// The created players of a prefix are a prefix of the created players: the `m`-th
/// created player of `ps.take(i)` is the `m`-th of `ps`, and when `ps[i]` is created
/// it comes next.
proof fn lemma_new_players_prefix(decisions: Seq<(String, PlayerTarget)>, ps: Seq<SamplePlayerDtoV2>, i: int)
    requires
        0 <= i < ps.len(),
    ensures
        new_players(decisions, ps.take(i)).len() <= new_players(decisions, ps).len(),
        player_is_new(decisions, ps[i]) ==> new_players(decisions, ps.take(i)).len() < new_players(decisions, ps).len()
            && new_players(decisions, ps)[new_players(decisions, ps.take(i)).len() as int] == ps[i],
{
    let f = |p: SamplePlayerDtoV2| player_is_new(decisions, p);
    assert(ps.take(i + 1) == ps.take(i).push(ps[i]));
    ps.take(i).lemma_filter_push(ps[i], f);
    lemma_filter_prefix(ps, f, i);
    lemma_filter_prefix(ps, f, i + 1);
    if f(ps[i]) {
        let a = ps.take(i).filter(f);
        let b = ps.take(i + 1).filter(f);
        let full = ps.filter(f);
        assert(b == a.push(ps[i]));
        assert(full.take(b.len() as int) == b);
        assert(full[a.len() as int] == full.take(b.len() as int)[a.len() as int]);
    }
}

/// Filtering a prefix gives a prefix of the filtered sequence.
proof fn lemma_filter_prefix<A>(s: Seq<A>, f: spec_fn(A) -> bool, n: int)
    requires
        0 <= n <= s.len(),
    ensures
        s.take(n).filter(f).len() <= s.filter(f).len(),
        s.filter(f).take(s.take(n).filter(f).len() as int) == s.take(n).filter(f),
    decreases s.len() - n,
{
    if n == s.len() {
        assert(s.take(n) == s);
    } else {
        lemma_filter_prefix(s, f, n + 1);
        assert(s.take(n + 1) == s.take(n).push(s[n]));
        s.take(n).lemma_filter_push(s[n], f);
        let a = s.take(n).filter(f);
        let b = s.take(n + 1).filter(f);
        let full = s.filter(f);
        assert(full.take(b.len() as int) == b);
        if f(s[n]) {
            assert(b == a.push(s[n]));
            assert(full.take(a.len() as int) == b.take(a.len() as int));
            assert(b.take(a.len() as int) == a);
        }
    }
}

/// A created player's identifier lies among those handed to its team's players.
proof fn lemma_resolved_id_in_range(decisions: Seq<(String, PlayerTarget)>, ps: Seq<SamplePlayerDtoV2>, k: int)
    requires
        0 <= k < ps.len(),
        player_is_new(decisions, ps[k]),
    ensures
        new_players(decisions, ps.take(k)).len() < new_players(decisions, ps).len(),
{
    let f = |p: SamplePlayerDtoV2| player_is_new(decisions, p);
    lemma_filter_prefix(ps, f, k + 1);
    assert(ps.take(k + 1) == ps.take(k).push(ps[k]));
    ps.take(k).lemma_filter_push(ps[k], f);
}

proof fn lemma_team_tables_agree(
    decisions: Seq<(String, PlayerTarget)>,
    ps: Seq<SamplePlayerDtoV2>,
    team_id: TeamId,
    a: Seq<u128>,
    b: Seq<u128>,
    c: int,
)
    requires
        0 <= c,
        c + new_players(decisions, ps).len() <= a.len(),
        c + new_players(decisions, ps).len() <= b.len(),
        forall|k: int| c <= k < c + new_players(decisions, ps).len() ==> a[k] == b[k],
    ensures
        player_entries(decisions, ps, a, c) == player_entries(decisions, ps, b, c),
        created_players(decisions, ps, team_id, a, c) == created_players(decisions, ps, team_id, b, c),
{
    assert forall|k: int| 0 <= k < ps.len() implies resolved_player_id(decisions, ps, k, a, c) == resolved_player_id(
        decisions,
        ps,
        k,
        b,
        c,
    ) by {
        if player_is_new(decisions, ps[k]) {
            lemma_resolved_id_in_range(decisions, ps, k);
        }
    }
    assert(player_entries(decisions, ps, a, c) =~= player_entries(decisions, ps, b, c));
    assert(created_players(decisions, ps, team_id, a, c) =~= created_players(decisions, ps, team_id, b, c));
}

/// An import consumes exactly the first [`spec_required_import_id_count`] identifiers:
/// identifiers past them change nothing of the plan.
pub proof fn lemma_import_consumes_required_ids(dto: SampleMatchDtoV2, decisions: ImportDecisions, a: Seq<u128>, b: Seq<u128>)
    requires
        spec_required_import_id_count(dto, decisions) <= a.len(),
        spec_required_import_id_count(dto, decisions) <= b.len(),
        a.take(spec_required_import_id_count(dto, decisions)) == b.take(spec_required_import_id_count(dto, decisions)),
    ensures
        spec_import_outcome(dto, decisions, a) == spec_import_outcome(dto, decisions, b),
        plan_teams_to_save(dto, decisions, a) == plan_teams_to_save(dto, decisions, b),
        plan_players_to_save(dto, decisions, a) == plan_players_to_save(dto, decisions, b),
        plan_home_team_id(decisions, a) == plan_home_team_id(decisions, b),
        plan_away_team_id(decisions, a) == plan_away_team_id(decisions, b),
        a[plan_match_id_index(dto, decisions)] == b[plan_match_id_index(dto, decisions)],
{
    let n = spec_required_import_id_count(dto, decisions);
    assert forall|k: int| 0 <= k < n implies a[k] == b[k] by {
        assert(a[k] == a.take(n)[k]);
        assert(b[k] == b.take(n)[k]);
    }
    let t = team_id_count(decisions);
    let hs = away_players_start(dto, decisions);
    let mi = plan_match_id_index(dto, decisions);
    lemma_team_tables_agree(decisions.players@, dto.teams.home.players@, plan_home_team_id(decisions, a), a, b, t);
    lemma_team_tables_agree(decisions.players@, dto.teams.away.players@, plan_away_team_id(decisions, a), a, b, hs);
    assert(plan_players_by_key(dto, decisions, a) == plan_players_by_key(dto, decisions, b));
    assert(plan_teams_by_key(dto, decisions, a) == plan_teams_by_key(dto, decisions, b));
    let fa = a.subrange(mi + 1, a.len() as int);
    let fb = b.subrange(mi + 1, b.len() as int);
    let m = missing_fact_ids(dto.facts@) as int;
    assert(fa.take(m) == fb.take(m)) by {
        assert forall|k: int| 0 <= k < m implies fa.take(m)[k] == fb.take(m)[k] by {
            assert(fa[k] == a[mi + 1 + k]);
            assert(fb[k] == b[mi + 1 + k]);
        }
    }
    crate::sample_dto::converter::lemma_decode_facts_leading_ids(
        dto.facts@,
        plan_teams_by_key(dto, decisions, a),
        plan_players_by_key(dto, decisions, a),
        fa,
        fb,
    );
}

/// The identifiers left for the facts of an import that carry none.
pub open spec fn plan_fact_ids(dto: SampleMatchDtoV2, decisions: ImportDecisions, ids: Seq<u128>) -> Seq<u128> {
    ids.subrange(plan_match_id_index(dto, decisions) + 1, ids.len() as int)
}

/// An import fails exactly with the configuration's error, or, when the configuration
/// decodes, with the error of the first file fact that fails to decode on its own.
pub proof fn lemma_import_first_failure(dto: SampleMatchDtoV2, decisions: ImportDecisions, ids: Seq<u128>, e: DecodeErrorView)
    ensures
        spec_import_outcome(dto, decisions, ids) == Err::<(MatchConfiguration, Seq<MatchFact>), DecodeErrorView>(e) <==> (
        spec_decode_configuration(dto.match_.configuration) == Err::<MatchConfiguration, DecodeErrorView>(e) || (
        spec_decode_configuration(dto.match_.configuration) is Ok && exists|i: int|
            #[trigger] fails_first_at(
                dto.facts@,
                plan_teams_by_key(dto, decisions, ids),
                plan_players_by_key(dto, decisions, ids),
                plan_fact_ids(dto, decisions, ids),
                i,
                e,
            ))),
{
    lemma_decode_facts_first_failure(
        dto.facts@,
        plan_teams_by_key(dto, decisions, ids),
        plan_players_by_key(dto, decisions, ids),
        plan_fact_ids(dto, decisions, ids),
    );
}

/// The identifiers an import gives out, in order: created teams, created players, the
/// match, then the facts that carry no id (in file order).
pub open spec fn import_handed_out_ids(dto: SampleMatchDtoV2, decisions: ImportDecisions, ids: Seq<u128>) -> Seq<u128> {
    let decoded = spec_decode_facts(
        dto.facts@,
        plan_teams_by_key(dto, decisions, ids),
        plan_players_by_key(dto, decisions, ids),
        plan_fact_ids(dto, decisions, ids),
    )->Ok_0;
    plan_teams_to_save(dto, decisions, ids).map_values(|t: Team| t.id.0) + plan_players_to_save(dto, decisions, ids).map_values(
        |p: Player| p.id.0,
    ) + seq![ids[plan_match_id_index(dto, decisions)]] + fresh_fact_ids(dto.facts@, decoded)
}

/// A successful import gives out exactly the first
/// [`spec_required_import_id_count`] identifiers, each once, in the documented order.
pub proof fn lemma_import_hands_out_required_ids(dto: SampleMatchDtoV2, decisions: ImportDecisions, ids: Seq<u128>)
    requires
        spec_required_import_id_count(dto, decisions) <= ids.len(),
        spec_import_outcome(dto, decisions, ids) is Ok,
    ensures
        import_handed_out_ids(dto, decisions, ids) == ids.take(spec_required_import_id_count(dto, decisions)),
{
    let t = team_id_count(decisions);
    let hs = away_players_start(dto, decisions);
    let mi = plan_match_id_index(dto, decisions);
    let n = spec_required_import_id_count(dto, decisions);
    let fids = plan_fact_ids(dto, decisions, ids);
    lemma_decoded_facts_shape(dto.facts@, plan_teams_by_key(dto, decisions, ids), plan_players_by_key(dto, decisions, ids), fids);
    assert(plan_teams_to_save(dto, decisions, ids).map_values(|t: Team| t.id.0) == ids.take(t));
    assert(plan_players_to_save(dto, decisions, ids).map_values(|p: Player| p.id.0) == ids.subrange(t, mi));
    assert(fids.take(missing_fact_ids(dto.facts@) as int) == ids.subrange(mi + 1, n));
    assert(import_handed_out_ids(dto, decisions, ids) == ids.take(n));
}

/// Plans an import commit from the file and the decisions.
///
/// A merged team or player lends its stored id to the match and the facts and is not
/// saved; a created one takes the next identifier of `new_ids` (created teams home
/// then away, created players home then away in file order, then the match, then one
/// per fact without an id of its own) and is saved.  A player key without a decision
/// is created.  The facts are returned in persistence order.
pub fn import_commit_plan(
    dto: &SampleMatchDtoV2,
    decisions: &ImportDecisions,
    new_ids: &[u128],
) -> (r: Result<ImportCommitPlan, SampleMatchDecodeErrorV2>)
    requires
        spec_required_import_id_count(*dto, *decisions) <= new_ids@.len(),
        dto.teams.home.players@.len() + dto.teams.away.players@.len() <= u32::MAX,
    ensures
        match r {
            Err(e) => spec_import_outcome(*dto, *decisions, new_ids@) == Err::<(MatchConfiguration, Seq<MatchFact>), DecodeErrorView>(e@),
            Ok(plan) => {
                &&& spec_import_outcome(*dto, *decisions, new_ids@)
                    == Ok::<(MatchConfiguration, Seq<MatchFact>), DecodeErrorView>((plan.match_.configuration, plan.facts@))
                &&& plan.teams_to_save@ == plan_teams_to_save(*dto, *decisions, new_ids@)
                &&& plan.players_to_save@ == plan_players_to_save(*dto, *decisions, new_ids@)
                &&& plan.match_.id == MatchId(new_ids@[plan_match_id_index(*dto, *decisions)])
                &&& plan.match_.title == dto.match_.display_name
                &&& plan.match_.date == dto.match_.date
                &&& plan.match_.home_team_id == plan_home_team_id(*decisions, new_ids@)
                &&& plan.match_.away_team_id == plan_away_team_id(*decisions, new_ids@)
                &&& plan.match_.roster_selection.benched_player_ids@ == Seq::<PlayerId>::empty()
                &&& plan.match_.roster_selection.out_of_roster_player_ids@ == Seq::<PlayerId>::empty()
                &&& plan.match_.is_home_on_left
                &&& plan.outcome.match_id == plan.match_.id
                &&& plan.outcome.home_team_id == plan_home_team_id(*decisions, new_ids@)
                &&& plan.outcome.away_team_id == plan_away_team_id(*decisions, new_ids@)
                &&& plan.outcome.teams_created == team_id_count(*decisions)
                &&& plan.outcome.teams_reused == 2 - team_id_count(*decisions)
                &&& plan.outcome.players_created == plan_players_to_save(*dto, *decisions, new_ids@).len()
                &&& plan.outcome.players_reused == dto.teams.home.players@.len() + dto.teams.away.players@.len()
                    - plan_players_to_save(*dto, *decisions, new_ids@).len()
                &&& plan.outcome.fact_count == plan.facts@.len() as u32
            },
        },
{
    let ghost ids = new_ids@;
    let n_ids = new_ids.len();
    proof {
        crate::seqs::lemma_count_where_bound(dto.facts@, |f: SampleFactDtoV2| f.fact_id is None);
        lemma_filter_prefix(dto.teams.home.players@, |p: SamplePlayerDtoV2| player_is_new(decisions.players@, p), 0);
        lemma_filter_prefix(dto.teams.away.players@, |p: SamplePlayerDtoV2| player_is_new(decisions.players@, p), 0);
        dto.teams.home.players@.lemma_filter_len(|p: SamplePlayerDtoV2| player_is_new(decisions.players@, p));
        dto.teams.away.players@.lemma_filter_len(|p: SamplePlayerDtoV2| player_is_new(decisions.players@, p));
    }
    let mut teams_to_save: Vec<Team> = Vec::new();
    let mut cursor: usize = 0;
    let home_team_id = resolve_team(decisions.home_team, &dto.teams.home, new_ids, cursor, &mut teams_to_save);
    if decisions.home_team == TeamTarget::CreateNew {
        cursor = cursor + 1;
    }
    let away_team_id = resolve_team(decisions.away_team, &dto.teams.away, new_ids, cursor, &mut teams_to_save);
    if decisions.away_team == TeamTarget::CreateNew {
        cursor = cursor + 1;
    }
    let teams_created: u32 = cursor as u32;
    proof {
        assert(teams_to_save@ == plan_teams_to_save(*dto, *decisions, ids));
    }

    let mut teams_by_key: Vec<(String, TeamId)> = Vec::new();
    teams_by_key.push((dto.teams.home.key.clone(), home_team_id));
    teams_by_key.push((dto.teams.away.key.clone(), away_team_id));

    let mut players_by_key: Vec<(String, PlayerId)> = Vec::new();
    let mut players_to_save: Vec<Player> = Vec::new();
    let home_new = count_new_players(decisions.players.as_slice(), dto.teams.home.players.as_slice());
    let away_new = count_new_players(decisions.players.as_slice(), dto.teams.away.players.as_slice());
    resolve_players(
        &dto.teams.home,
        home_team_id,
        decisions.players.as_slice(),
        new_ids,
        cursor,
        &mut players_by_key,
        &mut players_to_save,
    );
    let away_start = cursor + home_new;
    resolve_players(
        &dto.teams.away,
        away_team_id,
        decisions.players.as_slice(),
        new_ids,
        away_start,
        &mut players_by_key,
        &mut players_to_save,
    );
    let match_index = away_start + away_new;
    proof {
        assert(players_by_key@ == plan_players_by_key(*dto, *decisions, ids));
        assert(players_to_save@ == plan_players_to_save(*dto, *decisions, ids));
        assert(teams_by_key@ == plan_teams_by_key(*dto, *decisions, ids));
    }

    let configuration = match decode_configuration(&dto.match_.configuration) {
        Ok(c) => c,
        Err(e) => return Err(e),
    };
    let match_ = Match {
        id: MatchId(new_ids[match_index]),
        title: duplicate_opt_string(&dto.match_.display_name),
        date: dto.match_.date,
        home_team_id,
        away_team_id,
        configuration,
        roster_selection: RosterSelection::empty(),
        is_home_on_left: true,
    };

    let fact_ids = vstd::slice::slice_subrange(new_ids, match_index + 1, n_ids);
    proof {
        assert(match_index == plan_match_id_index(*dto, *decisions));
        assert(fact_ids@ == ids.subrange(plan_match_id_index(*dto, *decisions) + 1, ids.len() as int));
    }
    let mut facts = match decode_facts(dto.facts.as_slice(), teams_by_key.as_slice(), players_by_key.as_slice(), fact_ids) {
        Ok(f) => f,
        Err(e) => return Err(e),
    };
    sort_by_persistence_order(&mut facts);

    let total_players = dto.teams.home.players.len() + dto.teams.away.players.len();
    let players_created = players_to_save.len();
    let outcome = ImportCommitOutcome {
        match_id: match_.id,
        home_team_id,
        away_team_id,
        teams_created,
        teams_reused: 2 - teams_created,
        players_created: players_created as u32,
        players_reused: (total_players - players_created) as u32,
        fact_count: facts.len() as u32,
    };
    Ok(ImportCommitPlan { teams_to_save, players_to_save, match_, facts, outcome })
}

} // verus!
