//! The checks a published corpus of sample files must pass beyond decoding: index
//! ordering and naming, duplicate fact ids, stray range ends on plays, matches that
//! do not cover both halves, and the figures an index entry copies from its file.
//!
//! Each check returns what it found (positions, mismatches); turning findings into a
//! report is the shell's business.

use vstd::prelude::*;

use crate::clock::UtcDateTime;
use crate::configuration::{MatchConfiguration, PhaseKind};
use crate::facts::{ControlFact, MatchFact, MatchFactPayload};
use crate::projection::summary::{team_lines, SummaryProjection};
use crate::sample_dto::converter::SampleMatchConversionResult;
use crate::sample_dto::dtos::{SampleFactAnchorDtoV2, SampleFactDtoV2, SampleMatchDtoV2};
use crate::seqs::{count_where, lemma_count_where_step, positions_where};
use crate::text::{byte_prefix, byte_prefix_text, text_is};

verus! {

/// The stage a finding comes from.
#[derive(Debug, Clone, Copy, PartialEq, Eq, Structural)]
pub enum Stage {
    /// The file could not be read.
    Read,
    /// The JSON or the DTO could not be decoded.
    Decode,
    /// The DTO could not be converted into domain values.
    Convert,
    /// Domain validation.
    Domain,
    /// Index against files, and figures copied between them.
    Corpus,
}

/// What the checks of an index entry need from its match file.
#[derive(Debug, Clone, PartialEq)]
pub struct DerivedMatchInfo {
    pub home_score: i64,
    pub away_score: i64,
    pub fact_count: usize,
    /// The configuration is video or video highlights.
    pub has_video: bool,
    pub home_team_name: String,
    pub away_team_name: String,
}

pub open spec fn spec_has_video(c: MatchConfiguration) -> bool {
    c is Video || c is VideoHighlight
}

/// The figures of a converted match file: scores from its goals, its number of facts,
/// whether it has video, its team names.
pub fn derived_match_info(dto: &SampleMatchDtoV2, conversion: &SampleMatchConversionResult) -> (r: DerivedMatchInfo)
    requires
        conversion.facts@.len() <= i64::MAX,
    ensures
        r.home_score == team_lines(conversion.match_, conversion.facts@).0.goals,
        r.away_score == team_lines(conversion.match_, conversion.facts@).1.goals,
        r.fact_count == dto.facts@.len(),
        r.has_video == spec_has_video(conversion.match_.configuration),
        r.home_team_name == conversion.home_team.name,
        r.away_team_name == conversion.away_team.name,
{
    let summary = SummaryProjection::build(&conversion.match_, conversion.facts.as_slice());
    DerivedMatchInfo {
        home_score: summary.home_score,
        away_score: summary.away_score,
        fact_count: dto.facts.len(),
        has_video: match conversion.match_.configuration {
            MatchConfiguration::Video(_) | MatchConfiguration::VideoHighlight(_) => true,
            MatchConfiguration::Timer { .. } => false,
        },
        home_team_name: conversion.home_team.name.clone(),
        away_team_name: conversion.away_team.name.clone(),
    }
}

// ── Index arrays ──

/// The slugs taken by their characters.
pub open spec fn slug_views(slugs: Seq<String>) -> Seq<Seq<char>> {
    slugs.map_values(|s: String| s@)
}

/// Position `i` repeats the slug of an earlier entry.
pub open spec fn repeats_earlier(slugs: Seq<Seq<char>>, i: int) -> bool {
    exists|j: int| 0 <= j < i && slugs[j] == slugs[i]
}

/// The positions whose slug repeats an earlier one, ascending.
pub fn duplicate_slug_positions(slugs: &[String]) -> (r: Vec<usize>)
    ensures
        forall|k: int| 0 <= k < r@.len() ==> (#[trigger] r@[k]) < slugs@.len(),
        forall|k: int, l: int| 0 <= k < l < r@.len() ==> r@[k] < r@[l],
        forall|i: int|
            0 <= i < slugs@.len() ==> (r@.contains(i as usize) <==> #[trigger] repeats_earlier(slug_views(slugs@), i)),
        r@ == positions_where(slugs@.len() as int, |m: int| repeats_earlier(slug_views(slugs@), m)),
{
    let ghost views = slug_views(slugs@);
    let mut out: Vec<usize> = Vec::new();
    let mut i: usize = 0;
    while i < slugs.len()
        invariant
            i <= slugs@.len(),
            views == slug_views(slugs@),
            forall|k: int| 0 <= k < out@.len() ==> (#[trigger] out@[k]) < i,
            forall|k: int, l: int| 0 <= k < l < out@.len() ==> out@[k] < out@[l],
            forall|m: int| 0 <= m < i ==> (out@.contains(m as usize) <==> #[trigger] repeats_earlier(views, m)),
            out@ == positions_where(i as int, |m: int| repeats_earlier(slug_views(slugs@), m)),
        decreases slugs@.len() - i,
    {
        let mut j: usize = 0;
        let mut seen = false;
        while j < i && !seen
            invariant
                j <= i < slugs@.len(),
                views == slug_views(slugs@),
                seen == exists|m: int| 0 <= m < j && views[m] == views[i as int],
            decreases i - j,
        {
            proof {
                assert(views[j as int] == slugs@[j as int]@);
                assert(views[i as int] == slugs@[i as int]@);
            }
            if slugs[j] == slugs[i] {
                seen = true;
            }
            j += 1;
        }
        let ghost before = out@;
        if seen {
            out.push(i);
        }
        proof {
            assert(seen == repeats_earlier(views, i as int));
            assert forall|m: int| 0 <= m < i + 1 implies (out@.contains(m as usize) <==> #[trigger] repeats_earlier(views, m)) by {
                if m < i {
                    if out@.contains(m as usize) {
                        let k = choose|k: int| 0 <= k < out@.len() && out@[k] == m as usize;
                        if k == before.len() {
                            assert(out@[k] == i);
                        } else {
                            assert(before[k] == m as usize);
                        }
                    }
                    if before.contains(m as usize) {
                        let k = choose|k: int| 0 <= k < before.len() && before[k] == m as usize;
                        assert(out@[k] == m as usize);
                    }
                } else {
                    if seen {
                        assert(out@[before.len() as int] == i);
                    } else {
                        if out@.contains(m as usize) {
                            let k = choose|k: int| 0 <= k < out@.len() && out@[k] == m as usize;
                            assert(before[k] < i);
                        }
                    }
                }
            }
        }
        i += 1;
    }
    out
}

/// The date at `i` is later than the date before it.
pub open spec fn later_than_previous(dates: Seq<UtcDateTime>, i: int) -> bool {
    dates[i].unix_nanos > dates[i - 1].unix_nanos
}

/// The positions `i` (from 1) whose date is later than the date before it: an index
/// lists matches newest first (equal dates are fine).
pub fn date_order_violations(dates: &[UtcDateTime]) -> (r: Vec<usize>)
    ensures
        forall|k: int, l: int| 0 <= k < l < r@.len() ==> r@[k] < r@[l],
        forall|k: int| 0 <= k < r@.len() ==> 1 <= (#[trigger] r@[k]) < dates@.len(),
        forall|i: int|
            1 <= i < dates@.len() ==> (r@.contains(i as usize) <==> #[trigger] later_than_previous(dates@, i)),
        r@ == positions_where(dates@.len() as int, |m: int| m >= 1 && later_than_previous(dates@, m)),
{
    let mut out: Vec<usize> = Vec::new();
    let mut i: usize = 1;
    proof {
        assert(positions_where(0, |m: int| m >= 1 && later_than_previous(dates@, m)) == Seq::<usize>::empty());
        assert(positions_where(1, |m: int| m >= 1 && later_than_previous(dates@, m)) == Seq::<usize>::empty());
    }
    while i < dates.len()
        invariant
            1 <= i,
            i <= dates@.len() || i == 1,
            forall|k: int| 0 <= k < out@.len() ==> 1 <= (#[trigger] out@[k]) < i,
            forall|k: int, l: int| 0 <= k < l < out@.len() ==> out@[k] < out@[l],
            forall|m: int| 1 <= m < i && m < dates@.len() ==> (out@.contains(m as usize) <==> #[trigger] later_than_previous(dates@, m)),
            out@ == positions_where(if i <= dates@.len() { i as int } else { dates@.len() as int }, |m: int| m >= 1 && later_than_previous(dates@, m)),
        decreases dates@.len() - i,
    {
        let ghost before = out@;
        if dates[i].unix_nanos > dates[i - 1].unix_nanos {
            out.push(i);
        }
        proof {
            assert forall|m: int| 1 <= m < i + 1 && m < dates@.len() implies (out@.contains(m as usize) <==> #[trigger] later_than_previous(dates@, m)) by {
                if out@.contains(m as usize) {
                    let k = choose|k: int| 0 <= k < out@.len() && out@[k] == m as usize;
                    if k < before.len() {
                        assert(before[k] == m as usize);
                    }
                }
                if m < i && before.contains(m as usize) {
                    let k = choose|k: int| 0 <= k < before.len() && before[k] == m as usize;
                    assert(out@[k] == m as usize);
                }
                if m == i && later_than_previous(dates@, m) {
                    assert(out@[before.len() as int] == i);
                }
            }
        }
        i += 1;
    }
    out
}

/// A slug's first ten bytes are the date of its match, `yyyy-mm-dd` in UTC.
pub open spec fn slug_has_date_prefix(slug: Seq<char>, date: UtcDateTime) -> bool {
    match date.spec_date_label() {
        Some(label) => byte_prefix(slug, 10) == Some(label),
        None => false,
    }
}

/// Whether a slug's first ten bytes are the date of its match (`yyyy-mm-dd`, UTC).
pub fn slug_matches_date(slug: &str, date: UtcDateTime) -> (r: bool)
    ensures
        r == slug_has_date_prefix(slug@, date),
{
    let label = match date.date_label() {
        Some(l) => l,
        None => return false,
    };
    match byte_prefix_text(slug, 10) {
        Some(found) => found == label,
        None => false,
    }
}

// ── One match file ──

/// Position `i` carries a fact id that an earlier fact already carries.
pub open spec fn repeats_fact_id(facts: Seq<SampleFactDtoV2>, i: int) -> bool {
    facts[i].fact_id is Some && exists|j: int| 0 <= j < i && facts[j].fact_id == facts[i].fact_id
}

/// The positions of facts whose id repeats an earlier fact's (facts without an id are
/// never repeats), ascending.
pub fn duplicate_fact_id_positions(facts: &[SampleFactDtoV2]) -> (r: Vec<usize>)
    ensures
        forall|k: int, l: int| 0 <= k < l < r@.len() ==> r@[k] < r@[l],
        forall|k: int| 0 <= k < r@.len() ==> (#[trigger] r@[k]) < facts@.len(),
        forall|i: int| 0 <= i < facts@.len() ==> (r@.contains(i as usize) <==> repeats_fact_id(facts@, i)),
        r@ == positions_where(facts@.len() as int, |m: int| repeats_fact_id(facts@, m)),
{
    let mut out: Vec<usize> = Vec::new();
    let mut i: usize = 0;
    while i < facts.len()
        invariant
            i <= facts@.len(),
            forall|k: int| 0 <= k < out@.len() ==> (#[trigger] out@[k]) < i,
            forall|k: int, l: int| 0 <= k < l < out@.len() ==> out@[k] < out@[l],
            forall|m: int| 0 <= m < i ==> (out@.contains(m as usize) <==> repeats_fact_id(facts@, m)),
            out@ == positions_where(i as int, |m: int| repeats_fact_id(facts@, m)),
        decreases facts@.len() - i,
    {
        let mut seen = false;
        if facts[i].fact_id.is_some() {
            let mut j: usize = 0;
            while j < i && !seen
                invariant
                    j <= i < facts@.len(),
                    facts@[i as int].fact_id is Some,
                    seen == exists|m: int| 0 <= m < j && facts@[m].fact_id == facts@[i as int].fact_id,
                decreases i - j,
            {
                if facts[j].fact_id == facts[i].fact_id {
                    seen = true;
                }
                j += 1;
            }
        }
        let ghost before = out@;
        if seen {
            out.push(i);
        }
        proof {
            assert(seen == repeats_fact_id(facts@, i as int));
            assert forall|m: int| 0 <= m < i + 1 implies (out@.contains(m as usize) <==> repeats_fact_id(facts@, m)) by {
                if out@.contains(m as usize) {
                    let k = choose|k: int| 0 <= k < out@.len() && out@[k] == m as usize;
                    if k < before.len() {
                        assert(before[k] == m as usize);
                    }
                }
                if m < i && before.contains(m as usize) {
                    let k = choose|k: int| 0 <= k < before.len() && before[k] == m as usize;
                    assert(out@[k] == m as usize);
                }
                if m == i && seen {
                    assert(out@[before.len() as int] == i);
                }
            }
        }
        i += 1;
    }
    out
}

/// The kind and anchor of a play or possession fact (by its `kind`, with its body
/// present): the facts that are points in time.
pub open spec fn point_anchor(f: SampleFactDtoV2) -> Option<(Seq<char>, SampleFactAnchorDtoV2)> {
    if f.payload.kind@ == "play"@ {
        match f.payload.play {
            Some(p) => Some(("play"@, p.anchor)),
            None => None,
        }
    } else if f.payload.kind@ == "possession"@ {
        match f.payload.possession {
            Some(p) => Some(("possession"@, p.anchor)),
            None => None,
        }
    } else {
        None
    }
}

/// A play or possession whose anchor carries an end reading: range ends belong to phase
/// starts and stoppages only, and the converter drops them from plays and possessions
/// without a word.
pub open spec fn point_has_anchor_end(f: SampleFactDtoV2) -> bool {
    match point_anchor(f) {
        Some((_, a)) => a.end_match_elapsed_seconds is Some || a.end_video_elapsed_seconds is Some,
        None => false,
    }
}

/// The kind and anchor of a play or possession fact.
pub fn point_anchor_of(f: &SampleFactDtoV2) -> (r: Option<(&'static str, &SampleFactAnchorDtoV2)>)
    ensures
        match r {
            Some((k, a)) => point_anchor(*f) == Some((k@, *a)),
            None => point_anchor(*f) is None,
        },
{
    if text_is(f.payload.kind.as_str(), "play") {
        match &f.payload.play {
            Some(p) => Some(("play", &p.anchor)),
            None => None,
        }
    } else if text_is(f.payload.kind.as_str(), "possession") {
        match &f.payload.possession {
            Some(p) => Some(("possession", &p.anchor)),
            None => None,
        }
    } else {
        None
    }
}

/// The positions of plays and possessions whose anchor carries an end reading, ascending.
pub fn unexpected_anchor_end_positions(facts: &[SampleFactDtoV2]) -> (r: Vec<usize>)
    ensures
        forall|k: int, l: int| 0 <= k < l < r@.len() ==> r@[k] < r@[l],
        forall|k: int| 0 <= k < r@.len() ==> (#[trigger] r@[k]) < facts@.len(),
        forall|i: int| 0 <= i < facts@.len() ==> (r@.contains(i as usize) <==> point_has_anchor_end(facts@[i])),
        r@ == positions_where(facts@.len() as int, |m: int| point_has_anchor_end(facts@[m])),
{
    let mut out: Vec<usize> = Vec::new();
    let mut i: usize = 0;
    while i < facts.len()
        invariant
            i <= facts@.len(),
            forall|k: int| 0 <= k < out@.len() ==> (#[trigger] out@[k]) < i,
            forall|k: int, l: int| 0 <= k < l < out@.len() ==> out@[k] < out@[l],
            forall|m: int| 0 <= m < i ==> (out@.contains(m as usize) <==> point_has_anchor_end(facts@[m])),
            out@ == positions_where(i as int, |m: int| point_has_anchor_end(facts@[m])),
        decreases facts@.len() - i,
    {
        let f = &facts[i];
        let flagged = match point_anchor_of(f) {
            Some((_, a)) => a.end_match_elapsed_seconds.is_some() || a.end_video_elapsed_seconds.is_some(),
            None => false,
        };
        let ghost before = out@;
        if flagged {
            out.push(i);
        }
        proof {
            assert forall|m: int| 0 <= m < i + 1 implies (out@.contains(m as usize) <==> point_has_anchor_end(facts@[m])) by {
                if out@.contains(m as usize) {
                    let k = choose|k: int| 0 <= k < out@.len() && out@[k] == m as usize;
                    if k < before.len() {
                        assert(before[k] == m as usize);
                    }
                }
                if m < i && before.contains(m as usize) {
                    let k = choose|k: int| 0 <= k < before.len() && before[k] == m as usize;
                    assert(out@[k] == m as usize);
                }
                if m == i && flagged {
                    assert(out@[before.len() as int] == i);
                }
            }
        }
        i += 1;
    }
    out
}

/// A regular phase start.
pub open spec fn is_regular_phase_start(f: MatchFact) -> bool {
    f.payload matches MatchFactPayload::Control(ControlFact::PhaseStart(p)) && p.kind == PhaseKind::Regular
}

/// The number of regular phase starts.
pub fn regular_phase_count(facts: &[MatchFact]) -> (r: usize)
    ensures
        r == count_where(facts@, |f: MatchFact| is_regular_phase_start(f)),
{
    let mut n: usize = 0;
    let mut i: usize = 0;
    while i < facts.len()
        invariant
            i <= facts@.len(),
            n == count_where(facts@.take(i as int), |f: MatchFact| is_regular_phase_start(f)),
            n <= i,
        decreases facts@.len() - i,
    {
        proof {
            lemma_count_where_step(facts@, |f: MatchFact| is_regular_phase_start(f), i as int);
        }
        let regular = match &facts[i].payload {
            MatchFactPayload::Control(ControlFact::PhaseStart(p)) => p.kind == PhaseKind::Regular,
            _ => false,
        };
        if regular {
            n = n + 1;
        }
        i += 1;
    }
    proof {
        assert(facts@.take(facts@.len() as int) == facts@);
    }
    n
}

/// A full match (not highlights) should hold at least two regular phases (both
/// halves); fewer suggests a partial recording.  Returns the count when it is short.
pub fn incomplete_match_coverage(facts: &[MatchFact], configuration: &MatchConfiguration) -> (r: Option<usize>)
    ensures
        r == (if !(configuration is VideoHighlight)
            && count_where(facts@, |f: MatchFact| is_regular_phase_start(f)) < 2 {
            Some(count_where(facts@, |f: MatchFact| is_regular_phase_start(f)) as usize)
        } else {
            None::<usize>
        }),
{
    match configuration {
        MatchConfiguration::VideoHighlight(_) => None,
        _ => {
            let n = regular_phase_count(facts);
            if n < 2 {
                Some(n)
            } else {
                None
            }
        },
    }
}

// ── Index entries against the files on disk ──

/// What to do with an index entry when validating a corpus.
#[derive(Debug, Clone, Copy, PartialEq, Eq, Structural)]
pub enum EntryAction {
    /// Its file is missing: report it.
    Missing,
    /// An earlier entry with the same slug was already checked: skip it.
    Repeat,
    /// Read and validate its file.
    Check,
}

/// An earlier entry with the same slug had its file present.
pub open spec fn repeats_checked(slugs: Seq<Seq<char>>, present: Seq<bool>, i: int) -> bool {
    exists|j: int| 0 <= j < i && present[j] && slugs[j] == slugs[i]
}

/// The action for entry `i`, given which entries' files are present.
pub open spec fn spec_entry_action(slugs: Seq<Seq<char>>, present: Seq<bool>, i: int) -> EntryAction {
    if !present[i] {
        EntryAction::Missing
    } else if repeats_checked(slugs, present, i) {
        EntryAction::Repeat
    } else {
        EntryAction::Check
    }
}

/// The action for each index entry: report a missing file, skip a slug already
/// checked, or check the file.
pub fn entry_actions(slugs: &[String], present: &[bool]) -> (r: Vec<EntryAction>)
    requires
        slugs@.len() == present@.len(),
    ensures
        r@.len() == slugs@.len(),
        forall|i: int| 0 <= i < slugs@.len() ==> (#[trigger] r@[i]) == spec_entry_action(slug_views(slugs@), present@, i),
{
    let ghost views = slug_views(slugs@);
    let mut out: Vec<EntryAction> = Vec::new();
    let mut i: usize = 0;
    while i < slugs.len()
        invariant
            i <= slugs@.len(),
            slugs@.len() == present@.len(),
            views == slug_views(slugs@),
            out@.len() == i,
            forall|m: int| 0 <= m < i ==> (#[trigger] out@[m]) == spec_entry_action(views, present@, m),
        decreases slugs@.len() - i,
    {
        let action = if !present[i] {
            EntryAction::Missing
        } else {
            let mut j: usize = 0;
            let mut seen = false;
            while j < i && !seen
                invariant
                    j <= i < slugs@.len(),
                    slugs@.len() == present@.len(),
                    views == slug_views(slugs@),
                    seen == exists|m: int| 0 <= m < j && present@[m] && views[m] == views[i as int],
                decreases i - j,
            {
                proof {
                    assert(views[j as int] == slugs@[j as int]@);
                    assert(views[i as int] == slugs@[i as int]@);
                }
                if present[j] && slugs[j] == slugs[i] {
                    seen = true;
                }
                j += 1;
            }
            if seen {
                EntryAction::Repeat
            } else {
                EntryAction::Check
            }
        };
        out.push(action);
        i += 1;
    }
    out
}

proof fn lemma_present_entry_has_check(slugs: Seq<Seq<char>>, present: Seq<bool>, i: int)
    requires
        slugs.len() == present.len(),
        0 <= i < slugs.len(),
        present[i],
    ensures
        exists|k: int| 0 <= k <= i && slugs[k] == slugs[i] && #[trigger] spec_entry_action(slugs, present, k) == EntryAction::Check,
    decreases i,
{
    if repeats_checked(slugs, present, i) {
        let j = choose|j: int| 0 <= j < i && present[j] && slugs[j] == slugs[i];
        lemma_present_entry_has_check(slugs, present, j);
        let k = choose|k: int| 0 <= k <= j && slugs[k] == slugs[j] && #[trigger] spec_entry_action(slugs, present, k) == EntryAction::Check;
        assert(0 <= k <= i && slugs[k] == slugs[i]);
    } else {
        assert(spec_entry_action(slugs, present, i) == EntryAction::Check);
    }
}

/// Each file listed by an index is validated exactly once: two entries both marked
/// `Check` have different slugs, and every entry whose file is present shares its slug
/// with an entry, at or before it, marked `Check`.
pub proof fn lemma_each_listed_file_checked_once(slugs: Seq<Seq<char>>, present: Seq<bool>)
    requires
        slugs.len() == present.len(),
    ensures
        forall|i: int, j: int|
            0 <= i < j < slugs.len() && spec_entry_action(slugs, present, i) == EntryAction::Check
                && spec_entry_action(slugs, present, j) == EntryAction::Check ==> #[trigger] slugs[i] != #[trigger] slugs[j],
        forall|i: int|
            0 <= i < slugs.len() && #[trigger] present[i] ==> exists|k: int|
                0 <= k <= i && slugs[k] == slugs[i] && #[trigger] spec_entry_action(slugs, present, k) == EntryAction::Check,
{
    assert forall|i: int, j: int|
        0 <= i < j < slugs.len() && spec_entry_action(slugs, present, i) == EntryAction::Check
            && spec_entry_action(slugs, present, j) == EntryAction::Check implies #[trigger] slugs[i] != #[trigger] slugs[j] by {
        if slugs[i] == slugs[j] {
            assert(present[i]);
            assert(repeats_checked(slugs, present, j));
        }
    }
    assert forall|i: int| 0 <= i < slugs.len() && #[trigger] present[i] implies exists|k: int|
        0 <= k <= i && slugs[k] == slugs[i] && #[trigger] spec_entry_action(slugs, present, k) == EntryAction::Check by {
        lemma_present_entry_has_check(slugs, present, i);
    }
}

/// The positions of the names (file stems) that no listed slug matches, ascending: the
/// files no index entry lists.
pub fn unlisted_positions(listed: &[String], names: &[String]) -> (r: Vec<usize>)
    ensures
        r@ == positions_where(names@.len() as int, |m: int| !slug_views(listed@).contains(names@[m]@)),
{
    let ghost views = slug_views(listed@);
    let ghost p = |m: int| !slug_views(listed@).contains(names@[m]@);
    let mut out: Vec<usize> = Vec::new();
    let mut i: usize = 0;
    while i < names.len()
        invariant
            i <= names@.len(),
            views == slug_views(listed@),
            p == (|m: int| !slug_views(listed@).contains(names@[m]@)),
            out@ == positions_where(i as int, p),
        decreases names@.len() - i,
    {
        let mut j: usize = 0;
        let mut found = false;
        while j < listed.len() && !found
            invariant
                j <= listed@.len(),
                i < names@.len(),
                views == slug_views(listed@),
                found == exists|m: int| 0 <= m < j && views[m] == names@[i as int]@,
            decreases listed@.len() - j,
        {
            proof {
                assert(views[j as int] == listed@[j as int]@);
            }
            if listed[j] == names[i] {
                found = true;
            }
            j += 1;
        }
        proof {
            if found {
                let m = choose|m: int| 0 <= m < j && views[m] == names@[i as int]@;
                assert(views.contains(names@[i as int]@));
            } else {
                assert(!views.contains(names@[i as int]@)) by {
                    if views.contains(names@[i as int]@) {
                        let m = choose|m: int| 0 <= m < views.len() && views[m] == names@[i as int]@;
                        assert(m < j);
                    }
                }
            }
        }
        if !found {
            out.push(i);
        }
        i += 1;
    }
    out
}

} // verus!
