//! Validating one match file, one index, or an index entry against its file, with
//! the findings added to a report.
//!
//! The domain validators (match, configuration, per-fact and whole-log rules) are not
//! part of this library; the findings here are those of the file-level checks and of
//! the conversion.

use vstd::prelude::*;

use crate::clock::UtcDateTime;
use crate::configuration::MatchConfiguration;
use crate::corpus::checks::{
    date_order_violations, derived_match_info, duplicate_fact_id_positions, duplicate_slug_positions,
    incomplete_match_coverage, is_regular_phase_start, later_than_previous, point_anchor, point_anchor_of, point_has_anchor_end, repeats_earlier,
    repeats_fact_id, slug_has_date_prefix, slug_matches_date, slug_views, spec_has_video, DerivedMatchInfo, Stage,
};
use crate::corpus::report::{
    file_finding, CorpusIssue, CorpusIssueView, Finding, FindingView, Issue, IssueView, RunReport, Severity, TeamSide,
};
use crate::facts::{MatchFact, PlayEventKind};
use crate::projection::summary::{away_play, team_play};
use crate::sample_dto::converter::{
    convert, lemma_decode_facts_len, required_id_count, spec_away_team, spec_convert_outcome, spec_fact_ids,
    spec_home_team, spec_players_by_key, spec_required_id_count, spec_teams_by_key, DecodeErrorView,
};
use crate::sample_dto::dtos::{
    SampleFactDtoV2, SampleHighlightIndexDtoV2, SampleHighlightSummaryV2, SampleIndexDtoV2, SampleMatchDtoV2,
    SampleMatchSummaryV2, SCHEMA_VERSION_CURRENT,
};
use crate::seqs::{count_where, positions_where};
use crate::text::{byte_prefix, byte_prefix_text};

verus! {

/// An error finding of the corpus checks on a whole file.
pub open spec fn corpus_finding(label: Seq<char>, issue: CorpusIssueView) -> FindingView {
    file_finding(label, Stage::Corpus, IssueView::Corpus { issue })
}

/// The kinds of file the validator recognises by their top-level keys.
#[derive(Debug, Clone, Copy, PartialEq, Eq, Structural)]
pub enum FileShape {
    /// A match file (key `facts`).
    MatchFile,
    /// The match index (key `matches`).
    MatchIndex,
    /// The highlight index (key `highlights`).
    HighlightIndex,
}

/// The shape of a JSON file with these top-level keys (none for a value that is not an
/// object): `facts` wins over `matches`, which wins over `highlights`.
pub open spec fn spec_file_shape(keys: Seq<Seq<char>>) -> Option<FileShape> {
    if keys.contains("facts"@) {
        Some(FileShape::MatchFile)
    } else if keys.contains("matches"@) {
        Some(FileShape::MatchIndex)
    } else if keys.contains("highlights"@) {
        Some(FileShape::HighlightIndex)
    } else {
        None
    }
}

fn has_key(keys: &[String], key: &str) -> (r: bool)
    ensures
        r == slug_views(keys@).contains(key@),
{
    let ghost views = slug_views(keys@);
    let mut i: usize = 0;
    while i < keys.len()
        invariant
            i <= keys@.len(),
            views == slug_views(keys@),
            forall|m: int| 0 <= m < i ==> views[m] != key@,
        decreases keys@.len() - i,
    {
        proof {
            assert(views[i as int] == keys@[i as int]@);
        }
        if crate::text::text_is(keys[i].as_str(), key) {
            proof {
                assert(views.contains(key@));
            }
            return true;
        }
        i += 1;
    }
    false
}

/// Recognises a file by its top-level keys.
pub fn file_shape(keys: &[String]) -> (r: Option<FileShape>)
    ensures
        r == spec_file_shape(slug_views(keys@)),
{
    if has_key(keys, "facts") {
        Some(FileShape::MatchFile)
    } else if has_key(keys, "matches") {
        Some(FileShape::MatchIndex)
    } else if has_key(keys, "highlights") {
        Some(FileShape::HighlightIndex)
    } else {
        None
    }
}

// ── Index arrays ──

/// The finding of an index declaring another schema version than the current one.
pub open spec fn schema_version_findings(label: Seq<char>, found: i64) -> Seq<FindingView> {
    if found != SCHEMA_VERSION_CURRENT {
        seq![corpus_finding(label, CorpusIssueView::SchemaVersionMismatch { found, expected: SCHEMA_VERSION_CURRENT })]
    } else {
        Seq::empty()
    }
}

/// Reports an index whose schema version is not the current one.
pub fn check_schema_version(label: &str, found: i64, report: &mut RunReport)
    ensures
        final(report).checked_files == old(report).checked_files,
        final(report).spec_findings() == old(report).spec_findings() + schema_version_findings(label@, found),
{
    if found != SCHEMA_VERSION_CURRENT {
        report.push(
            Finding::new(
                label,
                Stage::Corpus,
                Issue::Corpus { issue: CorpusIssue::SchemaVersionMismatch { found, expected: SCHEMA_VERSION_CURRENT } },
            ),
        );
    } else {
        proof {
            assert(old(report).spec_findings() + Seq::<FindingView>::empty() == old(report).spec_findings());
        }
    }
}

pub open spec fn duplicate_slug_finding(label: Seq<char>, slugs: Seq<Seq<char>>, i: usize) -> FindingView {
    corpus_finding(label, CorpusIssueView::DuplicateSlug { slug: slugs[i as int] })
}

/// One finding per entry whose slug repeats an earlier entry's, in index order.
pub open spec fn duplicate_slug_findings(label: Seq<char>, slugs: Seq<Seq<char>>) -> Seq<FindingView> {
    positions_where(slugs.len() as int, |m: int| repeats_earlier(slugs, m)).map_values(
        |i: usize| duplicate_slug_finding(label, slugs, i),
    )
}

/// Reports each slug that repeats an earlier one.
pub fn check_duplicate_slugs(label: &str, slugs: &[String], report: &mut RunReport)
    ensures
        final(report).checked_files == old(report).checked_files,
        final(report).spec_findings() == old(report).spec_findings() + duplicate_slug_findings(
            label@,
            slug_views(slugs@),
        ),
{
    let ghost views = slug_views(slugs@);
    let ghost start = report.spec_findings();
    let positions = duplicate_slug_positions(slugs);
    let ghost mk = |i: usize| duplicate_slug_finding(label@, views, i);
    let mut k: usize = 0;
    while k < positions.len()
        invariant
            k <= positions@.len(),
            views == slug_views(slugs@),
            mk == (|i: usize| duplicate_slug_finding(label@, views, i)),
            forall|j: int| 0 <= j < positions@.len() ==> (#[trigger] positions@[j]) < slugs@.len(),
            report.checked_files == old(report).checked_files,
            start == old(report).spec_findings(),
            report.spec_findings() == start + positions@.take(k as int).map_values(mk),
        decreases positions@.len() - k,
    {
        let i = positions[k];
        let slug = slugs[i].clone();
        report.push(Finding::new(label, Stage::Corpus, Issue::Corpus { issue: CorpusIssue::DuplicateSlug { slug } }));
        proof {
            assert(views[i as int] == slugs@[i as int]@);
            assert(positions@.take(k + 1).map_values(mk) == positions@.take(k as int).map_values(mk).push(mk(positions@[k as int])));
        }
        k += 1;
    }
    proof {
        assert(positions@.take(positions@.len() as int) == positions@);
    }
}

pub open spec fn date_order_finding(label: Seq<char>, slugs: Seq<Seq<char>>, dates: Seq<UtcDateTime>, i: usize) -> FindingView {
    corpus_finding(
        label,
        CorpusIssueView::IndexNotDateDescending {
            previous_slug: slugs[i - 1],
            previous_date: dates[i - 1],
            slug: slugs[i as int],
            date: dates[i as int],
        },
    )
}

/// One finding per entry dated later than the entry before it, in index order.
pub open spec fn date_order_findings(label: Seq<char>, slugs: Seq<Seq<char>>, dates: Seq<UtcDateTime>) -> Seq<FindingView> {
    positions_where(dates.len() as int, |m: int| m >= 1 && later_than_previous(dates, m)).map_values(
        |i: usize| date_order_finding(label, slugs, dates, i),
    )
}

/// Reports each entry dated later than the one before it: an index lists newest first,
/// equal dates allowed.
pub fn check_date_descending(label: &str, slugs: &[String], dates: &[UtcDateTime], report: &mut RunReport)
    requires
        slugs@.len() == dates@.len(),
    ensures
        final(report).checked_files == old(report).checked_files,
        final(report).spec_findings() == old(report).spec_findings() + date_order_findings(
            label@,
            slug_views(slugs@),
            dates@,
        ),
{
    let ghost views = slug_views(slugs@);
    let ghost start = report.spec_findings();
    let positions = date_order_violations(dates);
    let ghost mk = |i: usize| date_order_finding(label@, views, dates@, i);
    let mut k: usize = 0;
    while k < positions.len()
        invariant
            k <= positions@.len(),
            slugs@.len() == dates@.len(),
            views == slug_views(slugs@),
            mk == (|i: usize| date_order_finding(label@, views, dates@, i)),
            forall|j: int| 0 <= j < positions@.len() ==> 1 <= (#[trigger] positions@[j]) < dates@.len(),
            report.checked_files == old(report).checked_files,
            start == old(report).spec_findings(),
            report.spec_findings() == start + positions@.take(k as int).map_values(mk),
        decreases positions@.len() - k,
    {
        let i = positions[k];
        let previous_slug = slugs[i - 1].clone();
        let slug = slugs[i].clone();
        report.push(
            Finding::new(
                label,
                Stage::Corpus,
                Issue::Corpus {
                    issue: CorpusIssue::IndexNotDateDescending {
                        previous_slug,
                        previous_date: dates[i - 1],
                        slug,
                        date: dates[i],
                    },
                },
            ),
        );
        proof {
            assert(views[i as int] == slugs@[i as int]@);
            assert(views[i - 1] == slugs@[i - 1]@);
            assert(positions@.take(k + 1).map_values(mk) == positions@.take(k as int).map_values(mk).push(mk(positions@[k as int])));
        }
        k += 1;
    }
    proof {
        assert(positions@.take(positions@.len() as int) == positions@);
    }
}

pub open spec fn slug_date_finding(label: Seq<char>, slugs: Seq<Seq<char>>, dates: Seq<UtcDateTime>, i: usize) -> FindingView {
    corpus_finding(
        label,
        CorpusIssueView::SlugDateMismatch {
            slug: slugs[i as int],
            expected: dates[i as int].spec_date_label(),
            found: byte_prefix(slugs[i as int], 10),
        },
    )
}

/// One finding per entry whose slug's first ten bytes are not its date, in index order.
pub open spec fn slug_date_findings(label: Seq<char>, slugs: Seq<Seq<char>>, dates: Seq<UtcDateTime>) -> Seq<FindingView> {
    positions_where(slugs.len() as int, |m: int| !slug_has_date_prefix(slugs[m], dates[m])).map_values(
        |i: usize| slug_date_finding(label, slugs, dates, i),
    )
}

/// Reports each entry whose slug does not start with its date (`yyyy-mm-dd`, UTC).
pub fn check_slug_date_prefix(label: &str, slugs: &[String], dates: &[UtcDateTime], report: &mut RunReport)
    requires
        slugs@.len() == dates@.len(),
    ensures
        final(report).checked_files == old(report).checked_files,
        final(report).spec_findings() == old(report).spec_findings() + slug_date_findings(
            label@,
            slug_views(slugs@),
            dates@,
        ),
{
    let ghost views = slug_views(slugs@);
    let ghost start = report.spec_findings();
    let ghost mk = |i: usize| slug_date_finding(label@, views, dates@, i);
    let ghost p = |m: int| !slug_has_date_prefix(views[m], dates@[m]);
    let mut i: usize = 0;
    while i < slugs.len()
        invariant
            i <= slugs@.len(),
            slugs@.len() == dates@.len(),
            views == slug_views(slugs@),
            mk == (|i: usize| slug_date_finding(label@, views, dates@, i)),
            p == (|m: int| !slug_has_date_prefix(views[m], dates@[m])),
            report.checked_files == old(report).checked_files,
            start == old(report).spec_findings(),
            report.spec_findings() == start + positions_where(i as int, p).map_values(mk),
        decreases slugs@.len() - i,
    {
        proof {
            assert(views[i as int] == slugs@[i as int]@);
        }
        let ok = slug_matches_date(slugs[i].as_str(), dates[i]);
        if !ok {
            let expected = dates[i].date_label();
            let found = byte_prefix_text(slugs[i].as_str(), 10);
            let slug = slugs[i].clone();
            report.push(
                Finding::new(
                    label,
                    Stage::Corpus,
                    Issue::Corpus { issue: CorpusIssue::SlugDateMismatch { slug, expected, found } },
                ),
            );
            proof {
                assert(positions_where(i + 1, p) == positions_where(i as int, p).push(i as usize));
                assert(positions_where(i + 1, p).map_values(mk) == positions_where(i as int, p).map_values(mk).push(mk(i as usize)));
            }
        } else {
            proof {
                assert(positions_where(i + 1, p) == positions_where(i as int, p));
            }
        }
        i += 1;
    }
}

/// The findings of the checks on an index's entries: repeated slugs, then entries out
/// of date order, then slugs not starting with their date.
pub open spec fn index_entry_findings(label: Seq<char>, slugs: Seq<Seq<char>>, dates: Seq<UtcDateTime>) -> Seq<FindingView> {
    duplicate_slug_findings(label, slugs) + date_order_findings(label, slugs, dates) + slug_date_findings(
        label,
        slugs,
        dates,
    )
}

/// Checks an index's entries, given as their slugs and dates.
pub fn check_index_entries(label: &str, slugs: &[String], dates: &[UtcDateTime], report: &mut RunReport)
    requires
        slugs@.len() == dates@.len(),
    ensures
        final(report).checked_files == old(report).checked_files,
        final(report).spec_findings() == old(report).spec_findings() + index_entry_findings(
            label@,
            slug_views(slugs@),
            dates@,
        ),
{
    let ghost start = report.spec_findings();
    check_duplicate_slugs(label, slugs, report);
    check_date_descending(label, slugs, dates, report);
    check_slug_date_prefix(label, slugs, dates, report);
    proof {
        let views = slug_views(slugs@);
        assert(start + duplicate_slug_findings(label@, views) + date_order_findings(label@, views, dates@)
            + slug_date_findings(label@, views, dates@) == start + index_entry_findings(label@, views, dates@));
    }
}

/// The slugs of match index entries.
pub open spec fn match_entry_slugs(entries: Seq<SampleMatchSummaryV2>) -> Seq<Seq<char>> {
    entries.map_values(|e: SampleMatchSummaryV2| e.slug@)
}

/// The dates of match index entries.
pub open spec fn match_entry_dates(entries: Seq<SampleMatchSummaryV2>) -> Seq<UtcDateTime> {
    entries.map_values(|e: SampleMatchSummaryV2| e.date)
}

/// The slugs of highlight index entries.
pub open spec fn highlight_entry_slugs(entries: Seq<SampleHighlightSummaryV2>) -> Seq<Seq<char>> {
    entries.map_values(|e: SampleHighlightSummaryV2| e.slug@)
}

/// The dates of highlight index entries.
pub open spec fn highlight_entry_dates(entries: Seq<SampleHighlightSummaryV2>) -> Seq<UtcDateTime> {
    entries.map_values(|e: SampleHighlightSummaryV2| e.date)
}

/// Validates a match index: its schema version, then its entries.
pub fn validate_match_index_dto(label: &str, index: &SampleIndexDtoV2, report: &mut RunReport)
    ensures
        final(report).checked_files == old(report).checked_files,
        final(report).spec_findings() == old(report).spec_findings() + schema_version_findings(label@, index.schema_version)
            + index_entry_findings(label@, match_entry_slugs(index.matches@), match_entry_dates(index.matches@)),
{
    check_schema_version(label, index.schema_version, report);
    let mut slugs: Vec<String> = Vec::new();
    let mut dates: Vec<UtcDateTime> = Vec::new();
    let mut i: usize = 0;
    while i < index.matches.len()
        invariant
            i <= index.matches@.len(),
            slugs@.len() == i,
            dates@.len() == i,
            forall|k: int| 0 <= k < i ==> (#[trigger] slugs@[k]) == index.matches@[k].slug,
            forall|k: int| 0 <= k < i ==> (#[trigger] dates@[k]) == index.matches@[k].date,
        decreases index.matches@.len() - i,
    {
        slugs.push(index.matches[i].slug.clone());
        dates.push(index.matches[i].date);
        i += 1;
    }
    proof {
        assert(slug_views(slugs@) == match_entry_slugs(index.matches@));
        assert(dates@ == match_entry_dates(index.matches@));
    }
    check_index_entries(label, slugs.as_slice(), dates.as_slice(), report);
}

/// Validates a highlight index: its schema version, then its entries.
pub fn validate_highlight_index_dto(label: &str, index: &SampleHighlightIndexDtoV2, report: &mut RunReport)
    ensures
        final(report).checked_files == old(report).checked_files,
        final(report).spec_findings() == old(report).spec_findings() + schema_version_findings(label@, index.schema_version)
            + index_entry_findings(label@, highlight_entry_slugs(index.highlights@), highlight_entry_dates(index.highlights@)),
{
    check_schema_version(label, index.schema_version, report);
    let mut slugs: Vec<String> = Vec::new();
    let mut dates: Vec<UtcDateTime> = Vec::new();
    let mut i: usize = 0;
    while i < index.highlights.len()
        invariant
            i <= index.highlights@.len(),
            slugs@.len() == i,
            dates@.len() == i,
            forall|k: int| 0 <= k < i ==> (#[trigger] slugs@[k]) == index.highlights@[k].slug,
            forall|k: int| 0 <= k < i ==> (#[trigger] dates@[k]) == index.highlights@[k].date,
        decreases index.highlights@.len() - i,
    {
        slugs.push(index.highlights[i].slug.clone());
        dates.push(index.highlights[i].date);
        i += 1;
    }
    proof {
        assert(slug_views(slugs@) == highlight_entry_slugs(index.highlights@));
        assert(dates@ == highlight_entry_dates(index.highlights@));
    }
    check_index_entries(label, slugs.as_slice(), dates.as_slice(), report);
}

// ── One match file ──

pub open spec fn duplicate_fact_id_finding(label: Seq<char>, facts: Seq<SampleFactDtoV2>, i: usize) -> FindingView {
    FindingView {
        fact_index: Some(i),
        fact_id: facts[i as int].fact_id,
        ..corpus_finding(label, CorpusIssueView::DuplicateFactId)
    }
}

/// One finding per fact whose id repeats an earlier fact's, in file order.
pub open spec fn duplicate_fact_id_findings(label: Seq<char>, facts: Seq<SampleFactDtoV2>) -> Seq<FindingView> {
    positions_where(facts.len() as int, |m: int| repeats_fact_id(facts, m)).map_values(
        |i: usize| duplicate_fact_id_finding(label, facts, i),
    )
}

/// Reports each fact whose id repeats an earlier fact's: two facts with one id would
/// overwrite each other when stored.
pub fn check_duplicate_fact_ids(label: &str, dto: &SampleMatchDtoV2, report: &mut RunReport)
    ensures
        final(report).checked_files == old(report).checked_files,
        final(report).spec_findings() == old(report).spec_findings() + duplicate_fact_id_findings(label@, dto.facts@),
{
    let ghost start = report.spec_findings();
    let positions = duplicate_fact_id_positions(dto.facts.as_slice());
    let ghost mk = |i: usize| duplicate_fact_id_finding(label@, dto.facts@, i);
    let mut k: usize = 0;
    while k < positions.len()
        invariant
            k <= positions@.len(),
            mk == (|i: usize| duplicate_fact_id_finding(label@, dto.facts@, i)),
            forall|j: int| 0 <= j < positions@.len() ==> (#[trigger] positions@[j]) < dto.facts@.len(),
            report.checked_files == old(report).checked_files,
            start == old(report).spec_findings(),
            report.spec_findings() == start + positions@.take(k as int).map_values(mk),
        decreases positions@.len() - k,
    {
        let i = positions[k];
        let mut finding = Finding::new(label, Stage::Corpus, Issue::Corpus { issue: CorpusIssue::DuplicateFactId });
        finding.fact_index = Some(i);
        finding.fact_id = dto.facts[i].fact_id;
        report.push(finding);
        proof {
            assert(positions@.take(k + 1).map_values(mk) == positions@.take(k as int).map_values(mk).push(mk(positions@[k as int])));
        }
        k += 1;
    }
    proof {
        assert(positions@.take(positions@.len() as int) == positions@);
    }
}

pub open spec fn anchor_end_finding(label: Seq<char>, facts: Seq<SampleFactDtoV2>, i: usize) -> FindingView {
    let (kind, anchor) = point_anchor(facts[i as int]).unwrap();
    FindingView {
        fact_index: Some(i),
        fact_id: facts[i as int].fact_id,
        ..corpus_finding(
            label,
            CorpusIssueView::UnexpectedAnchorEnd {
                payload_kind: kind,
                end_match_elapsed_seconds: anchor.end_match_elapsed_seconds,
                end_video_elapsed_seconds: anchor.end_video_elapsed_seconds,
            },
        )
    }
}

/// One finding per play or possession whose anchor carries an end reading, in file
/// order, naming the payload kind and carrying both end readings.
pub open spec fn anchor_end_findings(label: Seq<char>, facts: Seq<SampleFactDtoV2>) -> Seq<FindingView> {
    positions_where(facts.len() as int, |m: int| point_has_anchor_end(facts[m])).map_values(
        |i: usize| anchor_end_finding(label, facts, i),
    )
}

/// Reports each play or possession whose anchor carries an end reading, which
/// conversion would drop.
pub fn check_unexpected_anchor_end(label: &str, dto: &SampleMatchDtoV2, report: &mut RunReport)
    ensures
        final(report).checked_files == old(report).checked_files,
        final(report).spec_findings() == old(report).spec_findings() + anchor_end_findings(label@, dto.facts@),
{
    let ghost start = report.spec_findings();
    let positions = crate::corpus::checks::unexpected_anchor_end_positions(dto.facts.as_slice());
    let ghost mk = |i: usize| anchor_end_finding(label@, dto.facts@, i);
    proof {
        assert forall|j: int| 0 <= j < positions@.len() implies point_has_anchor_end(dto.facts@[#[trigger] positions@[j] as int]) by {
            assert(positions@.contains(positions@[j]));
        }
    }
    let mut k: usize = 0;
    while k < positions.len()
        invariant
            k <= positions@.len(),
            mk == (|i: usize| anchor_end_finding(label@, dto.facts@, i)),
            forall|j: int| 0 <= j < positions@.len() ==> (#[trigger] positions@[j]) < dto.facts@.len(),
            forall|j: int| 0 <= j < positions@.len() ==> point_has_anchor_end(dto.facts@[#[trigger] positions@[j] as int]),
            report.checked_files == old(report).checked_files,
            start == old(report).spec_findings(),
            report.spec_findings() == start + positions@.take(k as int).map_values(mk),
        decreases positions@.len() - k,
    {
        let i = positions[k];
        let (kind, end_match, end_video) = match point_anchor_of(&dto.facts[i]) {
            Some((k, a)) => (k, a.end_match_elapsed_seconds, a.end_video_elapsed_seconds),
            None => ("play", None, None),
        };
        let mut finding = Finding::new(
            label,
            Stage::Corpus,
            Issue::Corpus {
                issue: CorpusIssue::UnexpectedAnchorEnd {
                    payload_kind: kind.to_owned(),
                    end_match_elapsed_seconds: end_match,
                    end_video_elapsed_seconds: end_video,
                },
            },
        );
        finding.fact_index = Some(i);
        finding.fact_id = dto.facts[i].fact_id;
        report.push(finding);
        proof {
            assert(positions@.take(k + 1).map_values(mk) == positions@.take(k as int).map_values(mk).push(mk(positions@[k as int])));
        }
        k += 1;
    }
    proof {
        assert(positions@.take(positions@.len() as int) == positions@);
    }
}

/// The warning of a full match holding fewer than two regular phases.
pub open spec fn coverage_findings(label: Seq<char>, facts: Seq<MatchFact>, configuration: MatchConfiguration) -> Seq<FindingView> {
    let n = count_where(facts, |f: MatchFact| is_regular_phase_start(f));
    if !(configuration is VideoHighlight) && n < 2 {
        seq![
            FindingView {
                severity: Severity::Warning,
                ..corpus_finding(label, CorpusIssueView::MatchCoverageIncomplete { regular_phase_count: n as usize })
            },
        ]
    } else {
        Seq::empty()
    }
}

/// Warns when a full match (not highlights) holds fewer than two regular phases: a
/// partial recording, kept on purpose sometimes, so a warning and not an error.
pub fn check_match_coverage(label: &str, facts: &[MatchFact], configuration: &MatchConfiguration, report: &mut RunReport)
    ensures
        final(report).checked_files == old(report).checked_files,
        final(report).spec_findings() == old(report).spec_findings() + coverage_findings(label@, facts@, *configuration),
{
    match incomplete_match_coverage(facts, configuration) {
        Some(n) => {
            let finding = Finding::new(
                label,
                Stage::Corpus,
                Issue::Corpus { issue: CorpusIssue::MatchCoverageIncomplete { regular_phase_count: n } },
            );
            report.push(finding.warning());
        },
        None => {
            proof {
                assert(old(report).spec_findings() + Seq::<FindingView>::empty() == old(report).spec_findings());
            }
        },
    }
}

/// The identifiers handed to the conversion when validating: 1, 2, 3, and so on (they
/// never leave the validation).
pub open spec fn counter_ids(n: nat) -> Seq<u128> {
    Seq::new(n, |k: int| (k + 1) as u128)
}

/// The figures of a converted file, from its decoded configuration and facts.
pub open spec fn spec_derived_info(
    dto: SampleMatchDtoV2,
    ids: Seq<u128>,
    configuration: MatchConfiguration,
    facts: Seq<MatchFact>,
) -> DerivedMatchInfo {
    DerivedMatchInfo {
        home_score: count_where(facts, team_play(spec_home_team(dto, ids).id, PlayEventKind::Goal)) as i64,
        away_score: count_where(facts, away_play(spec_home_team(dto, ids).id, spec_away_team(dto, ids).id, PlayEventKind::Goal)) as i64,
        fact_count: dto.facts@.len() as usize,
        has_video: spec_has_video(configuration),
        home_team_name: dto.teams.home.name,
        away_team_name: dto.teams.away.name,
    }
}

/// The finding of a file that does not convert.
pub open spec fn convert_finding(label: Seq<char>, e: DecodeErrorView) -> FindingView {
    file_finding(label, Stage::Convert, IssueView::SampleDecode { error: e })
}

/// Validates a match file: repeated fact ids and stray play range ends (both read off
/// the file, so reported even when it does not convert), then the conversion; a file
/// that converts is checked for coverage and its figures returned, one that does not
/// is reported and gives `None`.
pub fn validate_match_dto(label: &str, dto: &SampleMatchDtoV2, report: &mut RunReport) -> (r: Option<DerivedMatchInfo>)
    requires
        spec_required_id_count(*dto) <= usize::MAX,
        dto.facts@.len() <= i64::MAX,
    ensures
        final(report).checked_files == old(report).checked_files,
        match spec_convert_outcome(*dto, None, counter_ids(spec_required_id_count(*dto) as nat)) {
            Err(e) => {
                &&& final(report).spec_findings() == old(report).spec_findings() + duplicate_fact_id_findings(label@, dto.facts@)
                    + anchor_end_findings(label@, dto.facts@) + seq![convert_finding(label@, e)]
                &&& r is None
            },
            Ok((configuration, facts)) => {
                &&& final(report).spec_findings() == old(report).spec_findings() + duplicate_fact_id_findings(label@, dto.facts@)
                    + anchor_end_findings(label@, dto.facts@) + coverage_findings(label@, facts, configuration)
                &&& r == Some(
                    spec_derived_info(*dto, counter_ids(spec_required_id_count(*dto) as nat), configuration, facts),
                )
            },
        },
{
    let ghost start = report.spec_findings();
    check_duplicate_fact_ids(label, dto, report);
    check_unexpected_anchor_end(label, dto, report);
    let ghost checked = report.spec_findings();
    let required = required_id_count(dto);
    let mut ids: Vec<u128> = Vec::new();
    let mut k: usize = 0;
    while k < required
        invariant
            k <= required,
            ids@ == counter_ids(k as nat),
        decreases required - k,
    {
        ids.push((k + 1) as u128);
        proof {
            assert(ids@ == counter_ids((k + 1) as nat));
        }
        k += 1;
    }
    let ghost ids_view = ids@;
    match convert(label, dto, None, ids.as_slice()) {
        Err(error) => {
            report.push(Finding::new(label, Stage::Convert, Issue::SampleDecode { error }));
            proof {
                assert(checked == start + duplicate_fact_id_findings(label@, dto.facts@) + anchor_end_findings(label@, dto.facts@));
                assert(spec_convert_outcome(*dto, None, ids_view) == Err::<(MatchConfiguration, Seq<MatchFact>), DecodeErrorView>(error@));
                assert(ids_view == counter_ids(spec_required_id_count(*dto) as nat));
            }
            None
        },
        Ok(conversion) => {
            proof {
                lemma_decode_facts_len(
                    dto.facts@,
                    spec_teams_by_key(*dto, ids_view),
                    spec_players_by_key(*dto, ids_view),
                    spec_fact_ids(*dto, ids_view),
                );
            }
            check_match_coverage(label, conversion.facts.as_slice(), &conversion.match_.configuration, report);
            let derived = derived_match_info(dto, &conversion);
            proof {
                assert(ids_view == counter_ids(spec_required_id_count(*dto) as nat));
                assert(spec_convert_outcome(*dto, None, ids_view) == Ok::<(MatchConfiguration, Seq<MatchFact>), DecodeErrorView>((conversion.match_.configuration, conversion.facts@)));
                let expected = spec_derived_info(*dto, ids_view, conversion.match_.configuration, conversion.facts@);
                assert(conversion.home_team == spec_home_team(*dto, ids_view));
                assert(conversion.away_team == spec_away_team(*dto, ids_view));
                assert(derived.home_score == expected.home_score);
                assert(derived.away_score == expected.away_score);
                assert(derived.fact_count == expected.fact_count);
                assert(derived.has_video == expected.has_video);
                assert(derived.home_team_name == expected.home_team_name);
                assert(derived.away_team_name == expected.away_team_name);
                assert(derived == expected);
            }
            Some(derived)
        },
    }
}

// ── Index entries against their files ──

/// The finding of an entry dated otherwise than its file.
pub open spec fn date_findings(label: Seq<char>, index: UtcDateTime, body: UtcDateTime) -> Seq<FindingView> {
    if index != body {
        seq![corpus_finding(label, CorpusIssueView::DateMismatch { index, body })]
    } else {
        Seq::empty()
    }
}

/// The finding of an entry whose video flag differs from its file's.
pub open spec fn video_findings(label: Seq<char>, index: bool, body: bool) -> Seq<FindingView> {
    if index != body {
        seq![corpus_finding(label, CorpusIssueView::HasVideoMismatch { index, body })]
    } else {
        Seq::empty()
    }
}

/// The finding of an entry whose team name on `side` differs from its file's.
pub open spec fn team_name_findings(label: Seq<char>, side: TeamSide, index: Seq<char>, body: Seq<char>) -> Seq<FindingView> {
    if index != body {
        seq![corpus_finding(label, CorpusIssueView::TeamNameMismatch { side, index, body })]
    } else {
        Seq::empty()
    }
}

fn check_date(label: &str, index: UtcDateTime, body: UtcDateTime, report: &mut RunReport)
    ensures
        final(report).checked_files == old(report).checked_files,
        final(report).spec_findings() == old(report).spec_findings() + date_findings(label@, index, body),
{
    if index != body {
        report.push(Finding::new(label, Stage::Corpus, Issue::Corpus { issue: CorpusIssue::DateMismatch { index, body } }));
    } else {
        proof {
            assert(old(report).spec_findings() + Seq::<FindingView>::empty() == old(report).spec_findings());
        }
    }
}

fn check_video(label: &str, index: bool, body: bool, report: &mut RunReport)
    ensures
        final(report).checked_files == old(report).checked_files,
        final(report).spec_findings() == old(report).spec_findings() + video_findings(label@, index, body),
{
    if index != body {
        report.push(Finding::new(label, Stage::Corpus, Issue::Corpus { issue: CorpusIssue::HasVideoMismatch { index, body } }));
    } else {
        proof {
            assert(old(report).spec_findings() + Seq::<FindingView>::empty() == old(report).spec_findings());
        }
    }
}

fn check_team_name(label: &str, side: TeamSide, index: &String, body: &String, report: &mut RunReport)
    ensures
        final(report).checked_files == old(report).checked_files,
        final(report).spec_findings() == old(report).spec_findings() + team_name_findings(label@, side, index@, body@),
{
    if *index != *body {
        let index = index.clone();
        let body = body.clone();
        report.push(Finding::new(label, Stage::Corpus, Issue::Corpus { issue: CorpusIssue::TeamNameMismatch { side, index, body } }));
    } else {
        proof {
            assert(old(report).spec_findings() + Seq::<FindingView>::empty() == old(report).spec_findings());
        }
    }
}

/// The findings of a match index entry against its file: the dates, then, when the
/// file converted, the scores and the video flag.
pub open spec fn match_consistency_findings(
    label: Seq<char>,
    entry: SampleMatchSummaryV2,
    body_date: UtcDateTime,
    derived: Option<DerivedMatchInfo>,
) -> Seq<FindingView> {
    match derived {
        None => date_findings(label, entry.date, body_date),
        Some(d) => {
            let score = if entry.home_score != d.home_score || entry.away_score != d.away_score {
                seq![
                    corpus_finding(
                        label,
                        CorpusIssueView::ScoreMismatch {
                            index_home: entry.home_score,
                            index_away: entry.away_score,
                            computed_home: d.home_score,
                            computed_away: d.away_score,
                        },
                    ),
                ]
            } else {
                Seq::empty()
            };
            date_findings(label, entry.date, body_date) + score + video_findings(label, entry.has_video, d.has_video)
        },
    }
}

/// Checks the figures a match index entry copies from its file.
pub fn check_match_consistency(
    label: &str,
    entry: &SampleMatchSummaryV2,
    dto: &SampleMatchDtoV2,
    derived: Option<&DerivedMatchInfo>,
    report: &mut RunReport,
)
    ensures
        final(report).checked_files == old(report).checked_files,
        final(report).spec_findings() == old(report).spec_findings() + match_consistency_findings(
            label@,
            *entry,
            dto.match_.date,
            match derived {
                Some(d) => Some(*d),
                None => None,
            },
        ),
{
    let ghost start = report.spec_findings();
    check_date(label, entry.date, dto.match_.date, report);
    let ghost s1 = report.spec_findings();
    match derived {
        None => {},
        Some(d) => {
            if entry.home_score != d.home_score || entry.away_score != d.away_score {
                report.push(
                    Finding::new(
                        label,
                        Stage::Corpus,
                        Issue::Corpus {
                            issue: CorpusIssue::ScoreMismatch {
                                index_home: entry.home_score,
                                index_away: entry.away_score,
                                computed_home: d.home_score,
                                computed_away: d.away_score,
                            },
                        },
                    ),
                );
            }
            let ghost s2 = report.spec_findings();
            let ghost score = s2.subrange(s1.len() as int, s2.len() as int);
            proof {
                assert(s2 == s1 + score);
            }
            check_video(label, entry.has_video, d.has_video, report);
            proof {
                let v = video_findings(label@, entry.has_video, d.has_video);
                let dt = date_findings(label@, entry.date, dto.match_.date);
                assert(report.spec_findings() == start + (dt + score + v));
            }
        },
    }
}

/// The findings of a highlight index entry against its file: the dates, then, when the
/// file converted, the fact count, the team names (home, then away) and the video flag.
pub open spec fn highlight_consistency_findings(
    label: Seq<char>,
    entry: SampleHighlightSummaryV2,
    body_date: UtcDateTime,
    derived: Option<DerivedMatchInfo>,
) -> Seq<FindingView> {
    match derived {
        None => date_findings(label, entry.date, body_date),
        Some(d) => {
            let count = if entry.fact_count != d.fact_count as i64 {
                seq![corpus_finding(label, CorpusIssueView::FactCountMismatch { index: entry.fact_count, body: d.fact_count })]
            } else {
                Seq::empty()
            };
            date_findings(label, entry.date, body_date) + count
                + team_name_findings(label, TeamSide::Home, entry.home_team_name@, d.home_team_name@)
                + team_name_findings(label, TeamSide::Away, entry.away_team_name@, d.away_team_name@)
                + video_findings(label, entry.has_video, d.has_video)
        },
    }
}

/// Checks the figures a highlight index entry copies from its file.
pub fn check_highlight_consistency(
    label: &str,
    entry: &SampleHighlightSummaryV2,
    dto: &SampleMatchDtoV2,
    derived: Option<&DerivedMatchInfo>,
    report: &mut RunReport,
)
    ensures
        final(report).checked_files == old(report).checked_files,
        final(report).spec_findings() == old(report).spec_findings() + highlight_consistency_findings(
            label@,
            *entry,
            dto.match_.date,
            match derived {
                Some(d) => Some(*d),
                None => None,
            },
        ),
{
    let ghost start = report.spec_findings();
    check_date(label, entry.date, dto.match_.date, report);
    let ghost s1 = report.spec_findings();
    match derived {
        None => {},
        Some(d) => {
            if entry.fact_count != d.fact_count as i64 {
                report.push(
                    Finding::new(
                        label,
                        Stage::Corpus,
                        Issue::Corpus { issue: CorpusIssue::FactCountMismatch { index: entry.fact_count, body: d.fact_count } },
                    ),
                );
            }
            let ghost s2 = report.spec_findings();
            let ghost count = s2.subrange(s1.len() as int, s2.len() as int);
            proof {
                assert(s2 == s1 + count);
            }
            check_team_name(label, TeamSide::Home, &entry.home_team_name, &d.home_team_name, report);
            check_team_name(label, TeamSide::Away, &entry.away_team_name, &d.away_team_name, report);
            check_video(label, entry.has_video, d.has_video, report);
            proof {
                let dt = date_findings(label@, entry.date, dto.match_.date);
                let h = team_name_findings(label@, TeamSide::Home, entry.home_team_name@, d.home_team_name@);
                let a = team_name_findings(label@, TeamSide::Away, entry.away_team_name@, d.away_team_name@);
                let v = video_findings(label@, entry.has_video, d.has_video);
                assert(report.spec_findings() == start + (dt + count + h + a + v));
            }
        },
    }
}

} // verus!
