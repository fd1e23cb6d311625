//! Findings and the report that collects them.
//!
//! An issue is a scope, a code and parameters, the same shape the domain's errors
//! use on the wire.  The library names the scope and code of each issue and keeps
//! its parameters as values; writing them as JSON is the shell's business.

use vstd::prelude::*;

use crate::clock::{Seconds, UtcDateTime};
use crate::corpus::checks::Stage;
use crate::ids::{uuid_lower_text, uuid_text};
use crate::sample_dto::converter::DecodeErrorView;
use crate::sample_dto::dtos::SampleMatchDecodeErrorV2;
use crate::seqs::count_where;
use crate::text::{push_text, string_of};

verus! {

/// How much a finding weighs: errors fail a run, warnings are reported only.
#[derive(Debug, Clone, Copy, PartialEq, Eq, Structural)]
pub enum Severity {
    Error,
    Warning,
}

/// Home or away.
#[derive(Debug, Clone, Copy, PartialEq, Eq, Structural)]
pub enum TeamSide {
    Home,
    Away,
}

/// A finding of the corpus checks, with its parameters.
#[derive(Debug, Clone, PartialEq)]
pub enum CorpusIssue {
    /// An index declares another schema version.
    SchemaVersionMismatch { found: i64, expected: i64 },
    /// A slug repeats an earlier entry's.
    DuplicateSlug { slug: String },
    /// An entry is dated later than the entry before it.
    IndexNotDateDescending { previous_slug: String, previous_date: UtcDateTime, slug: String, date: UtcDateTime },
    /// A slug does not start with its entry's date; `found` is the slug's first ten
    /// bytes, when they end on a character boundary.
    SlugDateMismatch { slug: String, expected: Option<String>, found: Option<String> },
    /// A fact id repeats an earlier fact's.
    DuplicateFactId,
    /// A play's anchor carries an end reading.
    UnexpectedAnchorEnd {
        payload_kind: String,
        end_match_elapsed_seconds: Option<Seconds>,
        end_video_elapsed_seconds: Option<Seconds>,
    },
    /// A full match holds fewer than two regular phases.
    MatchCoverageIncomplete { regular_phase_count: usize },
    /// An index entry's date differs from its file's.
    DateMismatch { index: UtcDateTime, body: UtcDateTime },
    /// An index entry's scores differ from its file's goals.
    ScoreMismatch { index_home: i64, index_away: i64, computed_home: i64, computed_away: i64 },
    /// An index entry's video flag differs from its file's configuration.
    HasVideoMismatch { index: bool, body: bool },
    /// A highlight entry's fact count differs from its file's.
    FactCountMismatch { index: i64, body: usize },
    /// A highlight entry's team name differs from its file's.
    TeamNameMismatch { side: TeamSide, index: String, body: String },
    /// An index entry has no file.
    MissingMatchFile { slug: String },
    /// A highlight index entry has no file.
    MissingHighlightFile { slug: String },
    /// A match file no index entry lists.
    OrphanMatchFile,
    /// A highlight file no index entry lists.
    OrphanHighlightFile,
    /// The index file is missing.
    MissingIndex,
}

/// A corpus issue with its texts taken by their characters.
pub enum CorpusIssueView {
    SchemaVersionMismatch { found: i64, expected: i64 },
    DuplicateSlug { slug: Seq<char> },
    IndexNotDateDescending { previous_slug: Seq<char>, previous_date: UtcDateTime, slug: Seq<char>, date: UtcDateTime },
    SlugDateMismatch { slug: Seq<char>, expected: Option<Seq<char>>, found: Option<Seq<char>> },
    DuplicateFactId,
    UnexpectedAnchorEnd {
        payload_kind: Seq<char>,
        end_match_elapsed_seconds: Option<Seconds>,
        end_video_elapsed_seconds: Option<Seconds>,
    },
    MatchCoverageIncomplete { regular_phase_count: usize },
    DateMismatch { index: UtcDateTime, body: UtcDateTime },
    ScoreMismatch { index_home: i64, index_away: i64, computed_home: i64, computed_away: i64 },
    HasVideoMismatch { index: bool, body: bool },
    FactCountMismatch { index: i64, body: usize },
    TeamNameMismatch { side: TeamSide, index: Seq<char>, body: Seq<char> },
    MissingMatchFile { slug: Seq<char> },
    MissingHighlightFile { slug: Seq<char> },
    OrphanMatchFile,
    OrphanHighlightFile,
    MissingIndex,
}

/// An optional text taken by its characters.
pub open spec fn text_view(t: Option<String>) -> Option<Seq<char>> {
    match t {
        Some(s) => Some(s@),
        None => None,
    }
}

impl View for CorpusIssue {
    type V = CorpusIssueView;

    open spec fn view(&self) -> CorpusIssueView {
        match self {
            CorpusIssue::SchemaVersionMismatch { found, expected } =>
                CorpusIssueView::SchemaVersionMismatch { found: *found, expected: *expected },
            CorpusIssue::DuplicateSlug { slug } => CorpusIssueView::DuplicateSlug { slug: slug@ },
            CorpusIssue::IndexNotDateDescending { previous_slug, previous_date, slug, date } =>
                CorpusIssueView::IndexNotDateDescending {
                    previous_slug: previous_slug@,
                    previous_date: *previous_date,
                    slug: slug@,
                    date: *date,
                },
            CorpusIssue::SlugDateMismatch { slug, expected, found } => CorpusIssueView::SlugDateMismatch {
                slug: slug@,
                expected: text_view(*expected),
                found: text_view(*found),
            },
            CorpusIssue::DuplicateFactId => CorpusIssueView::DuplicateFactId,
            CorpusIssue::UnexpectedAnchorEnd { payload_kind, end_match_elapsed_seconds, end_video_elapsed_seconds } =>
                CorpusIssueView::UnexpectedAnchorEnd {
                    payload_kind: payload_kind@,
                    end_match_elapsed_seconds: *end_match_elapsed_seconds,
                    end_video_elapsed_seconds: *end_video_elapsed_seconds,
                },
            CorpusIssue::MatchCoverageIncomplete { regular_phase_count } =>
                CorpusIssueView::MatchCoverageIncomplete { regular_phase_count: *regular_phase_count },
            CorpusIssue::DateMismatch { index, body } => CorpusIssueView::DateMismatch { index: *index, body: *body },
            CorpusIssue::ScoreMismatch { index_home, index_away, computed_home, computed_away } =>
                CorpusIssueView::ScoreMismatch {
                    index_home: *index_home,
                    index_away: *index_away,
                    computed_home: *computed_home,
                    computed_away: *computed_away,
                },
            CorpusIssue::HasVideoMismatch { index, body } => CorpusIssueView::HasVideoMismatch { index: *index, body: *body },
            CorpusIssue::FactCountMismatch { index, body } => CorpusIssueView::FactCountMismatch { index: *index, body: *body },
            CorpusIssue::TeamNameMismatch { side, index, body } =>
                CorpusIssueView::TeamNameMismatch { side: *side, index: index@, body: body@ },
            CorpusIssue::MissingMatchFile { slug } => CorpusIssueView::MissingMatchFile { slug: slug@ },
            CorpusIssue::MissingHighlightFile { slug } => CorpusIssueView::MissingHighlightFile { slug: slug@ },
            CorpusIssue::OrphanMatchFile => CorpusIssueView::OrphanMatchFile,
            CorpusIssue::OrphanHighlightFile => CorpusIssueView::OrphanHighlightFile,
            CorpusIssue::MissingIndex => CorpusIssueView::MissingIndex,
        }
    }
}

/// The code of a corpus issue: its variant's name in lower camel case.
pub open spec fn corpus_code(i: CorpusIssueView) -> Seq<char> {
    match i {
        CorpusIssueView::SchemaVersionMismatch { .. } => "schemaVersionMismatch"@,
        CorpusIssueView::DuplicateSlug { .. } => "duplicateSlug"@,
        CorpusIssueView::IndexNotDateDescending { .. } => "indexNotDateDescending"@,
        CorpusIssueView::SlugDateMismatch { .. } => "slugDateMismatch"@,
        CorpusIssueView::DuplicateFactId => "duplicateFactID"@,
        CorpusIssueView::UnexpectedAnchorEnd { .. } => "unexpectedAnchorEnd"@,
        CorpusIssueView::MatchCoverageIncomplete { .. } => "matchCoverageIncomplete"@,
        CorpusIssueView::DateMismatch { .. } => "dateMismatch"@,
        CorpusIssueView::ScoreMismatch { .. } => "scoreMismatch"@,
        CorpusIssueView::HasVideoMismatch { .. } => "hasVideoMismatch"@,
        CorpusIssueView::FactCountMismatch { .. } => "factCountMismatch"@,
        CorpusIssueView::TeamNameMismatch { .. } => "teamNameMismatch"@,
        CorpusIssueView::MissingMatchFile { .. } => "missingMatchFile"@,
        CorpusIssueView::MissingHighlightFile { .. } => "missingHighlightFile"@,
        CorpusIssueView::OrphanMatchFile => "orphanMatchFile"@,
        CorpusIssueView::OrphanHighlightFile => "orphanHighlightFile"@,
        CorpusIssueView::MissingIndex => "missingIndex"@,
    }
}

/// The code of a decode error: its variant's name in lower camel case.
pub open spec fn decode_code(e: DecodeErrorView) -> Seq<char> {
    match e {
        DecodeErrorView::SchemaVersionMismatch { .. } => "schemaVersionMismatch"@,
        DecodeErrorView::UnknownConfigurationKind(_) => "unknownConfigurationKind"@,
        DecodeErrorView::MissingConfigurationPayload(_) => "missingConfigurationPayload"@,
        DecodeErrorView::UnknownPayloadKind(_) => "unknownPayloadKind"@,
        DecodeErrorView::MissingPayloadBody(_) => "missingPayloadBody"@,
        DecodeErrorView::UnknownPlayKind(_) => "unknownPlayKind"@,
        DecodeErrorView::UnknownControlKind(_) => "unknownControlKind"@,
        DecodeErrorView::UnknownStoppageKind(_) => "unknownStoppageKind"@,
        DecodeErrorView::UnknownPhaseKind(_) => "unknownPhaseKind"@,
        DecodeErrorView::UnknownAnchorKind(_) => "unknownAnchorKind"@,
        DecodeErrorView::UnknownVideoProvider(_) => "unknownVideoProvider"@,
        DecodeErrorView::MissingAnchorBody(_) => "missingAnchorBody"@,
        DecodeErrorView::UnknownTeamKey(_) => "unknownTeamKey"@,
        DecodeErrorView::UnknownPlayerKey(_) => "unknownPlayerKey"@,
        DecodeErrorView::MissingPhaseStartEnd => "missingPhaseStartEnd"@,
    }
}

impl CorpusIssue {
    /// The issue's code.
    pub fn code(&self) -> (r: &'static str)
        ensures
            r@ == corpus_code(self@),
    {
        match self {
            CorpusIssue::SchemaVersionMismatch { .. } => "schemaVersionMismatch",
            CorpusIssue::DuplicateSlug { .. } => "duplicateSlug",
            CorpusIssue::IndexNotDateDescending { .. } => "indexNotDateDescending",
            CorpusIssue::SlugDateMismatch { .. } => "slugDateMismatch",
            CorpusIssue::DuplicateFactId => "duplicateFactID",
            CorpusIssue::UnexpectedAnchorEnd { .. } => "unexpectedAnchorEnd",
            CorpusIssue::MatchCoverageIncomplete { .. } => "matchCoverageIncomplete",
            CorpusIssue::DateMismatch { .. } => "dateMismatch",
            CorpusIssue::ScoreMismatch { .. } => "scoreMismatch",
            CorpusIssue::HasVideoMismatch { .. } => "hasVideoMismatch",
            CorpusIssue::FactCountMismatch { .. } => "factCountMismatch",
            CorpusIssue::TeamNameMismatch { .. } => "teamNameMismatch",
            CorpusIssue::MissingMatchFile { .. } => "missingMatchFile",
            CorpusIssue::MissingHighlightFile { .. } => "missingHighlightFile",
            CorpusIssue::OrphanMatchFile => "orphanMatchFile",
            CorpusIssue::OrphanHighlightFile => "orphanHighlightFile",
            CorpusIssue::MissingIndex => "missingIndex",
        }
    }
}

/// The code of a decode error.
pub fn decode_error_code(e: &SampleMatchDecodeErrorV2) -> (r: &'static str)
    ensures
        r@ == decode_code(e@),
{
    match e {
        SampleMatchDecodeErrorV2::SchemaVersionMismatch { .. } => "schemaVersionMismatch",
        SampleMatchDecodeErrorV2::UnknownConfigurationKind(_) => "unknownConfigurationKind",
        SampleMatchDecodeErrorV2::MissingConfigurationPayload(_) => "missingConfigurationPayload",
        SampleMatchDecodeErrorV2::UnknownPayloadKind(_) => "unknownPayloadKind",
        SampleMatchDecodeErrorV2::MissingPayloadBody(_) => "missingPayloadBody",
        SampleMatchDecodeErrorV2::UnknownPlayKind(_) => "unknownPlayKind",
        SampleMatchDecodeErrorV2::UnknownControlKind(_) => "unknownControlKind",
        SampleMatchDecodeErrorV2::UnknownStoppageKind(_) => "unknownStoppageKind",
        SampleMatchDecodeErrorV2::UnknownPhaseKind(_) => "unknownPhaseKind",
        SampleMatchDecodeErrorV2::UnknownAnchorKind(_) => "unknownAnchorKind",
        SampleMatchDecodeErrorV2::UnknownVideoProvider(_) => "unknownVideoProvider",
        SampleMatchDecodeErrorV2::MissingAnchorBody(_) => "missingAnchorBody",
        SampleMatchDecodeErrorV2::UnknownTeamKey(_) => "unknownTeamKey",
        SampleMatchDecodeErrorV2::UnknownPlayerKey(_) => "unknownPlayerKey",
        SampleMatchDecodeErrorV2::MissingPhaseStartEnd => "missingPhaseStartEnd",
    }
}

/// What a finding reports.
#[derive(Debug, Clone, PartialEq)]
pub enum Issue {
    /// A file could not be read (scope `io`).
    ReadFailed { detail: String },
    /// A text is not JSON of the expected shape (scope `json`).
    DecodeFailed { detail: String },
    /// A JSON file is none of a match file, a match index or a highlight index.
    UnrecognizedShape,
    /// A match file could not be converted (scope `sampleDecode`).
    SampleDecode { error: SampleMatchDecodeErrorV2 },
    /// A corpus check failed (scope `corpus`).
    Corpus { issue: CorpusIssue },
}

/// An issue with its texts taken by their characters.
pub enum IssueView {
    ReadFailed { detail: Seq<char> },
    DecodeFailed { detail: Seq<char> },
    UnrecognizedShape,
    SampleDecode { error: DecodeErrorView },
    Corpus { issue: CorpusIssueView },
}

impl View for Issue {
    type V = IssueView;

    open spec fn view(&self) -> IssueView {
        match self {
            Issue::ReadFailed { detail } => IssueView::ReadFailed { detail: detail@ },
            Issue::DecodeFailed { detail } => IssueView::DecodeFailed { detail: detail@ },
            Issue::UnrecognizedShape => IssueView::UnrecognizedShape,
            Issue::SampleDecode { error } => IssueView::SampleDecode { error: error@ },
            Issue::Corpus { issue } => IssueView::Corpus { issue: issue@ },
        }
    }
}

/// The scope of an issue.
pub open spec fn issue_scope(i: IssueView) -> Seq<char> {
    match i {
        IssueView::ReadFailed { .. } => "io"@,
        IssueView::DecodeFailed { .. } => "json"@,
        IssueView::UnrecognizedShape => "json"@,
        IssueView::SampleDecode { .. } => "sampleDecode"@,
        IssueView::Corpus { .. } => "corpus"@,
    }
}

/// The code of an issue.
pub open spec fn issue_code(i: IssueView) -> Seq<char> {
    match i {
        IssueView::ReadFailed { .. } => "readFailed"@,
        IssueView::DecodeFailed { .. } => "decodeFailed"@,
        IssueView::UnrecognizedShape => "unrecognizedShape"@,
        IssueView::SampleDecode { error } => decode_code(error),
        IssueView::Corpus { issue } => corpus_code(issue),
    }
}

impl Issue {
    /// The issue's scope.
    pub fn scope(&self) -> (r: &'static str)
        ensures
            r@ == issue_scope(self@),
    {
        match self {
            Issue::ReadFailed { .. } => "io",
            Issue::DecodeFailed { .. } => "json",
            Issue::UnrecognizedShape => "json",
            Issue::SampleDecode { .. } => "sampleDecode",
            Issue::Corpus { .. } => "corpus",
        }
    }

    /// The issue's code.
    pub fn code(&self) -> (r: &'static str)
        ensures
            r@ == issue_code(self@),
    {
        match self {
            Issue::ReadFailed { .. } => "readFailed",
            Issue::DecodeFailed { .. } => "decodeFailed",
            Issue::UnrecognizedShape => "unrecognizedShape",
            Issue::SampleDecode { error } => decode_error_code(error),
            Issue::Corpus { issue } => issue.code(),
        }
    }
}

/// One finding of a run.
#[derive(Debug, Clone, PartialEq)]
pub struct Finding {
    /// The file checked, as the caller wrote its path.
    pub path: String,
    pub stage: Stage,
    pub severity: Severity,
    /// For a finding on one fact, its position in the file's `facts`.
    pub fact_index: Option<usize>,
    /// For a finding on one fact, the fact's id in the file.
    pub fact_id: Option<u128>,
    pub issue: Issue,
}

/// A finding with its texts taken by their characters.
pub struct FindingView {
    pub path: Seq<char>,
    pub stage: Stage,
    pub severity: Severity,
    pub fact_index: Option<usize>,
    pub fact_id: Option<u128>,
    pub issue: IssueView,
}

impl View for Finding {
    type V = FindingView;

    open spec fn view(&self) -> FindingView {
        FindingView {
            path: self.path@,
            stage: self.stage,
            severity: self.severity,
            fact_index: self.fact_index,
            fact_id: self.fact_id,
            issue: self.issue@,
        }
    }
}

/// An error finding on a whole file.
pub open spec fn file_finding(path: Seq<char>, stage: Stage, issue: IssueView) -> FindingView {
    FindingView { path, stage, severity: Severity::Error, fact_index: None, fact_id: None, issue }
}

/// The decimal digit for `d` (`0 <= d < 10`).
pub open spec fn digit_char(d: int) -> char {
    (48 + d) as char
}

/// The decimal numeral of `n`.
pub open spec fn decimal(n: nat) -> Seq<char>
    decreases n,
{
    if n < 10 {
        seq![digit_char(n as int)]
    } else {
        decimal(n / 10).push(digit_char((n % 10) as int))
    }
}

fn digit(d: usize) -> (r: char)
    requires
        d < 10,
    ensures
        r == digit_char(d as int),
{
    match d {
        0 => '0',
        1 => '1',
        2 => '2',
        3 => '3',
        4 => '4',
        5 => '5',
        6 => '6',
        7 => '7',
        8 => '8',
        _ => '9',
    }
}

/// Appends the decimal numeral of `n`.
pub fn push_decimal(out: &mut Vec<char>, n: usize)
    ensures
        final(out)@ == old(out)@ + decimal(n as nat),
    decreases n,
{
    if n >= 10 {
        push_decimal(out, n / 10);
    }
    out.push(digit(n % 10));
}

/// The line a finding prints as: `path: [scope/code]`, then a space and the issue's
/// parameters written as JSON when it has any (`params` is that text, empty when there
/// are none), then for a finding on one fact ` (facts[i]`, ` factID=<uuid>` when the
/// fact has an id, and `)`.
pub open spec fn spec_human_line(f: FindingView, params: Seq<char>) -> Seq<char> {
    let head = f.path + ": ["@ + issue_scope(f.issue) + "/"@ + issue_code(f.issue) + "]"@;
    let with_params = if params.len() > 0 { head + " "@ + params } else { head };
    match f.fact_index {
        None => with_params,
        Some(i) => {
            let id = match f.fact_id {
                Some(v) => " factID="@ + uuid_text(v, false),
                None => Seq::<char>::empty(),
            };
            with_params + " (facts["@ + decimal(i as nat) + "]"@ + id + ")"@
        },
    }
}

impl Finding {
    /// An error finding on the file at `path`.
    pub fn new(path: &str, stage: Stage, issue: Issue) -> (r: Finding)
        ensures
            r@ == file_finding(path@, stage, issue@),
    {
        Finding { path: path.to_owned(), stage, severity: Severity::Error, fact_index: None, fact_id: None, issue }
    }

    /// The same finding, as a warning.
    pub fn warning(self) -> (r: Finding)
        ensures
            r@ == (FindingView { severity: Severity::Warning, ..self@ }),
    {
        Finding { severity: Severity::Warning, ..self }
    }

    /// The finding as one line of text; `params` is the JSON text of the issue's
    /// parameters, empty when it has none.
    pub fn human_line(&self, params: &str) -> (r: String)
        ensures
            r@ == spec_human_line(self@, params@),
    {
        let mut line: Vec<char> = Vec::new();
        push_text(&mut line, self.path.as_str());
        push_text(&mut line, ": [");
        push_text(&mut line, self.issue.scope());
        push_text(&mut line, "/");
        push_text(&mut line, self.issue.code());
        push_text(&mut line, "]");
        if !params.is_empty() {
            push_text(&mut line, " ");
            push_text(&mut line, params);
        }
        match self.fact_index {
            None => {},
            Some(i) => {
                push_text(&mut line, " (facts[");
                push_decimal(&mut line, i);
                push_text(&mut line, "]");
                let ghost before_id = line@;
                match self.fact_id {
                    Some(v) => {
                        push_text(&mut line, " factID=");
                        let id = uuid_lower_text(v);
                        push_text(&mut line, id.as_str());
                        proof {
                            assert(line@ == before_id + (" factID="@ + uuid_text(v, false)));
                        }
                    },
                    None => {
                        proof {
                            assert(line@ == before_id + Seq::<char>::empty());
                        }
                    },
                }
                push_text(&mut line, ")");
            },
        }
        string_of(line.as_slice())
    }
}

/// The findings of a run and the number of files it read.
#[derive(Debug, PartialEq)]
pub struct RunReport {
    pub checked_files: usize,
    pub findings: Vec<Finding>,
}

/// The findings of a report taken by their views.
pub open spec fn findings_view(findings: Seq<Finding>) -> Seq<FindingView> {
    findings.map_values(|f: Finding| f@)
}

/// An error finding.
pub open spec fn is_error(f: FindingView) -> bool {
    f.severity == Severity::Error
}

/// A warning finding.
pub open spec fn is_warning(f: FindingView) -> bool {
    f.severity == Severity::Warning
}

impl RunReport {
    /// A report with nothing read and nothing found.
    pub fn new() -> (r: RunReport)
        ensures
            r.checked_files == 0,
            r.findings@.len() == 0,
    {
        RunReport { checked_files: 0, findings: Vec::new() }
    }

    pub open spec fn spec_findings(&self) -> Seq<FindingView> {
        findings_view(self.findings@)
    }

    /// Adds a finding.
    pub fn push(&mut self, finding: Finding)
        ensures
            final(self).checked_files == old(self).checked_files,
            final(self).spec_findings() == old(self).spec_findings().push(finding@),
    {
        self.findings.push(finding);
        proof {
            assert(self.spec_findings() == old(self).spec_findings().push(finding@));
        }
    }

    /// The number of findings.
    pub fn finding_count(&self) -> (r: usize)
        ensures
            r == self.findings@.len(),
    {
        self.findings.len()
    }

    /// The exit status of a run: 0 when no error was found (warnings alone pass), 1
    /// otherwise.
    pub fn exit_code(&self) -> (r: u8)
        ensures
            r == (if count_where(self.spec_findings(), |f: FindingView| is_error(f)) == 0 { 0u8 } else { 1u8 }),
    {
        if self.error_count() == 0 {
            0
        } else {
            1
        }
    }

    /// The number of error findings.
    pub fn error_count(&self) -> (r: usize)
        ensures
            r == count_where(self.spec_findings(), |f: FindingView| is_error(f)),
    {
        self.count_severity(Severity::Error)
    }

    /// The number of warning findings.
    pub fn warning_count(&self) -> (r: usize)
        ensures
            r == count_where(self.spec_findings(), |f: FindingView| is_warning(f)),
    {
        self.count_severity(Severity::Warning)
    }

    fn count_severity(&self, severity: Severity) -> (r: usize)
        ensures
            r == count_where(self.spec_findings(), |f: FindingView| f.severity == severity),
            severity == Severity::Error ==> r == count_where(self.spec_findings(), |f: FindingView| is_error(f)),
            severity == Severity::Warning ==> r == count_where(self.spec_findings(), |f: FindingView| is_warning(f)),
    {
        let ghost all = self.spec_findings();
        let mut n: usize = 0;
        let mut i: usize = 0;
        while i < self.findings.len()
            invariant
                i <= self.findings@.len(),
                all == self.spec_findings(),
                all.len() == self.findings@.len(),
                n == count_where(all.take(i as int), |f: FindingView| f.severity == severity),
                n <= i,
            decreases self.findings@.len() - i,
        {
            proof {
                crate::seqs::lemma_count_where_step(all, |f: FindingView| f.severity == severity, i as int);
                assert(all[i as int] == self.findings@[i as int]@);
            }
            if self.findings[i].severity == severity {
                n = n + 1;
            }
            i += 1;
        }
        proof {
            assert(all.take(all.len() as int) == all);
            assert((|f: FindingView| f.severity == severity) == (|f: FindingView| is_error(f)) || severity != Severity::Error);
            assert((|f: FindingView| f.severity == severity) == (|f: FindingView| is_warning(f)) || severity != Severity::Warning);
        }
        n
    }
}

} // verus!
