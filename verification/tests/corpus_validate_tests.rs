use handball_toolkit::clock::{Seconds, UtcDateTime};
use handball_toolkit::corpus::checks::{DerivedMatchInfo, Stage};
use handball_toolkit::corpus::command::{parse_arguments, UsageError, ValidateCommand};
use handball_toolkit::corpus::report::{CorpusIssue, Finding, Issue, RunReport, Severity, TeamSide};
use handball_toolkit::corpus::validate::{
    check_highlight_consistency, check_match_consistency, check_slug_date_prefix, file_shape, validate_highlight_index_dto,
    validate_match_dto, validate_match_index_dto, FileShape,
};
use handball_toolkit::sample_dto::{
    SampleControlFactDtoV2, SampleFactAnchorDtoV2, SampleFactDtoV2, SampleFactPayloadDtoV2, SampleHighlightIndexDtoV2,
    SampleHighlightSummaryV2, SampleIndexDtoV2, SampleMatchClockDtoV2, SampleMatchConfigurationDtoV2,
    SampleMatchDecodeErrorV2, SampleMatchDtoV2, SampleMatchHeaderV2, SampleMatchSummaryV2, SamplePhaseStartPayloadDtoV2,
    SamplePlayFactDtoV2, SamplePossessionFactDtoV2, SampleTeamDtoV2, SampleTeamsDtoV2, SampleTimerConfigurationDtoV2,
};
use handball_toolkit::text::byte_prefix_text;

const DAY: i128 = 86_400 * 1_000_000_000;
const FEB_1_2026: i128 = 1_769_904_000 * 1_000_000_000;

fn at(nanos: i128) -> UtcDateTime {
    UtcDateTime { unix_nanos: nanos }
}

fn corpus(issue: CorpusIssue) -> Issue {
    Issue::Corpus { issue }
}

fn issues(report: &RunReport) -> Vec<Issue> {
    report.findings.iter().map(|f| f.issue.clone()).collect()
}

fn match_entry(slug: &str, date: i128) -> SampleMatchSummaryV2 {
    SampleMatchSummaryV2 {
        slug: slug.to_string(),
        display_name: "x".to_string(),
        description: None,
        date: at(date),
        home_score: 3,
        away_score: 1,
        has_video: false,
    }
}

fn anchor(end_video: Option<i64>, end_match: Option<i64>) -> SampleFactAnchorDtoV2 {
    SampleFactAnchorDtoV2 {
        kind: "matchClock".to_string(),
        match_clock: Some(SampleMatchClockDtoV2 { elapsed_seconds: Seconds::from_millis(60_000) }),
        video_clock: None,
        end_match_elapsed_seconds: end_match.map(Seconds::from_millis),
        end_video_elapsed_seconds: end_video.map(Seconds::from_millis),
    }
}

fn play(id: Option<u128>, kind: &str, team: Option<&str>, end_video: Option<i64>) -> SampleFactDtoV2 {
    SampleFactDtoV2 {
        fact_id: id,
        recorded_at: at(0),
        payload: SampleFactPayloadDtoV2 {
            kind: "play".to_string(),
            play: Some(SamplePlayFactDtoV2 {
                kind: kind.to_string(),
                team_key: team.map(|t| t.to_string()),
                player_key: None,
                related_player_key: None,
                anchor: anchor(end_video, None),
                title: None,
                note: None,
            }),
            control: None,
            possession: None,
        },
    }
}

fn regular_phase(id: u128, end: i64) -> SampleFactDtoV2 {
    SampleFactDtoV2 {
        fact_id: Some(id),
        recorded_at: at(0),
        payload: SampleFactPayloadDtoV2 {
            kind: "control".to_string(),
            play: None,
            control: Some(SampleControlFactDtoV2 {
                kind: "phaseStart".to_string(),
                phase_start: Some(SamplePhaseStartPayloadDtoV2 { kind: "regular".to_string() }),
                stoppage: None,
                anchor: anchor(None, Some(end)),
            }),
            possession: None,
        },
    }
}

fn match_file(facts: Vec<SampleFactDtoV2>) -> SampleMatchDtoV2 {
    let team = |key: &str, name: &str| SampleTeamDtoV2 { key: key.to_string(), name: name.to_string(), players: vec![] };
    SampleMatchDtoV2 {
        schema_version: 2,
        match_: SampleMatchHeaderV2 {
            display_name: None,
            date: at(FEB_1_2026),
            configuration: SampleMatchConfigurationDtoV2 {
                kind: "timer".to_string(),
                timer: Some(SampleTimerConfigurationDtoV2 { phase_duration_seconds: Seconds::from_millis(1_800_000) }),
                video: None,
                video_highlight: None,
            },
        },
        teams: SampleTeamsDtoV2 { home: team("home", "Tigers"), away: team("away", "Falcons") },
        facts,
    }
}

#[test]
fn a_match_index_is_checked_entry_by_entry() {
    let index = SampleIndexDtoV2 {
        schema_version: 1,
        matches: vec![
            match_entry("2026-02-01-bad-score", FEB_1_2026),
            match_entry("2026-02-02-missing-file", FEB_1_2026 + DAY),
            match_entry("2026-02-01-bad-score", FEB_1_2026),
            match_entry("with-phase", FEB_1_2026 + 2 * DAY),
        ],
    };
    let mut report = RunReport::new();
    validate_match_index_dto("index.json", &index, &mut report);
    assert_eq!(
        issues(&report),
        vec![
            corpus(CorpusIssue::SchemaVersionMismatch { found: 1, expected: 2 }),
            corpus(CorpusIssue::DuplicateSlug { slug: "2026-02-01-bad-score".to_string() }),
            corpus(CorpusIssue::IndexNotDateDescending {
                previous_slug: "2026-02-01-bad-score".to_string(),
                previous_date: at(FEB_1_2026),
                slug: "2026-02-02-missing-file".to_string(),
                date: at(FEB_1_2026 + DAY),
            }),
            corpus(CorpusIssue::IndexNotDateDescending {
                previous_slug: "2026-02-01-bad-score".to_string(),
                previous_date: at(FEB_1_2026),
                slug: "with-phase".to_string(),
                date: at(FEB_1_2026 + 2 * DAY),
            }),
            corpus(CorpusIssue::SlugDateMismatch {
                slug: "with-phase".to_string(),
                expected: Some("2026-02-03".to_string()),
                found: Some("with-phase".to_string()),
            }),
        ]
    );
    assert!(report.findings.iter().all(|f| f.path == "index.json" && f.stage == Stage::Corpus && f.severity == Severity::Error));
    assert_eq!(report.checked_files, 0);
    assert_eq!(report.exit_code(), 1);
}

#[test]
fn a_descending_index_with_equal_dates_passes() {
    let index = SampleHighlightIndexDtoV2 {
        schema_version: 2,
        highlights: vec![
            SampleHighlightSummaryV2 {
                slug: "2026-02-02-b".to_string(),
                display_name: "b".to_string(),
                description: None,
                date: at(FEB_1_2026 + DAY),
                home_team_name: "A".to_string(),
                away_team_name: "B".to_string(),
                fact_count: 1,
                has_video: true,
            },
            SampleHighlightSummaryV2 {
                slug: "2026-02-01-a".to_string(),
                display_name: "a".to_string(),
                description: None,
                date: at(FEB_1_2026 + 3_600_000_000_000),
                home_team_name: "A".to_string(),
                away_team_name: "B".to_string(),
                fact_count: 1,
                has_video: true,
            },
            SampleHighlightSummaryV2 {
                slug: "2026-02-01-c".to_string(),
                display_name: "c".to_string(),
                description: None,
                date: at(FEB_1_2026 + 3_600_000_000_000),
                home_team_name: "A".to_string(),
                away_team_name: "B".to_string(),
                fact_count: 1,
                has_video: true,
            },
        ],
    };
    let mut report = RunReport::new();
    validate_highlight_index_dto("highlights/index.json", &index, &mut report);
    assert!(report.findings.is_empty(), "{:?}", report.findings);
    assert_eq!(report.exit_code(), 0);
}

#[test]
fn a_slug_date_mismatch_carries_the_first_ten_bytes() {
    let slugs: Vec<String> = ["２０２６-02-01-wide", "2026-02", "2026-02-01"].iter().map(|s| s.to_string()).collect();
    let dates = vec![at(FEB_1_2026); 3];
    let mut report = RunReport::new();
    check_slug_date_prefix("i", &slugs, &dates, &mut report);
    assert_eq!(
        issues(&report),
        vec![
            corpus(CorpusIssue::SlugDateMismatch {
                slug: "２０２６-02-01-wide".to_string(),
                expected: Some("2026-02-01".to_string()),
                found: None,
            }),
            corpus(CorpusIssue::SlugDateMismatch {
                slug: "2026-02".to_string(),
                expected: Some("2026-02-01".to_string()),
                found: None,
            }),
        ]
    );
    assert_eq!(byte_prefix_text("２０x", 7), Some("２０x".to_string()));
    assert_eq!(byte_prefix_text("２０x", 4), None);
    assert_eq!(byte_prefix_text("abc", 0), Some(String::new()));
    assert_eq!(byte_prefix_text("abc", 4), None);
}

#[test]
fn file_level_checks_come_before_a_failed_conversion() {
    let dto = match_file(vec![
        play(Some(0x1111), "goal", Some("nobody"), None),
        play(Some(0x2222), "freeNote", None, Some(160_000)),
        play(None, "freeNote", None, None),
        play(Some(0x2222), "freeNote", None, None),
    ]);
    let mut report = RunReport::new();
    let derived = validate_match_dto("bad.json", &dto, &mut report);
    assert_eq!(derived, None);
    assert_eq!(report.findings.len(), 3);

    let duplicate = &report.findings[0];
    assert_eq!(duplicate.issue, corpus(CorpusIssue::DuplicateFactId));
    assert_eq!(duplicate.fact_index, Some(3));
    assert_eq!(duplicate.fact_id, Some(0x2222));

    let end = &report.findings[1];
    assert_eq!(
        end.issue,
        corpus(CorpusIssue::UnexpectedAnchorEnd {
            payload_kind: "play".to_string(),
            end_match_elapsed_seconds: None,
            end_video_elapsed_seconds: Some(Seconds::from_millis(160_000)),
        })
    );
    assert_eq!(end.fact_index, Some(1));

    let conversion = &report.findings[2];
    assert_eq!(conversion.stage, Stage::Convert);
    assert_eq!(
        conversion.issue,
        Issue::SampleDecode { error: SampleMatchDecodeErrorV2::UnknownTeamKey("nobody".to_string()) }
    );
    assert_eq!(conversion.fact_index, None);
    assert_eq!(
        duplicate.human_line(""),
        "bad.json: [corpus/duplicateFactID] (facts[3] factID=00000000-0000-0000-0000-000000002222)"
    );
    assert_eq!(
        conversion.human_line("{\"value\":\"nobody\"}"),
        "bad.json: [sampleDecode/unknownTeamKey] {\"value\":\"nobody\"}"
    );
}

#[test]
fn half_only_match_is_a_warning_and_passes() {
    let dto = match_file(vec![regular_phase(1, 1_800_000), play(None, "goal", Some("home"), None)]);
    let mut report = RunReport::new();
    let derived = validate_match_dto("half.json", &dto, &mut report);
    assert_eq!(
        derived,
        Some(DerivedMatchInfo {
            home_score: 1,
            away_score: 0,
            fact_count: 2,
            has_video: false,
            home_team_name: "Tigers".to_string(),
            away_team_name: "Falcons".to_string(),
        })
    );
    assert_eq!(issues(&report), vec![corpus(CorpusIssue::MatchCoverageIncomplete { regular_phase_count: 1 })]);
    assert_eq!(report.findings[0].severity, Severity::Warning);
    assert_eq!(report.error_count(), 0);
    assert_eq!(report.warning_count(), 1);
    assert_eq!(report.finding_count(), 1);
    assert_eq!(report.exit_code(), 0);

    let full = match_file(vec![regular_phase(1, 1_800_000), regular_phase(2, 3_600_000)]);
    let mut report = RunReport::new();
    assert!(validate_match_dto("full.json", &full, &mut report).is_some());
    assert!(report.findings.is_empty());
}

fn derived(home: i64, away: i64, video: bool) -> DerivedMatchInfo {
    DerivedMatchInfo {
        home_score: home,
        away_score: away,
        fact_count: 10,
        has_video: video,
        home_team_name: "Tigers".to_string(),
        away_team_name: "Falcons".to_string(),
    }
}

#[test]
fn index_entries_are_checked_against_their_files() {
    let dto = match_file(vec![]);
    let entry = match_entry("2026-02-01-bad-score", FEB_1_2026);
    let mut report = RunReport::new();
    check_match_consistency("m.json", &entry, &dto, Some(&derived(3, 1, false)), &mut report);
    assert!(report.findings.is_empty());
    check_match_consistency("m.json", &entry, &dto, Some(&derived(2, 1, false)), &mut report);
    assert_eq!(
        issues(&report),
        vec![corpus(CorpusIssue::ScoreMismatch { index_home: 3, index_away: 1, computed_home: 2, computed_away: 1 })]
    );

    let late = match_entry("2026-02-01-bad-score", FEB_1_2026 + 1);
    let mut report = RunReport::new();
    check_match_consistency("m.json", &late, &dto, Some(&derived(3, 1, true)), &mut report);
    check_match_consistency("m.json", &late, &dto, None, &mut report);
    let date_mismatch = corpus(CorpusIssue::DateMismatch { index: at(FEB_1_2026 + 1), body: at(FEB_1_2026) });
    assert_eq!(
        issues(&report),
        vec![date_mismatch.clone(), corpus(CorpusIssue::HasVideoMismatch { index: false, body: true }), date_mismatch]
    );

    let highlight = SampleHighlightSummaryV2 {
        slug: "with-phase".to_string(),
        display_name: "x".to_string(),
        description: None,
        date: at(FEB_1_2026),
        home_team_name: "Tigers".to_string(),
        away_team_name: "Hawks".to_string(),
        fact_count: 9,
        has_video: false,
    };
    let mut report = RunReport::new();
    check_highlight_consistency("h.json", &highlight, &dto, Some(&derived(0, 0, true)), &mut report);
    assert_eq!(
        issues(&report),
        vec![
            corpus(CorpusIssue::FactCountMismatch { index: 9, body: 10 }),
            corpus(CorpusIssue::TeamNameMismatch {
                side: TeamSide::Away,
                index: "Hawks".to_string(),
                body: "Falcons".to_string(),
            }),
            corpus(CorpusIssue::HasVideoMismatch { index: false, body: true }),
        ]
    );
}

#[test]
fn files_are_recognised_by_their_keys() {
    let keys = |ks: &[&str]| ks.iter().map(|k| k.to_string()).collect::<Vec<String>>();
    assert_eq!(file_shape(&keys(&["schemaVersion", "facts", "matches"])), Some(FileShape::MatchFile));
    assert_eq!(file_shape(&keys(&["matches", "highlights"])), Some(FileShape::MatchIndex));
    assert_eq!(file_shape(&keys(&["highlights"])), Some(FileShape::HighlightIndex));
    assert_eq!(file_shape(&keys(&["other"])), None);
    assert_eq!(file_shape(&[]), None);
}

#[test]
fn command_lines_are_read_or_refused() {
    let args = |xs: &[&str]| xs.iter().map(|x| x.to_string()).collect::<Vec<String>>();
    assert_eq!(
        parse_arguments(&args(&["validate", "a.json", "--json", "dir"])),
        Ok(ValidateCommand { json_output: true, paths: args(&["a.json", "dir"]) })
    );
    assert_eq!(parse_arguments(&[]), Err(UsageError::MissingSubcommand));
    assert_eq!(
        parse_arguments(&args(&["check", "a"])),
        Err(UsageError::UnknownSubcommand { command: "check".to_string() })
    );
    assert_eq!(
        parse_arguments(&args(&["validate", "a", "-x", "--y"])),
        Err(UsageError::UnknownFlag { flag: "-x".to_string() })
    );
    assert_eq!(parse_arguments(&args(&["validate", "--json"])), Err(UsageError::NoPaths));
}

#[test]
fn findings_print_as_one_line() {
    let plain = Finding::new("a/index.json", Stage::Corpus, corpus(CorpusIssue::MissingIndex));
    assert_eq!(plain.human_line(""), "a/index.json: [corpus/missingIndex]");
    let read = Finding::new("x.json", Stage::Read, Issue::ReadFailed { detail: "gone".to_string() });
    assert_eq!(read.human_line("{\"message\":\"gone\"}"), "x.json: [io/readFailed] {\"message\":\"gone\"}");
    let mut on_fact = Finding::new("m.json", Stage::Corpus, corpus(CorpusIssue::DuplicateFactId)).warning();
    on_fact.fact_index = Some(12);
    assert_eq!(on_fact.severity, Severity::Warning);
    assert_eq!(on_fact.human_line(""), "m.json: [corpus/duplicateFactID] (facts[12])");
    assert_eq!(Issue::UnrecognizedShape.scope(), "json");
    assert_eq!(Issue::UnrecognizedShape.code(), "unrecognizedShape");
}

#[test]
fn a_possession_with_an_end_is_reported_like_a_play() {
    let mut possession = play(Some(0x4444), "freeNote", None, None);
    possession.payload = SampleFactPayloadDtoV2 {
        kind: "possession".to_string(),
        play: None,
        control: None,
        possession: Some(SamplePossessionFactDtoV2 { team_key: "home".to_string(), anchor: anchor(Some(160_000), None) }),
    };
    let dto = match_file(vec![
        regular_phase(1, 1_800_000),
        play(Some(0x2), "freeNote", None, Some(90_000)),
        regular_phase(3, 3_600_000),
        play(None, "goal", Some("home"), None),
        possession,
    ]);
    let mut report = RunReport::new();
    let derived = validate_match_dto("bad.json", &dto, &mut report);
    assert!(derived.is_some());
    assert_eq!(report.findings.len(), 2);
    assert_eq!(report.findings[0].fact_index, Some(1));
    assert_eq!(
        report.findings[1].issue,
        corpus(CorpusIssue::UnexpectedAnchorEnd {
            payload_kind: "possession".to_string(),
            end_match_elapsed_seconds: None,
            end_video_elapsed_seconds: Some(Seconds::from_millis(160_000)),
        })
    );
    assert_eq!(report.findings[1].fact_index, Some(4));
    assert_eq!(report.findings[1].fact_id, Some(0x4444));
}
