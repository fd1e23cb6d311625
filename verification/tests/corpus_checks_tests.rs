use handball_toolkit::clock::{FactAnchor, MatchClock, Seconds, UtcDateTime};
use handball_toolkit::configuration::{MatchConfiguration, PhaseKind, VideoProvider, VideoSource};
use handball_toolkit::corpus::checks::{
    date_order_violations, derived_match_info, duplicate_fact_id_positions, duplicate_slug_positions,
    entry_actions, incomplete_match_coverage, regular_phase_count, slug_matches_date, unexpected_anchor_end_positions,
    unlisted_positions, DerivedMatchInfo, EntryAction,
};
use handball_toolkit::facts::{ControlFact, MatchFact, MatchFactPayload, PhaseStartPayload};
use handball_toolkit::ids::FactId;
use handball_toolkit::sample_dto::converter::convert;
use handball_toolkit::sample_dto::{
    SampleFactAnchorDtoV2, SampleFactDtoV2, SampleFactPayloadDtoV2, SampleHighlightSummaryV2, SampleMatchClockDtoV2,
    SampleMatchConfigurationDtoV2, SampleMatchDtoV2, SampleMatchHeaderV2, SampleMatchSummaryV2, SamplePlayFactDtoV2,
    SampleTeamDtoV2, SampleTeamsDtoV2, SampleTimerConfigurationDtoV2,
};

const DAY: i128 = 86_400 * 1_000_000_000;
const FEB_1_2026: i128 = 1_769_904_000 * 1_000_000_000;

fn at(nanos: i128) -> UtcDateTime {
    UtcDateTime { unix_nanos: nanos }
}

#[test]
fn repeated_slugs_are_reported_at_each_repeat() {
    let slugs: Vec<String> = ["a", "b", "a", "c", "a", "b"].iter().map(|s| s.to_string()).collect();
    assert_eq!(duplicate_slug_positions(&slugs), vec![2, 4, 5]);
    assert!(duplicate_slug_positions(&[]).is_empty());
}

#[test]
fn index_must_list_newest_first_but_allows_equal_dates() {
    let dates = vec![at(FEB_1_2026), at(FEB_1_2026), at(FEB_1_2026 - DAY), at(FEB_1_2026 + DAY), at(0)];
    assert_eq!(date_order_violations(&dates), vec![3]);
    assert!(date_order_violations(&[]).is_empty());
    assert!(date_order_violations(&[at(5)]).is_empty());
}

#[test]
fn slug_must_start_with_the_match_date() {
    assert!(slug_matches_date("2026-02-01-bad-score", at(FEB_1_2026 + 3_600_000_000_000)));
    assert!(!slug_matches_date("2026-02-02-missing-file", at(FEB_1_2026)));
    assert!(!slug_matches_date("with-phase", at(FEB_1_2026)));
    assert!(!slug_matches_date("2026-02", at(FEB_1_2026)));
    assert!(!slug_matches_date("2026-02-01", at(i128::MAX)));
}

fn play_dto(id: Option<u128>, end: Option<i64>) -> SampleFactDtoV2 {
    SampleFactDtoV2 {
        fact_id: id,
        recorded_at: at(0),
        payload: SampleFactPayloadDtoV2 {
            kind: "play".to_string(),
            play: Some(SamplePlayFactDtoV2 {
                kind: "freeNote".to_string(),
                team_key: None,
                player_key: None,
                related_player_key: None,
                anchor: SampleFactAnchorDtoV2 {
                    kind: "matchClock".to_string(),
                    match_clock: Some(SampleMatchClockDtoV2 { elapsed_seconds: Seconds::from_millis(1000) }),
                    video_clock: None,
                    end_match_elapsed_seconds: None,
                    end_video_elapsed_seconds: end.map(Seconds::from_millis),
                },
                title: None,
                note: Some("n".to_string()),
            }),
            control: None,
            possession: None,
        },
    }
}

#[test]
fn repeated_fact_ids_are_reported_but_missing_ids_are_not() {
    let facts = vec![play_dto(Some(0x2222), None), play_dto(None, None), play_dto(None, None), play_dto(Some(0x2222), None)];
    assert_eq!(duplicate_fact_id_positions(&facts), vec![3]);
}

#[test]
fn an_end_on_a_play_anchor_is_reported() {
    let facts = vec![play_dto(Some(1), None), play_dto(Some(2), Some(5000))];
    assert_eq!(unexpected_anchor_end_positions(&facts), vec![1]);
}

fn phase(id: u128, kind: PhaseKind) -> MatchFact {
    let mc = FactAnchor::MatchClock(MatchClock { elapsed_seconds: Seconds::from_millis(0) });
    MatchFact {
        id: FactId(id),
        recorded_at: at(0),
        payload: MatchFactPayload::Control(ControlFact::PhaseStart(PhaseStartPayload { kind, start_anchor: mc, end_anchor: mc })),
    }
}

#[test]
fn a_match_with_one_half_is_flagged_unless_highlights() {
    let half = vec![phase(1, PhaseKind::Regular), phase(2, PhaseKind::Shootout)];
    assert_eq!(regular_phase_count(&half), 1);
    let timer = MatchConfiguration::Timer { phase_duration_seconds: Seconds::from_millis(1_800_000) };
    assert_eq!(incomplete_match_coverage(&half, &timer), Some(1));
    let highlight = MatchConfiguration::VideoHighlight(VideoSource { provider: VideoProvider::Youtube, external_id: "x".to_string() });
    assert_eq!(incomplete_match_coverage(&half, &highlight), None);
    let full = vec![phase(1, PhaseKind::Regular), phase(2, PhaseKind::Regular)];
    assert_eq!(incomplete_match_coverage(&full, &timer), None);
}

#[test]
fn index_entries_are_planned_against_the_files_present() {
    let slugs: Vec<String> = ["a", "b", "a", "c", "b", "c"].iter().map(|s| s.to_string()).collect();
    let present = vec![true, false, true, true, false, true];
    assert_eq!(
        entry_actions(&slugs, &present),
        vec![
            EntryAction::Check,
            EntryAction::Missing,
            EntryAction::Repeat,
            EntryAction::Check,
            EntryAction::Missing,
            EntryAction::Repeat,
        ]
    );
    // A slug whose earlier entry had no file is checked when its file appears.
    assert_eq!(
        entry_actions(&["x".to_string(), "x".to_string()], &[false, true]),
        vec![EntryAction::Missing, EntryAction::Check]
    );
}

#[test]
fn files_no_entry_lists_are_orphans() {
    let listed: Vec<String> = ["2026-01-01-a", "2026-01-02-b"].iter().map(|s| s.to_string()).collect();
    let names: Vec<String> = ["2026-01-01-a", "orphan", "2026-01-02-b", "index"].iter().map(|s| s.to_string()).collect();
    assert_eq!(unlisted_positions(&listed, &names), vec![1, 3]);
    assert!(unlisted_positions(&listed, &[]).is_empty());
}

#[test]
fn derived_info_scores_the_converted_file() {
    let goal = |team: &str| SampleFactDtoV2 {
        fact_id: None,
        recorded_at: at(0),
        payload: SampleFactPayloadDtoV2 {
            kind: "play".to_string(),
            play: Some(SamplePlayFactDtoV2 {
                kind: "goal".to_string(),
                team_key: Some(team.to_string()),
                player_key: None,
                related_player_key: None,
                anchor: SampleFactAnchorDtoV2 {
                    kind: "matchClock".to_string(),
                    match_clock: Some(SampleMatchClockDtoV2 { elapsed_seconds: Seconds::from_millis(1) }),
                    video_clock: None,
                    end_match_elapsed_seconds: None,
                    end_video_elapsed_seconds: None,
                },
                title: None,
                note: None,
            }),
            control: None,
            possession: None,
        },
    };
    let team = |key: &str, name: &str| SampleTeamDtoV2 { key: key.to_string(), name: name.to_string(), players: vec![] };
    let dto = SampleMatchDtoV2 {
        schema_version: 2,
        match_: SampleMatchHeaderV2 {
            display_name: None,
            date: at(0),
            configuration: SampleMatchConfigurationDtoV2 {
                kind: "timer".to_string(),
                timer: Some(SampleTimerConfigurationDtoV2 { phase_duration_seconds: Seconds::from_millis(1) }),
                video: None,
                video_highlight: None,
            },
        },
        teams: SampleTeamsDtoV2 { home: team("home", "Tigers"), away: team("away", "Falcons") },
        facts: vec![goal("home"), goal("away"), goal("home")],
    };
    let ids: Vec<u128> = (1..=6).collect();
    let conversion = convert("x", &dto, None, &ids).unwrap();
    let info = derived_match_info(&dto, &conversion);
    assert_eq!(info, DerivedMatchInfo {
        home_score: 2,
        away_score: 1,
        fact_count: 3,
        has_video: false,
        home_team_name: "Tigers".to_string(),
        away_team_name: "Falcons".to_string(),
    });
}
