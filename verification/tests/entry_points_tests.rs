use handball_toolkit::clock::{Seconds, UtcDateTime};
use handball_toolkit::entry_points::{
    build_match_view, new_ids_verdict, parse_ids, player_deletion_verdict, team_deletion_verdict, CoreWriteError,
    WasmError,
};
use handball_toolkit::sample_dto::converter::required_id_count;
use handball_toolkit::sample_dto::{
    SampleFactAnchorDtoV2, SampleFactDtoV2, SampleFactPayloadDtoV2, SampleMatchClockDtoV2,
    SampleMatchConfigurationDtoV2, SampleMatchDecodeErrorV2, SampleMatchDtoV2, SampleMatchHeaderV2,
    SamplePlayFactDtoV2, SamplePlayerDtoV2, SampleTeamDtoV2, SampleTeamsDtoV2, SampleTimerConfigurationDtoV2,
    SampleControlFactDtoV2, SamplePhaseStartPayloadDtoV2,
};

fn ids(count: usize) -> Vec<String> {
    (0..count).map(|i| format!("00000000-0000-4000-8000-{i:012x}")).collect()
}

fn goal(team: &str, at_s: i64) -> SampleFactDtoV2 {
    SampleFactDtoV2 {
        fact_id: None,
        recorded_at: UtcDateTime { unix_nanos: at_s as i128 },
        payload: SampleFactPayloadDtoV2 {
            kind: "play".to_string(),
            play: Some(SamplePlayFactDtoV2 {
                kind: "goal".to_string(),
                team_key: Some(team.to_string()),
                player_key: None,
                related_player_key: None,
                anchor: SampleFactAnchorDtoV2 {
                    kind: "matchClock".to_string(),
                    match_clock: Some(SampleMatchClockDtoV2 { elapsed_seconds: Seconds::from_millis(at_s * 1000) }),
                    video_clock: None,
                    end_match_elapsed_seconds: None,
                    end_video_elapsed_seconds: None,
                },
                title: None,
                note: None,
            }),
            control: None,
            possession: None,
        },
    }
}

fn timer_dto() -> SampleMatchDtoV2 {
    SampleMatchDtoV2 {
        schema_version: 2,
        match_: SampleMatchHeaderV2 {
            display_name: Some("決勝 / ファイナル".to_string()),
            date: UtcDateTime { unix_nanos: 0 },
            configuration: SampleMatchConfigurationDtoV2 {
                kind: "timer".to_string(),
                timer: Some(SampleTimerConfigurationDtoV2 { phase_duration_seconds: Seconds::from_millis(1_800_000) }),
                video: None,
                video_highlight: None,
            },
        },
        teams: SampleTeamsDtoV2 {
            home: SampleTeamDtoV2 {
                key: "home".to_string(),
                name: "Tigers".to_string(),
                players: vec![SamplePlayerDtoV2 { key: "h".to_string(), name: "H".to_string(), jersey_number: Some(1) }],
            },
            away: SampleTeamDtoV2 { key: "away".to_string(), name: "Falcons".to_string(), players: vec![] },
        },
        facts: vec![goal("home", 60), goal("home", 120), goal("away", 200)],
    }
}

#[test]
fn insufficient_ids_boundary() {
    let dto = timer_dto();
    let required = required_id_count(&dto);
    assert!(required > 0);
    let short = parse_ids(&ids(required - 1)).expect("valid UUIDs");
    assert_eq!(
        build_match_view("timer", &dto, &short).unwrap_err(),
        WasmError::InsufficientNewIds { required, provided: required - 1 }
    );
    let exact = parse_ids(&ids(required)).expect("valid UUIDs");
    assert!(build_match_view("timer", &dto, &exact).is_ok());
}

#[test]
fn reports_invalid_uuid_with_position() {
    let error = parse_ids(&["00000000-0000-4000-8000-000000000000".to_string(), "not-a-uuid".to_string()]).unwrap_err();
    assert_eq!(error, WasmError::InvalidUuid { index: 1, value: "not-a-uuid".to_string() });
}

#[test]
fn parse_ids_reads_uuid_values() {
    let parsed = parse_ids(&ids(3)).unwrap();
    assert_eq!(parsed, vec![0x00000000_0000_4000_8000_000000000000, 0x00000000_0000_4000_8000_000000000001, 0x00000000_0000_4000_8000_000000000002]);
}

#[test]
fn parse_ids_accepts_the_four_uuid_forms_in_either_case() {
    let forms = [
        "000000000000000000000000000000aB",
        "00000000-0000-0000-0000-0000000000Ab",
        "{00000000-0000-0000-0000-0000000000ab}",
        "UrN:uUiD:00000000-0000-0000-0000-0000000000AB",
    ];
    let parsed = parse_ids(&forms.iter().map(|s| s.to_string()).collect::<Vec<_>>()).unwrap();
    assert_eq!(parsed, vec![0xab, 0xab, 0xab, 0xab]);
    for bad in [
        "000000000000000000000000000000ag",
        "00000000-0000-0000-0000_0000000000ab",
        "[00000000-0000-0000-0000-0000000000ab]",
        "urn:uid:000000000-0000-0000-0000-0000000000ab",
        "0000000000000000000000000000000ä",
        "",
    ] {
        let error = parse_ids(&[bad.to_string()]).unwrap_err();
        assert_eq!(error, WasmError::InvalidUuid { index: 0, value: bad.to_string() });
    }
}

#[test]
fn builds_view_in_one_call() {
    let dto = timer_dto();
    let parsed = parse_ids(&ids(required_id_count(&dto))).unwrap();
    let view = build_match_view("timer", &dto, &parsed).unwrap();
    assert_eq!(view.home_team.name, "Tigers");
    assert_eq!(view.away_team.name, "Falcons");
    assert_eq!(view.match_.title.as_deref(), Some("決勝 / ファイナル"));
    assert_eq!(view.summary.home_score, 2);
    assert_eq!(view.summary.away_score, 1);
    assert_eq!(view.timeline.resolved_facts.len(), 3);
    assert_eq!(view.players.len(), 1);
}

#[test]
fn build_view_reports_decode_errors() {
    let mut dto = timer_dto();
    dto.facts[1].payload.play.as_mut().unwrap().team_key = Some("nobody".to_string());
    let parsed = parse_ids(&ids(required_id_count(&dto))).unwrap();
    assert_eq!(
        build_match_view("timer", &dto, &parsed).unwrap_err(),
        WasmError::Decode { error: SampleMatchDecodeErrorV2::UnknownTeamKey("nobody".to_string()) }
    );
}

#[test]
fn deletion_is_refused_while_in_use() {
    assert_eq!(team_deletion_verdict(2), Err(CoreWriteError::TeamInUse { match_count: 2 }));
    assert_eq!(team_deletion_verdict(0), Ok(()));
    assert_eq!(player_deletion_verdict(5), Err(CoreWriteError::PlayerInUse { fact_count: 5 }));
    assert_eq!(player_deletion_verdict(0), Ok(()));
    assert_eq!(new_ids_verdict(3, 2), Err(CoreWriteError::InsufficientNewIds { required: 3, provided: 2 }));
    assert_eq!(new_ids_verdict(3, 3), Ok(()));
}

fn play_kind(kind: &str, team: &str, at_s: i64) -> SampleFactDtoV2 {
    let mut fact = goal(team, at_s);
    fact.payload.play.as_mut().unwrap().kind = kind.to_string();
    fact
}

fn regular_phase(start_s: i64, end_s: i64) -> SampleFactDtoV2 {
    SampleFactDtoV2 {
        fact_id: None,
        recorded_at: UtcDateTime { unix_nanos: start_s as i128 },
        payload: SampleFactPayloadDtoV2 {
            kind: "control".to_string(),
            play: None,
            control: Some(SampleControlFactDtoV2 {
                kind: "phaseStart".to_string(),
                phase_start: Some(SamplePhaseStartPayloadDtoV2 { kind: "regular".to_string() }),
                stoppage: None,
                anchor: SampleFactAnchorDtoV2 {
                    kind: "matchClock".to_string(),
                    match_clock: Some(SampleMatchClockDtoV2 { elapsed_seconds: Seconds::from_millis(start_s * 1000) }),
                    video_clock: None,
                    end_match_elapsed_seconds: Some(Seconds::from_millis(end_s * 1000)),
                    end_video_elapsed_seconds: None,
                },
            }),
            possession: None,
        },
    }
}

#[test]
fn builds_view_from_delivery_json() {
    // Two halves, one home goal, one away missed shot and six notes: ten facts.
    let mut dto = timer_dto();
    dto.facts = vec![regular_phase(0, 1800), goal("home", 60), play_kind("shotMissed", "away", 120)];
    for k in 0..6 {
        dto.facts.push(play_kind("freeNote", "home", 300 + 60 * k));
    }
    dto.facts.push(regular_phase(1800, 3600));
    let parsed = parse_ids(&ids(required_id_count(&dto))).unwrap();
    let view = build_match_view("timer", &dto, &parsed).unwrap();

    assert_eq!(view.home_team.name, "Tigers");
    assert_eq!(view.away_team.name, "Falcons");
    assert_eq!(view.match_.title.as_deref(), Some("決勝 / ファイナル"));
    assert_eq!(view.summary.home_score, 1);
    assert_eq!(view.summary.away_score, 0);
    assert_eq!(view.summary.home_team.shot_misses, 0);
    assert_eq!(view.summary.away_team.shot_misses, 1);
    assert_eq!(view.timeline.resolved_facts.len(), 10);
    assert!(!view.summary.phase_summaries.is_empty());
}
