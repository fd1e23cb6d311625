use handball_toolkit::clock::{FactAnchor, MatchClock, Seconds, UtcDateTime, VideoClock};
use handball_toolkit::configuration::{MatchConfiguration, PhaseKind, VideoProvider, VideoSource};
use handball_toolkit::entities::{Match, Player, RosterSelection, Team};
use handball_toolkit::entry_points::{convert_sample_match, SampleDtoError};
use handball_toolkit::facts::{
    ControlFact, MatchFact, MatchFactPayload, PhaseStartPayload, PlayEventKind, PlayFact, PossessionFact,
    StoppageKind, StoppagePayload,
};
use handball_toolkit::ids::{FactId, MatchId, PlayerId, TeamId};
use handball_toolkit::sample_dto::converter::{convert, decode_configuration, decode_fact, required_id_count};
use handball_toolkit::sample_dto::exporter::{ascii_slug, default_slug, default_slug_checked, export_match, uuid_key};
use handball_toolkit::sample_dto::raw::{
    phase_kind_from_raw, phase_kind_raw, play_event_kind_from_raw, play_event_kind_raw, stoppage_kind_from_raw,
    stoppage_kind_raw,
};
use handball_toolkit::sample_dto::{
    SampleControlFactDtoV2, SampleFactAnchorDtoV2, SampleFactDtoV2, SampleFactPayloadDtoV2, SampleMatchClockDtoV2,
    SampleMatchConfigurationDtoV2, SampleMatchDecodeErrorV2, SampleMatchDtoV2, SampleMatchHeaderV2,
    SamplePhaseStartPayloadDtoV2, SamplePlayFactDtoV2, SamplePlayerDtoV2, SamplePossessionFactDtoV2, SampleStoppagePayloadDtoV2,
    SampleTeamDtoV2,
    SampleTeamsDtoV2, SampleTimerConfigurationDtoV2, SampleVideoClockDtoV2, SampleVideoConfigurationDtoV2,
    SampleVideoSourceDtoV2, SCHEMA_VERSION_CURRENT,
};

fn secs(s: i64) -> Seconds {
    Seconds::from_millis(s * 1000)
}

fn anchor_dto(kind: &str, m: Option<i64>, v: Option<i64>) -> SampleFactAnchorDtoV2 {
    SampleFactAnchorDtoV2 {
        kind: kind.to_string(),
        match_clock: m.map(|s| SampleMatchClockDtoV2 { elapsed_seconds: secs(s) }),
        video_clock: v.map(|s| SampleVideoClockDtoV2 { elapsed_seconds: secs(s) }),
        end_match_elapsed_seconds: None,
        end_video_elapsed_seconds: None,
    }
}

fn timer_config() -> SampleMatchConfigurationDtoV2 {
    SampleMatchConfigurationDtoV2 {
        kind: "timer".to_string(),
        timer: Some(SampleTimerConfigurationDtoV2 { phase_duration_seconds: secs(1800) }),
        video: None,
        video_highlight: None,
    }
}

fn player_dto(key: &str, name: &str, jersey: Option<i64>) -> SamplePlayerDtoV2 {
    SamplePlayerDtoV2 { key: key.to_string(), name: name.to_string(), jersey_number: jersey }
}

fn play_dto(id: Option<u128>, kind: &str, team: Option<&str>, player: Option<&str>, at: i64) -> SampleFactDtoV2 {
    SampleFactDtoV2 {
        fact_id: id,
        recorded_at: UtcDateTime { unix_nanos: at as i128 },
        payload: SampleFactPayloadDtoV2 {
            kind: "play".to_string(),
            play: Some(SamplePlayFactDtoV2 {
                kind: kind.to_string(),
                team_key: team.map(|t| t.to_string()),
                player_key: player.map(|p| p.to_string()),
                related_player_key: None,
                anchor: anchor_dto("matchClock", Some(at), None),
                title: None,
                note: None,
            }),
            control: None,
            possession: None,
        },
    }
}

fn phase_dto(id: Option<u128>, start: i64, end: i64) -> SampleFactDtoV2 {
    let mut anchor = anchor_dto("matchClock", Some(start), None);
    anchor.end_match_elapsed_seconds = Some(secs(end));
    SampleFactDtoV2 {
        fact_id: id,
        recorded_at: UtcDateTime { unix_nanos: start as i128 },
        payload: SampleFactPayloadDtoV2 {
            kind: "control".to_string(),
            play: None,
            control: Some(SampleControlFactDtoV2 {
                kind: "phaseStart".to_string(),
                phase_start: Some(SamplePhaseStartPayloadDtoV2 { kind: "regular".to_string() }),
                stoppage: None,
                anchor,
            }),
            possession: None,
        },
    }
}

fn sample_dto() -> SampleMatchDtoV2 {
    SampleMatchDtoV2 {
        schema_version: SCHEMA_VERSION_CURRENT,
        match_: SampleMatchHeaderV2 {
            display_name: Some("Final".to_string()),
            date: UtcDateTime { unix_nanos: 1_766_188_800_000_000_000 },
            configuration: timer_config(),
        },
        teams: SampleTeamsDtoV2 {
            home: SampleTeamDtoV2 {
                key: "home".to_string(),
                name: "Tigers".to_string(),
                players: vec![player_dto("h1", "Alice", Some(7)), player_dto("h2", "Bea", None)],
            },
            away: SampleTeamDtoV2 {
                key: "away".to_string(),
                name: "Falcons".to_string(),
                players: vec![player_dto("a1", "Cleo", Some(9))],
            },
        },
        facts: vec![
            phase_dto(Some(500), 0, 1800),
            play_dto(None, "goal", Some("home"), Some("h1"), 600),
            play_dto(Some(501), "shotMissed", Some("away"), Some("a1"), 900),
            play_dto(None, "freeNote", None, None, 1000),
        ],
    }
}

#[test]
fn required_id_count_counts_teams_players_match_and_facts_without_id() {
    assert_eq!(required_id_count(&sample_dto()), 1 + 2 + 1 + 1 + 1 + 2);
}

#[test]
fn convert_hands_out_ids_in_order() {
    let dto = sample_dto();
    let ids: Vec<u128> = (100..108).collect();
    let r = convert("final", &dto, None, &ids).unwrap();
    assert_eq!(r.home_team, Team { id: TeamId(100), name: "Tigers".to_string() });
    assert_eq!(r.away_team.id, TeamId(103));
    assert_eq!(r.players.iter().map(|p| p.id.0).collect::<Vec<_>>(), vec![101, 102, 104]);
    assert_eq!(r.players[0].team_id, TeamId(100));
    assert_eq!(r.players[2].team_id, TeamId(103));
    assert_eq!(r.players[0].jersey_number, Some(7));
    assert_eq!(r.match_.id, MatchId(105));
    assert_eq!(r.match_.title.as_deref(), Some("Final"));
    assert_eq!(r.match_.home_team_id, TeamId(100));
    assert_eq!(r.match_.configuration, MatchConfiguration::Timer { phase_duration_seconds: secs(1800) });
    assert!(r.match_.is_home_on_left);
    assert_eq!(r.facts.iter().map(|f| f.id.0).collect::<Vec<_>>(), vec![500, 106, 501, 107]);
    match &r.facts[1].payload {
        MatchFactPayload::Play(p) => {
            assert_eq!(p.kind, PlayEventKind::Goal);
            assert_eq!(p.team_id, Some(TeamId(100)));
            assert_eq!(p.player_id, Some(PlayerId(101)));
            assert_eq!(p.anchor, FactAnchor::MatchClock(MatchClock { elapsed_seconds: secs(600) }));
        },
        other => panic!("expected a play, got {other:?}"),
    }
    match &r.facts[0].payload {
        MatchFactPayload::Control(ControlFact::PhaseStart(p)) => {
            assert_eq!(p.end_anchor, FactAnchor::MatchClock(MatchClock { elapsed_seconds: secs(1800) }));
        },
        other => panic!("expected a phase start, got {other:?}"),
    }
    assert_eq!(r.teams().len(), 2);
    assert_eq!(r.teams_by_key, vec![("home".to_string(), TeamId(100)), ("away".to_string(), TeamId(103))]);
    assert_eq!(r.players_by_key[2], ("a1".to_string(), PlayerId(104)));
}

#[test]
fn convert_with_override_ignores_the_file_configuration() {
    let mut dto = sample_dto();
    dto.match_.configuration.kind = "bogus".to_string();
    let source = VideoSource { provider: VideoProvider::Youtube, external_id: "vid".to_string() };
    let ids: Vec<u128> = (1..9).collect();
    let r = convert("x", &dto, Some(MatchConfiguration::VideoHighlight(source.clone())), &ids).unwrap();
    assert_eq!(r.match_.configuration, MatchConfiguration::VideoHighlight(source));
}

fn convert_err(dto: &SampleMatchDtoV2) -> SampleMatchDecodeErrorV2 {
    let ids: Vec<u128> = (1..20).collect();
    convert("x", dto, None, &ids).unwrap_err()
}

#[test]
fn convert_reports_schema_version_mismatch() {
    let mut dto = sample_dto();
    dto.schema_version = 1;
    assert_eq!(convert_err(&dto), SampleMatchDecodeErrorV2::SchemaVersionMismatch { found: 1, expected: 2 });
}

#[test]
fn convert_reports_configuration_errors() {
    let mut dto = sample_dto();
    dto.match_.configuration.kind = "stopwatch".to_string();
    assert_eq!(convert_err(&dto), SampleMatchDecodeErrorV2::UnknownConfigurationKind("stopwatch".to_string()));
    dto.match_.configuration.kind = "video".to_string();
    assert_eq!(convert_err(&dto), SampleMatchDecodeErrorV2::MissingConfigurationPayload("video".to_string()));
    dto.match_.configuration.video = Some(SampleVideoConfigurationDtoV2 {
        source: SampleVideoSourceDtoV2 { provider: "vimeo".to_string(), external_id: "1".to_string() },
    });
    assert_eq!(convert_err(&dto), SampleMatchDecodeErrorV2::UnknownVideoProvider("vimeo".to_string()));
}

#[test]
fn decode_configuration_reads_each_kind() {
    let mut c = timer_config();
    assert_eq!(decode_configuration(&c).unwrap(), MatchConfiguration::Timer { phase_duration_seconds: secs(1800) });
    c.kind = "videoHighlight".to_string();
    assert_eq!(
        decode_configuration(&c).unwrap_err(),
        SampleMatchDecodeErrorV2::MissingConfigurationPayload("videoHighlight".to_string())
    );
    c.video_highlight = Some(SampleVideoConfigurationDtoV2 {
        source: SampleVideoSourceDtoV2 { provider: "local".to_string(), external_id: "L1".to_string() },
    });
    assert_eq!(
        decode_configuration(&c).unwrap(),
        MatchConfiguration::VideoHighlight(VideoSource { provider: VideoProvider::Local, external_id: "L1".to_string() })
    );
}

#[test]
fn convert_reports_the_first_bad_fact() {
    let mut dto = sample_dto();
    dto.facts[1].payload.kind = "pass".to_string();
    dto.facts[2].payload.play.as_mut().unwrap().kind = "assist".to_string();
    assert_eq!(convert_err(&dto), SampleMatchDecodeErrorV2::UnknownPayloadKind("pass".to_string()));

    let mut dto = sample_dto();
    dto.facts[1].payload.kind = "possession".to_string();
    assert_eq!(convert_err(&dto), SampleMatchDecodeErrorV2::MissingPayloadBody("possession".to_string()));

    let mut dto = sample_dto();
    dto.facts[1].payload.play = None;
    assert_eq!(convert_err(&dto), SampleMatchDecodeErrorV2::MissingPayloadBody("play".to_string()));

    let mut dto = sample_dto();
    dto.facts[2].payload.play.as_mut().unwrap().kind = "assist".to_string();
    assert_eq!(convert_err(&dto), SampleMatchDecodeErrorV2::UnknownPlayKind("assist".to_string()));

    let mut dto = sample_dto();
    dto.facts[1].payload.play.as_mut().unwrap().team_key = Some("visitors".to_string());
    assert_eq!(convert_err(&dto), SampleMatchDecodeErrorV2::UnknownTeamKey("visitors".to_string()));

    let mut dto = sample_dto();
    dto.facts[1].payload.play.as_mut().unwrap().player_key = Some("ghost".to_string());
    assert_eq!(convert_err(&dto), SampleMatchDecodeErrorV2::UnknownPlayerKey("ghost".to_string()));

    let mut dto = sample_dto();
    dto.facts[1].payload.play.as_mut().unwrap().anchor.kind = "wallClock".to_string();
    assert_eq!(convert_err(&dto), SampleMatchDecodeErrorV2::UnknownAnchorKind("wallClock".to_string()));

    let mut dto = sample_dto();
    dto.facts[1].payload.play.as_mut().unwrap().anchor.kind = "videoClock".to_string();
    assert_eq!(convert_err(&dto), SampleMatchDecodeErrorV2::MissingAnchorBody("videoClock".to_string()));

    let mut dto = sample_dto();
    dto.facts[1].payload.play.as_mut().unwrap().anchor.kind = "both".to_string();
    assert_eq!(convert_err(&dto), SampleMatchDecodeErrorV2::MissingAnchorBody("both.videoClock".to_string()));
}

#[test]
fn convert_reports_control_fact_errors() {
    let mut dto = sample_dto();
    dto.facts[0].payload.control.as_mut().unwrap().kind = "halftime".to_string();
    assert_eq!(convert_err(&dto), SampleMatchDecodeErrorV2::UnknownControlKind("halftime".to_string()));

    let mut dto = sample_dto();
    dto.facts[0].payload.control.as_mut().unwrap().phase_start = None;
    assert_eq!(convert_err(&dto), SampleMatchDecodeErrorV2::MissingPayloadBody("phaseStart".to_string()));

    let mut dto = sample_dto();
    dto.facts[0].payload.control.as_mut().unwrap().phase_start.as_mut().unwrap().kind = "overtime".to_string();
    assert_eq!(convert_err(&dto), SampleMatchDecodeErrorV2::UnknownPhaseKind("overtime".to_string()));

    let mut dto = sample_dto();
    dto.facts[0].payload.control.as_mut().unwrap().anchor.end_match_elapsed_seconds = None;
    assert_eq!(convert_err(&dto), SampleMatchDecodeErrorV2::MissingPhaseStartEnd);

    let mut dto = sample_dto();
    let anchor = &mut dto.facts[0].payload.control.as_mut().unwrap().anchor;
    anchor.end_match_elapsed_seconds = None;
    anchor.end_video_elapsed_seconds = Some(secs(5));
    assert_eq!(convert_err(&dto), SampleMatchDecodeErrorV2::MissingAnchorBody("end.matchClock".to_string()));

    let mut dto = sample_dto();
    let control = dto.facts[0].payload.control.as_mut().unwrap();
    control.kind = "stoppage".to_string();
    control.stoppage = Some(SampleStoppagePayloadDtoV2 { stoppage_kind: "injury".to_string(), note: None });
    assert_eq!(convert_err(&dto), SampleMatchDecodeErrorV2::UnknownStoppageKind("injury".to_string()));
}

#[test]
fn decode_fact_uses_the_fallback_id_only_without_a_fact_id() {
    let teams = vec![("home".to_string(), TeamId(1))];
    let players: Vec<(String, PlayerId)> = vec![];
    let f = decode_fact(&play_dto(None, "goal", Some("home"), None, 5), &teams, &players, 77).unwrap();
    assert_eq!(f.id, FactId(77));
    let g = decode_fact(&play_dto(Some(3), "goal", Some("home"), None, 5), &teams, &players, 77).unwrap();
    assert_eq!(g.id, FactId(3));
}

#[test]
fn stoppage_end_follows_the_start_kind() {
    let dto = SampleFactDtoV2 {
        fact_id: Some(1),
        recorded_at: UtcDateTime { unix_nanos: 0 },
        payload: SampleFactPayloadDtoV2 {
            kind: "control".to_string(),
            play: None,
            control: Some(SampleControlFactDtoV2 {
                kind: "stoppage".to_string(),
                phase_start: None,
                stoppage: Some(SampleStoppagePayloadDtoV2 { stoppage_kind: "pause".to_string(), note: Some("injury".to_string()) }),
                anchor: SampleFactAnchorDtoV2 {
                    kind: "both".to_string(),
                    match_clock: Some(SampleMatchClockDtoV2 { elapsed_seconds: secs(100) }),
                    video_clock: Some(SampleVideoClockDtoV2 { elapsed_seconds: secs(160) }),
                    end_match_elapsed_seconds: Some(secs(100)),
                    end_video_elapsed_seconds: Some(secs(220)),
                },
            }),
            possession: None,
        },
    };
    let f = decode_fact(&dto, &[], &[], 0).unwrap();
    let both = |m: i64, v: i64| FactAnchor::Both {
        match_clock: MatchClock { elapsed_seconds: secs(m) },
        video_clock: VideoClock { elapsed_seconds: secs(v) },
    };
    assert_eq!(
        f.payload,
        MatchFactPayload::Control(ControlFact::Stoppage(StoppagePayload {
            kind: StoppageKind::Pause,
            start_anchor: both(100, 160),
            end_anchor: Some(both(100, 220)),
            note: Some("injury".to_string()),
        }))
    );
}

#[test]
fn convert_sample_match_refuses_too_few_ids() {
    let dto = sample_dto();
    let required = required_id_count(&dto);
    let short: Vec<u128> = (0..required as u128 - 1).collect();
    assert_eq!(
        convert_sample_match("x", &dto, None, &short).unwrap_err(),
        SampleDtoError::InsufficientNewIds { required, provided: required - 1 }
    );
    let exact: Vec<u128> = (0..required as u128).collect();
    assert!(convert_sample_match("x", &dto, None, &exact).is_ok());
    let mut bad = dto.clone();
    bad.schema_version = 3;
    assert_eq!(
        convert_sample_match("x", &bad, None, &exact).unwrap_err(),
        SampleDtoError::Decode { error: SampleMatchDecodeErrorV2::SchemaVersionMismatch { found: 3, expected: 2 } }
    );
}

#[test]
fn wire_names_round_trip() {
    for k in PlayEventKind::all_cases() {
        assert_eq!(play_event_kind_from_raw(play_event_kind_raw(k)), Some(k));
    }
    for k in PhaseKind::all_cases() {
        assert_eq!(phase_kind_from_raw(phase_kind_raw(k)), Some(k));
    }
    for k in StoppageKind::all_cases() {
        assert_eq!(stoppage_kind_from_raw(stoppage_kind_raw(k)), Some(k));
    }
    assert_eq!(play_event_kind_raw(PlayEventKind::TwoMinuteSuspension), "twoMinuteSuspension");
    assert_eq!(play_event_kind_from_raw("Goal"), None);
}

fn team(id: u128, name: &str) -> Team {
    Team { id: TeamId(id), name: name.to_string() }
}

fn player(id: u128, team: u128, name: &str, jersey: Option<i64>) -> Player {
    Player { id: PlayerId(id), team_id: TeamId(team), name: name.to_string(), jersey_number: jersey, photo: None }
}

fn exported_match() -> Match {
    Match {
        id: MatchId(0xf352ea46_0000_4000_8000_000000000001),
        title: Some("Cup".to_string()),
        date: UtcDateTime { unix_nanos: 1_766_188_800_000_000_000 },
        home_team_id: TeamId(1),
        away_team_id: TeamId(2),
        configuration: MatchConfiguration::Timer { phase_duration_seconds: secs(1800) },
        roster_selection: RosterSelection::empty(),
        is_home_on_left: true,
    }
}

fn mc(s: i64) -> FactAnchor {
    FactAnchor::MatchClock(MatchClock { elapsed_seconds: secs(s) })
}

fn exported_facts() -> Vec<MatchFact> {
    vec![
        MatchFact {
            id: FactId(30),
            recorded_at: UtcDateTime { unix_nanos: 20 },
            payload: MatchFactPayload::Play(PlayFact {
                kind: PlayEventKind::Goal,
                team_id: Some(TeamId(1)),
                player_id: Some(PlayerId(0xabcdef)),
                related_player_id: Some(PlayerId(999)),
                anchor: mc(600),
                title: None,
                note: Some("top corner".to_string()),
            }),
        },
        MatchFact {
            id: FactId(10),
            recorded_at: UtcDateTime { unix_nanos: 10 },
            payload: MatchFactPayload::Control(ControlFact::PhaseStart(PhaseStartPayload {
                kind: PhaseKind::Regular,
                start_anchor: mc(0),
                end_anchor: mc(1800),
            })),
        },
    ]
}

#[test]
fn export_orders_facts_by_recorded_at_and_keys_players_by_id() {
    let home_players = vec![player(0xabcdef, 1, "Alice", Some(7))];
    let dto = export_match(&exported_match(), &team(1, "Tigers"), &team(2, "Falcons"), &home_players, &[], &exported_facts());
    assert_eq!(dto.schema_version, 2);
    assert_eq!(dto.teams.home.key, "home");
    assert_eq!(dto.teams.away.key, "away");
    assert_eq!(dto.teams.home.players[0].key, "00000000-0000-0000-0000-000000ABCDEF");
    assert_eq!(dto.match_.configuration.kind, "timer");
    assert_eq!(dto.facts.iter().map(|f| f.fact_id).collect::<Vec<_>>(), vec![Some(10), Some(30)]);
    let play = dto.facts[1].payload.play.as_ref().unwrap();
    assert_eq!(play.kind, "goal");
    assert_eq!(play.team_key.as_deref(), Some("home"));
    assert_eq!(play.player_key.as_deref(), Some("00000000-0000-0000-0000-000000ABCDEF"));
    assert_eq!(play.related_player_key, None);
    assert_eq!(play.anchor.kind, "matchClock");
    let control = dto.facts[0].payload.control.as_ref().unwrap();
    assert_eq!(control.kind, "phaseStart");
    assert_eq!(control.anchor.end_match_elapsed_seconds, Some(secs(1800)));
    assert_eq!(control.anchor.end_video_elapsed_seconds, None);
}

#[test]
fn export_then_convert_gives_the_facts_back() {
    let home_players = vec![player(0xabcdef, 1, "Alice", Some(7))];
    let mut facts = exported_facts();
    if let MatchFactPayload::Play(p) = &mut facts[0].payload {
        p.related_player_id = None;
    }
    let dto = export_match(&exported_match(), &team(1, "Tigers"), &team(2, "Falcons"), &home_players, &[], &facts);
    let ids = vec![1u128, 0xabcdef, 2, 0xf352ea46_0000_4000_8000_000000000001];
    let back = convert("cup", &dto, None, &ids).unwrap();
    assert_eq!(back.facts, vec![facts[1].clone(), facts[0].clone()]);
    assert_eq!(back.players, home_players);
    assert_eq!(back.match_.configuration, exported_match().configuration);
    assert_eq!(back.match_.title, exported_match().title);
}

#[test]
fn export_then_convert_with_fresh_ids_renames_teams_and_players() {
    let home_players = vec![player(0xabcdef, 1, "Alice", Some(7))];
    let away_players = vec![player(0x123, 2, "Bea", None)];
    let mut facts = exported_facts();
    if let MatchFactPayload::Play(p) = &mut facts[0].payload {
        p.related_player_id = Some(PlayerId(0x123));
    }
    facts.push(MatchFact {
        id: FactId(50),
        recorded_at: UtcDateTime { unix_nanos: 30 },
        payload: MatchFactPayload::Possession(PossessionFact { team_id: TeamId(2), anchor: mc(700), end_anchor: None }),
    });
    let dto = export_match(&exported_match(), &team(1, "Tigers"), &team(2, "Falcons"), &home_players, &away_players, &facts);
    assert_eq!(required_id_count(&dto), 5);
    let ids = vec![101u128, 102, 103, 104, 105];
    let back = convert("cup", &dto, None, &ids).unwrap();
    assert_eq!(back.home_team.id, TeamId(101));
    assert_eq!(back.away_team.id, TeamId(103));
    assert_eq!(back.players.iter().map(|p| p.id).collect::<Vec<_>>(), vec![PlayerId(102), PlayerId(104)]);
    assert_eq!(back.players.iter().map(|p| p.name.as_str()).collect::<Vec<_>>(), vec!["Alice", "Bea"]);
    assert_eq!(back.facts.len(), 3);
    assert_eq!(back.facts[0], facts[1]);
    match &back.facts[1].payload {
        MatchFactPayload::Play(p) => {
            assert_eq!(back.facts[1].id, FactId(30));
            assert_eq!(p.team_id, Some(TeamId(101)));
            assert_eq!(p.player_id, Some(PlayerId(102)));
            assert_eq!(p.related_player_id, Some(PlayerId(104)));
            assert_eq!(p.note.as_deref(), Some("top corner"));
        }
        other => panic!("expected a play, got {:?}", other),
    }
    match &back.facts[2].payload {
        MatchFactPayload::Possession(p) => assert_eq!(p.team_id, TeamId(103)),
        other => panic!("expected a possession, got {:?}", other),
    }
}

#[test]
fn slugs_are_ascii_and_dated() {
    assert_eq!(ascii_slug("Tigers  FC!"), "tigers-fc");
    assert_eq!(ascii_slug("--Ünited 99--"), "nited-99");
    assert_eq!(ascii_slug("東京"), "");
    assert_eq!(uuid_key(PlayerId(0x0123456789abcdef0123456789abcdef)), "01234567-89AB-CDEF-0123-456789ABCDEF");
    let m = exported_match();
    assert_eq!(default_slug(&m, &team(1, "Tigers"), &team(2, "Falcons")), "2025-12-20-tigers-vs-falcons");
    assert_eq!(default_slug(&m, &team(1, "東京"), &team(2, "Falcons")), "2025-12-20-f352ea46");
    assert_eq!(default_slug_checked(&m, &team(1, "A"), &team(2, "B")).as_deref(), Some("2025-12-20-a-vs-b"));
    let mut far = m.clone();
    far.date = UtcDateTime { unix_nanos: i128::MAX };
    assert_eq!(default_slug_checked(&far, &team(1, "A"), &team(2, "B")), None);
}

fn possession_dto(id: Option<u128>, team: &str, at: i64, end: Option<i64>) -> SampleFactDtoV2 {
    SampleFactDtoV2 {
        fact_id: id,
        recorded_at: UtcDateTime { unix_nanos: at as i128 },
        payload: SampleFactPayloadDtoV2 {
            kind: "possession".to_string(),
            play: None,
            control: None,
            possession: Some(SamplePossessionFactDtoV2 {
                team_key: team.to_string(),
                anchor: SampleFactAnchorDtoV2 {
                    kind: "matchClock".to_string(),
                    match_clock: Some(SampleMatchClockDtoV2 { elapsed_seconds: secs(at) }),
                    video_clock: None,
                    end_match_elapsed_seconds: end.map(secs),
                    end_video_elapsed_seconds: None,
                },
            }),
        },
    }
}

#[test]
fn possessions_convert_without_their_end() {
    let mut dto = sample_dto();
    dto.facts.push(possession_dto(Some(700), "away", 1200, Some(1250)));
    let ids: Vec<u128> = (1..=required_id_count(&dto) as u128).collect();
    let conversion = convert("x", &dto, None, &ids).unwrap();
    let away = conversion.away_team.id;
    assert_eq!(
        conversion.facts[4].payload,
        MatchFactPayload::Possession(PossessionFact {
            team_id: away,
            anchor: FactAnchor::MatchClock(MatchClock { elapsed_seconds: secs(1200) }),
            end_anchor: None,
        })
    );
    let mut bad = sample_dto();
    bad.facts.push(possession_dto(None, "visitors", 1200, None));
    assert_eq!(convert_err(&bad), SampleMatchDecodeErrorV2::UnknownTeamKey("visitors".to_string()));
}

#[test]
fn possessions_export_and_read_back() {
    let facts = vec![MatchFact {
        id: FactId(40),
        recorded_at: UtcDateTime { unix_nanos: 5 },
        payload: MatchFactPayload::Possession(PossessionFact { team_id: TeamId(2), anchor: mc(300), end_anchor: None }),
    }];
    let dto = export_match(&exported_match(), &team(1, "Tigers"), &team(2, "Falcons"), &[], &[], &facts);
    let body = dto.facts[0].payload.possession.as_ref().unwrap();
    assert_eq!(dto.facts[0].payload.kind, "possession");
    assert_eq!(body.team_key, "away");
    assert_eq!(body.anchor.end_match_elapsed_seconds, None);
    let ids = vec![1u128, 2, 0xf352ea46_0000_4000_8000_000000000001];
    let back = convert("cup", &dto, None, &ids).unwrap();
    assert_eq!(back.facts, facts);
}
