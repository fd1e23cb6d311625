use handball_toolkit::clock::{Seconds, UtcDateTime};
use handball_toolkit::configuration::MatchConfiguration;
use handball_toolkit::entities::{Player, Team};
use handball_toolkit::facts::MatchFactPayload;
use handball_toolkit::ids::{FactId, MatchId, PlayerId, TeamId};
use handball_toolkit::sample_dto::{
    SampleFactAnchorDtoV2, SampleFactDtoV2, SampleFactPayloadDtoV2, SampleMatchClockDtoV2,
    SampleMatchConfigurationDtoV2, SampleMatchDecodeErrorV2, SampleMatchDtoV2, SampleMatchHeaderV2,
    SamplePlayFactDtoV2, SamplePlayerDtoV2, SampleTeamDtoV2, SampleTeamsDtoV2, SampleTimerConfigurationDtoV2,
};
use handball_toolkit::sample_import::{
    build_option, default_decisions, find_team_options, import_commit_plan, normalize_name,
    required_import_id_count, team_target, ExistingSnapshot, ImportDecisions, PlayerTarget, TeamOption, TeamTarget,
};

fn secs(s: i64) -> Seconds {
    Seconds::from_millis(s * 1000)
}

fn pdto(key: &str, name: &str, jersey: Option<i64>) -> SamplePlayerDtoV2 {
    SamplePlayerDtoV2 { key: key.to_string(), name: name.to_string(), jersey_number: jersey }
}

fn stored(id: u128, team: u128, name: &str, jersey: Option<i64>) -> Player {
    Player { id: PlayerId(id), team_id: TeamId(team), name: name.to_string(), jersey_number: jersey, photo: None }
}

fn team(id: u128, name: &str) -> Team {
    Team { id: TeamId(id), name: name.to_string() }
}

#[test]
fn normalize_name_collapses_white_space() {
    assert_eq!(normalize_name("  山田\u{3000}太郎  "), "山田 太郎");
    assert_eq!(normalize_name("a \t\n b"), "a b");
    assert_eq!(normalize_name(""), "");
    assert_eq!(normalize_name("\u{3000}\u{3000}"), "");
    assert_eq!(normalize_name("髙橋"), "髙橋");
    let once = normalize_name(" x\u{2003}y  z ");
    assert_eq!(once, "x y z");
    assert_eq!(normalize_name(&once), once);
}

#[test]
fn normalized_names_keep_only_single_inner_spaces() {
    for name in ["\u{3000}山田\u{3000}\u{3000}太郎\t", " a\u{00a0}\u{00a0}b \n c ", "\u{2028}x", "plain"] {
        let r = normalize_name(name);
        assert!(!r.contains('\u{3000}'));
        assert!(!r.starts_with(char::is_whitespace) && !r.ends_with(char::is_whitespace));
        assert!(!r.contains("  "));
        assert!(r.chars().all(|c| c == ' ' || !c.is_whitespace()));
        let squeeze = |t: &str| t.chars().filter(|c| !c.is_whitespace()).collect::<String>();
        assert_eq!(squeeze(&r), squeeze(name));
    }
    assert_eq!(normalize_name("\u{3000}山田\u{3000}\u{3000}太郎\t"), "山田 太郎");
}

fn parsed_team() -> SampleTeamDtoV2 {
    SampleTeamDtoV2 {
        key: "home".to_string(),
        name: "Tigers".to_string(),
        players: vec![
            pdto("p1", "Alice  Smith", Some(7)),
            pdto("p2", "Bea", Some(9)),
            pdto("p3", "Cleo", None),
            pdto("p4", "Dana", Some(4)),
        ],
    }
}

fn snapshot() -> ExistingSnapshot {
    ExistingSnapshot {
        teams: vec![team(1, "Tigers"), team(2, "Lions"), team(3, "Bears")],
        players: vec![
            stored(11, 1, "Alice Smith", Some(7)),
            stored(12, 1, "Beatrice", Some(9)),
            stored(13, 1, "Cleo", Some(3)),
            stored(14, 1, "Zed", Some(30)),
            stored(21, 2, "Cleo", Some(5)),
            stored(31, 3, "Other", Some(1)),
        ],
    }
}

#[test]
fn build_option_sorts_players_into_exact_partial_and_new() {
    let o = build_option(&parsed_team(), &team(1, "Tigers"), &snapshot());
    assert_eq!(o.existing, Some(team(1, "Tigers")));
    assert_eq!(o.exact_matches.len(), 1);
    assert_eq!(o.exact_matches[0].parsed_key, "p1");
    assert_eq!(o.exact_matches[0].existing.id, PlayerId(11));
    let partial: Vec<(String, Vec<u128>)> =
        o.partial_matches.iter().map(|p| (p.parsed_key.clone(), p.candidates.iter().map(|c| c.id.0).collect())).collect();
    assert_eq!(partial, vec![("p2".to_string(), vec![12]), ("p3".to_string(), vec![13])]);
    assert_eq!(o.parsed_only, vec!["p4".to_string()]);
    assert_eq!(o.existing_only.iter().map(|p| p.id.0).collect::<Vec<_>>(), vec![14]);
}

#[test]
fn exact_match_consumes_the_stored_player_once() {
    let parsed = SampleTeamDtoV2 {
        key: "home".to_string(),
        name: "Tigers".to_string(),
        players: vec![pdto("a", "Alice Smith", Some(7)), pdto("b", "Alice\u{3000}Smith", Some(7))],
    };
    let o = build_option(&parsed, &team(1, "Tigers"), &snapshot());
    assert_eq!(o.exact_matches.len(), 1);
    assert_eq!(o.exact_matches[0].parsed_key, "a");
    assert_eq!(o.partial_matches.len(), 0);
    assert_eq!(o.parsed_only, vec!["b".to_string()]);
}

#[test]
fn find_team_options_ranks_by_matches_then_name_and_ends_with_new_team() {
    let options = find_team_options(&parsed_team(), &snapshot());
    assert_eq!(options.len(), 4);
    let names: Vec<Option<String>> = options.iter().map(|o| o.existing.as_ref().map(|t| t.name.clone())).collect();
    assert_eq!(
        names,
        vec![Some("Tigers".to_string()), Some("Lions".to_string()), Some("Bears".to_string()), None]
    );
    let last = &options[3];
    assert_eq!(last.parsed_only, vec!["p1".to_string(), "p2".to_string(), "p3".to_string(), "p4".to_string()]);
    assert!(last.exact_matches.is_empty() && last.partial_matches.is_empty() && last.existing_only.is_empty());
}

#[test]
fn options_with_equal_counts_sort_by_team_name() {
    let parsed = SampleTeamDtoV2 { key: "k".to_string(), name: "x".to_string(), players: vec![] };
    let snap = ExistingSnapshot { teams: vec![team(1, "b"), team(2, "a"), team(3, "B")], players: vec![] };
    let options = find_team_options(&parsed, &snap);
    let ids: Vec<Option<u128>> = options.iter().map(|o| o.existing.as_ref().map(|t| t.id.0)).collect();
    assert_eq!(ids, vec![Some(3), Some(2), Some(1), None]);
}

#[test]
fn default_decisions_follow_the_options() {
    let home = build_option(&parsed_team(), &team(1, "Tigers"), &snapshot());
    let away = TeamOption::new_team(vec!["a1".to_string()]);
    let d = default_decisions(&home, &away);
    assert_eq!(d.home_team, TeamTarget::Existing { team_id: TeamId(1) });
    assert_eq!(d.away_team, TeamTarget::CreateNew);
    assert_eq!(team_target(&away), TeamTarget::CreateNew);
    assert_eq!(
        d.players,
        vec![
            ("p1".to_string(), PlayerTarget::Existing { player_id: PlayerId(11) }),
            ("p2".to_string(), PlayerTarget::Existing { player_id: PlayerId(12) }),
            ("p3".to_string(), PlayerTarget::Existing { player_id: PlayerId(13) }),
            ("p4".to_string(), PlayerTarget::CreateNew),
            ("a1".to_string(), PlayerTarget::CreateNew),
        ]
    );
}

fn play_fact(id: Option<u128>, player: &str, at: i64) -> SampleFactDtoV2 {
    SampleFactDtoV2 {
        fact_id: id,
        recorded_at: UtcDateTime { unix_nanos: at as i128 },
        payload: SampleFactPayloadDtoV2 {
            kind: "play".to_string(),
            play: Some(SamplePlayFactDtoV2 {
                kind: "goal".to_string(),
                team_key: Some("home".to_string()),
                player_key: Some(player.to_string()),
                related_player_key: None,
                anchor: SampleFactAnchorDtoV2 {
                    kind: "matchClock".to_string(),
                    match_clock: Some(SampleMatchClockDtoV2 { elapsed_seconds: secs(at) }),
                    video_clock: None,
                    end_match_elapsed_seconds: None,
                    end_video_elapsed_seconds: None,
                },
                title: None,
                note: None,
            }),
            control: None,
            possession: None,
        },
    }
}

fn import_dto() -> SampleMatchDtoV2 {
    SampleMatchDtoV2 {
        schema_version: 2,
        match_: SampleMatchHeaderV2 {
            display_name: None,
            date: UtcDateTime { unix_nanos: 0 },
            configuration: SampleMatchConfigurationDtoV2 {
                kind: "timer".to_string(),
                timer: Some(SampleTimerConfigurationDtoV2 { phase_duration_seconds: secs(1800) }),
                video: None,
                video_highlight: None,
            },
        },
        teams: SampleTeamsDtoV2 {
            home: SampleTeamDtoV2 {
                key: "home".to_string(),
                name: "ホーム".to_string(),
                players: vec![pdto("h1", "ホーム1", Some(1)), pdto("h2", "ホーム2", Some(2))],
            },
            away: SampleTeamDtoV2 {
                key: "away".to_string(),
                name: "アウェイ".to_string(),
                players: vec![pdto("a1", "アウェイ1", Some(1))],
            },
        },
        facts: vec![play_fact(None, "h2", 900), play_fact(Some(7), "h1", 300)],
    }
}

#[test]
fn import_plan_creates_what_is_new_and_sorts_facts() {
    let dto = import_dto();
    let decisions = ImportDecisions {
        home_team: TeamTarget::CreateNew,
        away_team: TeamTarget::Existing { team_id: TeamId(50) },
        players: vec![("h1".to_string(), PlayerTarget::Existing { player_id: PlayerId(60) })],
    };
    let required = required_import_id_count(&dto, &decisions);
    assert_eq!(required, 1 + 2 + 1 + 1);
    let ids: Vec<u128> = (100..105).collect();
    let plan = import_commit_plan(&dto, &decisions, &ids).unwrap();
    assert_eq!(plan.teams_to_save, vec![team(100, "ホーム")]);
    assert_eq!(
        plan.players_to_save,
        vec![stored(101, 100, "ホーム2", Some(2)), stored(102, 50, "アウェイ1", Some(1))]
    );
    assert_eq!(plan.match_.id, MatchId(103));
    assert_eq!(plan.match_.home_team_id, TeamId(100));
    assert_eq!(plan.match_.away_team_id, TeamId(50));
    assert_eq!(plan.match_.configuration, MatchConfiguration::Timer { phase_duration_seconds: secs(1800) });
    assert_eq!(plan.facts.iter().map(|f| f.id).collect::<Vec<_>>(), vec![FactId(7), FactId(104)]);
    match &plan.facts[0].payload {
        MatchFactPayload::Play(p) => assert_eq!(p.player_id, Some(PlayerId(60))),
        other => panic!("expected a play, got {other:?}"),
    }
    match &plan.facts[1].payload {
        MatchFactPayload::Play(p) => assert_eq!(p.player_id, Some(PlayerId(101))),
        other => panic!("expected a play, got {other:?}"),
    }
    let o = plan.outcome;
    assert_eq!((o.teams_created, o.teams_reused, o.players_created, o.players_reused, o.fact_count), (1, 1, 2, 1, 2));
    assert_eq!(o.match_id, MatchId(103));
}

#[test]
fn import_plan_reports_unknown_player_keys() {
    let mut dto = import_dto();
    dto.facts[0].payload.play.as_mut().unwrap().player_key = Some("ghost".to_string());
    let decisions = ImportDecisions { home_team: TeamTarget::CreateNew, away_team: TeamTarget::CreateNew, players: vec![] };
    let required = required_import_id_count(&dto, &decisions);
    assert_eq!(required, 2 + 3 + 1 + 1);
    let ids: Vec<u128> = (1..=required as u128).collect();
    assert_eq!(
        import_commit_plan(&dto, &decisions, &ids).unwrap_err(),
        SampleMatchDecodeErrorV2::UnknownPlayerKey("ghost".to_string())
    );
}

#[test]
fn identifiers_past_the_required_count_change_nothing() {
    let dto = import_dto();
    let decisions = ImportDecisions {
        home_team: TeamTarget::CreateNew,
        away_team: TeamTarget::CreateNew,
        players: vec![("h1".to_string(), PlayerTarget::Existing { player_id: PlayerId(60) })],
    };
    let required = required_import_id_count(&dto, &decisions);
    let exact: Vec<u128> = (200..200 + required as u128).collect();
    let mut more = exact.clone();
    more.extend([9_001, 9_002, 9_003]);
    let a = import_commit_plan(&dto, &decisions, &exact).unwrap();
    let b = import_commit_plan(&dto, &decisions, &more).unwrap();
    assert_eq!(a.teams_to_save, b.teams_to_save);
    assert_eq!(a.players_to_save, b.players_to_save);
    assert_eq!(a.match_, b.match_);
    assert_eq!(a.facts, b.facts);
    assert_eq!(a.outcome, b.outcome);
}
