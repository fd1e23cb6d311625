use handball_toolkit::clock::{FactAnchor, FactAnchorKind, MatchClock, Seconds, UtcDateTime, VideoClock};
use handball_toolkit::configuration::{CaptureMethod, MatchConfiguration, MatchConfigurationKind, VideoProvider, VideoSource};
use handball_toolkit::facts::{MatchFact, MatchFactPayload, PlayEventKind, PlayFact};
use handball_toolkit::ids::{FactId, TeamId};

fn s(v: i64) -> Seconds {
    Seconds::from_millis(v)
}

fn m(v: i64) -> MatchClock {
    MatchClock { elapsed_seconds: s(v) }
}

fn v(x: i64) -> VideoClock {
    VideoClock { elapsed_seconds: s(x) }
}

#[test]
fn seconds_arithmetic_saturates() {
    assert_eq!(s(1500).plus(s(500)), s(2000));
    assert_eq!(s(i64::MAX).plus(s(1)), s(i64::MAX));
    assert_eq!(s(i64::MIN).minus(s(1)), s(i64::MIN));
    assert_eq!(s(3).minus(s(5)), s(-2));
    assert_eq!(s(3).max(s(5)), s(5));
    assert_eq!(s(3).min(s(5)), s(3));
    assert_eq!(Seconds::zero(), s(0));
}

#[test]
fn editing_a_clock_follows_the_table() {
    let mc = FactAnchor::MatchClock(m(10));
    let vcl = FactAnchor::VideoClock(v(20));
    let both = FactAnchor::Both { match_clock: m(10), video_clock: v(20) };
    let new = s(99);
    assert_eq!(mc.with_elapsed_seconds(FactAnchorKind::MatchClock, new), FactAnchor::MatchClock(m(99)));
    assert_eq!(both.with_elapsed_seconds(FactAnchorKind::MatchClock, new), FactAnchor::Both { match_clock: m(99), video_clock: v(20) });
    assert_eq!(vcl.with_elapsed_seconds(FactAnchorKind::MatchClock, new), FactAnchor::MatchClock(m(99)));
    assert_eq!(vcl.with_elapsed_seconds(FactAnchorKind::VideoClock, new), FactAnchor::VideoClock(v(99)));
    assert_eq!(both.with_elapsed_seconds(FactAnchorKind::VideoClock, new), FactAnchor::Both { match_clock: m(10), video_clock: v(99) });
    assert_eq!(mc.with_elapsed_seconds(FactAnchorKind::VideoClock, new), FactAnchor::VideoClock(v(99)));
    assert_eq!(mc.with_elapsed_seconds(FactAnchorKind::Both, new), FactAnchor::MatchClock(m(99)));
    assert_eq!(vcl.with_elapsed_seconds(FactAnchorKind::Both, new), FactAnchor::Both { match_clock: m(99), video_clock: v(20) });
    assert_eq!(both.with_elapsed_seconds(FactAnchorKind::Both, new), FactAnchor::Both { match_clock: m(99), video_clock: v(20) });
    assert_eq!(mc.with_elapsed_seconds(FactAnchorKind::MatchClock, s(-5)), FactAnchor::MatchClock(m(0)));
}

#[test]
fn anchor_readings() {
    let both = FactAnchor::Both { match_clock: m(10), video_clock: v(20) };
    assert_eq!(both.kind(), FactAnchorKind::Both);
    assert_eq!(both.match_elapsed_seconds(), Some(s(10)));
    assert_eq!(both.video_elapsed_seconds(), Some(s(20)));
    assert_eq!(FactAnchor::MatchClock(m(1)).video_clock(), None);
    assert_eq!(FactAnchorKind::all_cases().len(), 3);
}

#[test]
fn dates_split_and_print_in_utc() {
    let d = UtcDateTime { unix_nanos: 1_766_188_800_500_000_000 };
    assert_eq!(d.seconds_and_nanos(), (1_766_188_800, 500_000_000));
    assert_eq!(d.date_label().as_deref(), Some("2025-12-20"));
    let before = UtcDateTime { unix_nanos: -1 };
    assert_eq!(before.seconds_and_nanos(), (-1, 999_999_999));
    assert_eq!(before.date_label().as_deref(), Some("1969-12-31"));
    assert_eq!(UtcDateTime { unix_nanos: i128::MIN }.date_label(), None);
}

#[test]
fn date_labels_follow_the_proleptic_calendar() {
    let at = |secs: i128| UtcDateTime { unix_nanos: secs * 1_000_000_000 }.date_label();
    assert_eq!(at(951_782_400).as_deref(), Some("2000-02-29"));
    assert_eq!(at(-2_203_891_200).as_deref(), Some("1900-03-01"));
    assert_eq!(at(-62_167_219_200).as_deref(), Some("0000-01-01"));
    assert_eq!(at(253_402_300_799).as_deref(), Some("9999-12-31"));
    assert_eq!(at(253_402_300_800).as_deref(), Some("+10000-01-01"));
    assert_eq!(at(-62_167_219_201).as_deref(), Some("-0001-12-31"));
}

#[test]
fn configuration_kinds() {
    let video = MatchConfiguration::Video(VideoSource { provider: VideoProvider::Local, external_id: "id".to_string() });
    assert_eq!(video.kind(), MatchConfigurationKind::Video);
    assert_eq!(video.capture_method(), CaptureMethod::Video);
    assert_eq!(video.phase_duration_seconds(), None);
    let timer = MatchConfiguration::Timer { phase_duration_seconds: s(1_800_000) };
    assert_eq!(timer.capture_method(), CaptureMethod::ManualClock);
    assert_eq!(timer.phase_duration_seconds(), Some(s(1_800_000)));
    assert!(timer.video_source().is_none());
}

#[test]
fn writing_through_the_single_anchor() {
    let mut f = MatchFact {
        id: FactId(1),
        recorded_at: UtcDateTime { unix_nanos: 0 },
        payload: MatchFactPayload::Play(PlayFact {
            kind: PlayEventKind::Goal,
            team_id: Some(TeamId(1)),
            player_id: None,
            related_player_id: None,
            anchor: FactAnchor::MatchClock(m(5)),
            title: None,
            note: None,
        }),
    };
    if let Some(a) = f.single_anchor_mut() {
        *a = FactAnchor::VideoClock(v(7));
    }
    assert_eq!(f.single_anchor(), Some(FactAnchor::VideoClock(v(7))));
    assert_eq!(f.anchor(), FactAnchor::VideoClock(v(7)));
}
