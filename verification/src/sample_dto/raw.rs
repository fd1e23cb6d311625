//! The wire names of the domain enums, both ways.

use vstd::prelude::*;

use crate::configuration::PhaseKind;
use crate::facts::{PlayEventKind, StoppageKind};
use crate::text::text_is;

verus! {

pub open spec fn spec_play_event_kind_raw(kind: PlayEventKind) -> Seq<char> {
    match kind {
        PlayEventKind::Goal => "goal"@,
        PlayEventKind::ShotMissed => "shotMissed"@,
        PlayEventKind::FreeNote => "freeNote"@,
        PlayEventKind::YellowCard => "yellowCard"@,
        PlayEventKind::TwoMinuteSuspension => "twoMinuteSuspension"@,
        PlayEventKind::RedCard => "redCard"@,
    }
}

pub open spec fn spec_play_event_kind_from_raw(raw: Seq<char>) -> Option<PlayEventKind> {
    if raw == "goal"@ {
        Some(PlayEventKind::Goal)
    } else if raw == "shotMissed"@ {
        Some(PlayEventKind::ShotMissed)
    } else if raw == "freeNote"@ {
        Some(PlayEventKind::FreeNote)
    } else if raw == "yellowCard"@ {
        Some(PlayEventKind::YellowCard)
    } else if raw == "twoMinuteSuspension"@ {
        Some(PlayEventKind::TwoMinuteSuspension)
    } else if raw == "redCard"@ {
        Some(PlayEventKind::RedCard)
    } else {
        None
    }
}

pub open spec fn spec_phase_kind_raw(kind: PhaseKind) -> Seq<char> {
    match kind {
        PhaseKind::Regular => "regular"@,
        PhaseKind::Shootout => "shootout"@,
    }
}

pub open spec fn spec_phase_kind_from_raw(raw: Seq<char>) -> Option<PhaseKind> {
    if raw == "regular"@ {
        Some(PhaseKind::Regular)
    } else if raw == "shootout"@ {
        Some(PhaseKind::Shootout)
    } else {
        None
    }
}

pub open spec fn spec_stoppage_kind_raw(kind: StoppageKind) -> Seq<char> {
    match kind {
        StoppageKind::Timeout => "timeout"@,
        StoppageKind::Pause => "pause"@,
    }
}

pub open spec fn spec_stoppage_kind_from_raw(raw: Seq<char>) -> Option<StoppageKind> {
    if raw == "timeout"@ {
        Some(StoppageKind::Timeout)
    } else if raw == "pause"@ {
        Some(StoppageKind::Pause)
    } else {
        None
    }
}

/// The play kind named `raw`, if any.
pub fn play_event_kind_from_raw(raw: &str) -> (r: Option<PlayEventKind>)
    ensures
        r == spec_play_event_kind_from_raw(raw@),
{
    if text_is(raw, "goal") {
        Some(PlayEventKind::Goal)
    } else if text_is(raw, "shotMissed") {
        Some(PlayEventKind::ShotMissed)
    } else if text_is(raw, "freeNote") {
        Some(PlayEventKind::FreeNote)
    } else if text_is(raw, "yellowCard") {
        Some(PlayEventKind::YellowCard)
    } else if text_is(raw, "twoMinuteSuspension") {
        Some(PlayEventKind::TwoMinuteSuspension)
    } else if text_is(raw, "redCard") {
        Some(PlayEventKind::RedCard)
    } else {
        None
    }
}

/// The wire name of a play kind.
pub fn play_event_kind_raw(kind: PlayEventKind) -> (r: &'static str)
    ensures
        r@ == spec_play_event_kind_raw(kind),
{
    match kind {
        PlayEventKind::Goal => "goal",
        PlayEventKind::ShotMissed => "shotMissed",
        PlayEventKind::FreeNote => "freeNote",
        PlayEventKind::YellowCard => "yellowCard",
        PlayEventKind::TwoMinuteSuspension => "twoMinuteSuspension",
        PlayEventKind::RedCard => "redCard",
    }
}

/// The phase kind named `raw`, if any.
pub fn phase_kind_from_raw(raw: &str) -> (r: Option<PhaseKind>)
    ensures
        r == spec_phase_kind_from_raw(raw@),
{
    if text_is(raw, "regular") {
        Some(PhaseKind::Regular)
    } else if text_is(raw, "shootout") {
        Some(PhaseKind::Shootout)
    } else {
        None
    }
}

/// The wire name of a phase kind.
pub fn phase_kind_raw(kind: PhaseKind) -> (r: &'static str)
    ensures
        r@ == spec_phase_kind_raw(kind),
{
    match kind {
        PhaseKind::Regular => "regular",
        PhaseKind::Shootout => "shootout",
    }
}

/// The stoppage kind named `raw`, if any.
pub fn stoppage_kind_from_raw(raw: &str) -> (r: Option<StoppageKind>)
    ensures
        r == spec_stoppage_kind_from_raw(raw@),
{
    if text_is(raw, "timeout") {
        Some(StoppageKind::Timeout)
    } else if text_is(raw, "pause") {
        Some(StoppageKind::Pause)
    } else {
        None
    }
}

/// The wire name of a stoppage kind.
pub fn stoppage_kind_raw(kind: StoppageKind) -> (r: &'static str)
    ensures
        r@ == spec_stoppage_kind_raw(kind),
{
    match kind {
        StoppageKind::Timeout => "timeout",
        StoppageKind::Pause => "pause",
    }
}

/// Reading back the wire name of any kind gives that kind.
pub proof fn lemma_raw_round_trip(p: PlayEventKind, ph: PhaseKind, st: StoppageKind)
    ensures
        spec_play_event_kind_from_raw(spec_play_event_kind_raw(p)) == Some(p),
        spec_phase_kind_from_raw(spec_phase_kind_raw(ph)) == Some(ph),
        spec_stoppage_kind_from_raw(spec_stoppage_kind_raw(st)) == Some(st),
{
    reveal_strlit("goal");
    reveal_strlit("shotMissed");
    reveal_strlit("freeNote");
    reveal_strlit("yellowCard");
    reveal_strlit("twoMinuteSuspension");
    reveal_strlit("redCard");
    reveal_strlit("regular");
    reveal_strlit("shootout");
    reveal_strlit("timeout");
    reveal_strlit("pause");
    assert("goal"@.len() == 4);
    assert("shotMissed"@.len() == 10 && "shotMissed"@[0] == 's');
    assert("freeNote"@.len() == 8);
    assert("yellowCard"@.len() == 10 && "yellowCard"@[0] == 'y');
    assert("twoMinuteSuspension"@.len() == 19);
    assert("redCard"@.len() == 7);
    assert("regular"@.len() == 7);
    assert("shootout"@.len() == 8);
    assert("timeout"@.len() == 7);
    assert("pause"@.len() == 5);
}

} // verus!
