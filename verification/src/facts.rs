//! Facts: the entries of a match's append-only log.

use vstd::prelude::*;

use crate::clock::{FactAnchor, UtcDateTime};
use crate::configuration::PhaseKind;
use crate::entities::duplicate_opt_string;
use crate::ids::{FactId, PlayerId, TeamId};

verus! {

#[derive(Debug, Clone, Copy, PartialEq, Eq, Hash, Structural)]
pub enum PlayEventKind {
    Goal,
    ShotMissed,
    FreeNote,
    YellowCard,
    TwoMinuteSuspension,
    RedCard,
}

impl PlayEventKind {
    /// Every kind, in declaration order.
    pub fn all_cases() -> (r: [PlayEventKind; 6])
        ensures
            r@ == seq![
                PlayEventKind::Goal,
                PlayEventKind::ShotMissed,
                PlayEventKind::FreeNote,
                PlayEventKind::YellowCard,
                PlayEventKind::TwoMinuteSuspension,
                PlayEventKind::RedCard,
            ],
    {
        [
            PlayEventKind::Goal,
            PlayEventKind::ShotMissed,
            PlayEventKind::FreeNote,
            PlayEventKind::YellowCard,
            PlayEventKind::TwoMinuteSuspension,
            PlayEventKind::RedCard,
        ]
    }
}

/// One play event. It holds no phase: the phase is found from the phase-start ranges.
#[derive(Debug, Clone, PartialEq)]
pub struct PlayFact {
    pub kind: PlayEventKind,
    pub team_id: Option<TeamId>,
    pub player_id: Option<PlayerId>,
    pub related_player_id: Option<PlayerId>,
    pub anchor: FactAnchor,
    pub title: Option<String>,
    pub note: Option<String>,
}

#[derive(Debug, Clone, Copy, PartialEq, Eq, Hash, Structural)]
pub enum StoppageKind {
    /// Tactical timeout.
    Timeout,
    /// Any other interruption (injury, review, referee decision).
    Pause,
}

impl StoppageKind {
    /// Every kind, in declaration order.
    pub fn all_cases() -> (r: [StoppageKind; 2])
        ensures
            r@ == seq![StoppageKind::Timeout, StoppageKind::Pause],
    {
        [StoppageKind::Timeout, StoppageKind::Pause]
    }
}

/// A phase: its start and its (always present) end.
#[derive(Debug, Clone, Copy, PartialEq, Eq, Structural)]
pub struct PhaseStartPayload {
    pub kind: PhaseKind,
    pub start_anchor: FactAnchor,
    pub end_anchor: FactAnchor,
}

/// A stoppage (timeout / pause). Its end is absent in timer mode and present in video mode.
#[derive(Debug, Clone, PartialEq)]
pub struct StoppagePayload {
    pub kind: StoppageKind,
    pub start_anchor: FactAnchor,
    pub end_anchor: Option<FactAnchor>,
    pub note: Option<String>,
}

/// A control event of match progress.
#[derive(Debug, Clone, PartialEq)]
pub enum ControlFact {
    PhaseStart(PhaseStartPayload),
    Stoppage(StoppagePayload),
}

/// The team named here holds the ball from this point on; the end is optional.
#[derive(Debug, Clone, Copy, PartialEq, Eq, Structural)]
pub struct PossessionFact {
    pub team_id: TeamId,
    pub anchor: FactAnchor,
    pub end_anchor: Option<FactAnchor>,
}

#[derive(Debug, Clone, PartialEq)]
pub enum MatchFactPayload {
    Play(PlayFact),
    Control(ControlFact),
    Possession(PossessionFact),
}

/// One stored fact. `recorded_at` serves only as an ordering tie-break.
#[derive(Debug, Clone, PartialEq)]
pub struct MatchFact {
    pub id: FactId,
    pub recorded_at: UtcDateTime,
    pub payload: MatchFactPayload,
}

impl ControlFact {
    pub open spec fn spec_start_anchor(&self) -> FactAnchor {
        match self {
            ControlFact::PhaseStart(p) => p.start_anchor,
            ControlFact::Stoppage(p) => p.start_anchor,
        }
    }

    /// The start anchor, whatever the payload.
    pub fn start_anchor(&self) -> (r: FactAnchor)
        ensures
            r == self.spec_start_anchor(),
    {
        match self {
            ControlFact::PhaseStart(payload) => payload.start_anchor,
            ControlFact::Stoppage(payload) => payload.start_anchor,
        }
    }

    /// The end anchor: always present for a phase start, optional for a stoppage.
    pub fn end_anchor(&self) -> (r: Option<FactAnchor>)
        ensures
            r == (match self {
                ControlFact::PhaseStart(p) => Some(p.end_anchor),
                ControlFact::Stoppage(p) => p.end_anchor,
            }),
    {
        match self {
            ControlFact::PhaseStart(payload) => Some(payload.end_anchor),
            ControlFact::Stoppage(payload) => payload.end_anchor,
        }
    }
}

impl PlayFact {
    /// A copy equal to `self`.
    pub fn duplicate(&self) -> (r: PlayFact)
        ensures
            r == *self,
    {
        PlayFact {
            kind: self.kind,
            team_id: self.team_id,
            player_id: self.player_id,
            related_player_id: self.related_player_id,
            anchor: self.anchor,
            title: duplicate_opt_string(&self.title),
            note: duplicate_opt_string(&self.note),
        }
    }
}

impl MatchFact {
    /// The representative anchor: the only anchor of a play or possession, the start
    /// anchor of a control fact.
    pub open spec fn spec_anchor(&self) -> FactAnchor {
        match self.payload {
            MatchFactPayload::Play(p) => p.anchor,
            MatchFactPayload::Control(c) => c.spec_start_anchor(),
            MatchFactPayload::Possession(p) => p.anchor,
        }
    }

    pub fn anchor(&self) -> (r: FactAnchor)
        ensures
            r == self.spec_anchor(),
    {
        match &self.payload {
            MatchFactPayload::Play(play) => play.anchor,
            MatchFactPayload::Control(control) => control.start_anchor(),
            MatchFactPayload::Possession(possession) => possession.anchor,
        }
    }

    /// The anchor of a fact treated as a point: the (start) anchor of a play or
    /// possession; `None` for control facts, which are ranges.
    pub fn single_anchor(&self) -> (r: Option<FactAnchor>)
        ensures
            r == (match self.payload {
                MatchFactPayload::Play(p) => Some(p.anchor),
                MatchFactPayload::Possession(p) => Some(p.anchor),
                MatchFactPayload::Control(_) => None::<FactAnchor>,
            }),
    {
        match &self.payload {
            MatchFactPayload::Play(play) => Some(play.anchor),
            MatchFactPayload::Possession(possession) => Some(possession.anchor),
            MatchFactPayload::Control(_) => None,
        }
    }

    /// The single anchor of a play or possession, to be written through (the rest of the
    /// fact unchanged); `None` for control facts.
    pub fn single_anchor_mut(&mut self) -> (r: Option<&mut FactAnchor>)
        ensures
            match old(self).payload {
                MatchFactPayload::Play(p) => r matches Some(a) && *a == p.anchor && *final(self) == (MatchFact {
                    payload: MatchFactPayload::Play(PlayFact { anchor: *final(a), ..p }),
                    ..*old(self)
                }),
                MatchFactPayload::Possession(p) => r matches Some(a) && *a == p.anchor && *final(self) == (MatchFact {
                    payload: MatchFactPayload::Possession(PossessionFact { anchor: *final(a), ..p }),
                    ..*old(self)
                }),
                MatchFactPayload::Control(_) => r is None && *final(self) == *old(self),
            },
    {
        match &mut self.payload {
            MatchFactPayload::Play(play) => Some(&mut play.anchor),
            MatchFactPayload::Possession(possession) => Some(&mut possession.anchor),
            MatchFactPayload::Control(_) => None,
        }
    }

    /// A copy equal to `self`.
    pub fn duplicate(&self) -> (r: MatchFact)
        ensures
            r == *self,
    {
        let payload = match &self.payload {
            MatchFactPayload::Play(p) => MatchFactPayload::Play(p.duplicate()),
            MatchFactPayload::Control(ControlFact::PhaseStart(p)) =>
                MatchFactPayload::Control(ControlFact::PhaseStart(*p)),
            MatchFactPayload::Control(ControlFact::Stoppage(p)) =>
                MatchFactPayload::Control(ControlFact::Stoppage(StoppagePayload {
                    kind: p.kind,
                    start_anchor: p.start_anchor,
                    end_anchor: p.end_anchor,
                    note: duplicate_opt_string(&p.note),
                })),
            MatchFactPayload::Possession(p) => MatchFactPayload::Possession(*p),
        };
        MatchFact { id: self.id, recorded_at: self.recorded_at, payload }
    }
}

/// A copy of a fact sequence, equal to it.
pub fn duplicate_facts(facts: &[MatchFact]) -> (r: Vec<MatchFact>)
    ensures
        r@ == facts@,
{
    let mut out: Vec<MatchFact> = Vec::new();
    let mut i: usize = 0;
    while i < facts.len()
        invariant
            i <= facts.len(),
            out@ == facts@.subrange(0, i as int),
        decreases facts.len() - i,
    {
        out.push(facts[i].duplicate());
        i += 1;
    }
    assert(out@ == facts@);
    out
}

} // verus!
