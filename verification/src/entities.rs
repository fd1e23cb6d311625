//! Entities: teams, players and matches.

use vstd::prelude::*;

use crate::clock::UtcDateTime;
use crate::configuration::MatchConfiguration;
use crate::ids::{MatchId, PlayerId, TeamId};

verus! {

/// A copy of an optional string, equal to it.
pub fn duplicate_opt_string(s: &Option<String>) -> (r: Option<String>)
    ensures
        r == *s,
{
    match s {
        Some(v) => Some(v.clone()),
        None => None,
    }
}

#[derive(Debug, Clone, PartialEq)]
pub struct Team {
    pub id: TeamId,
    pub name: String,
}

impl Team {
    /// A copy equal to `self`.
    pub fn duplicate(&self) -> (r: Team)
        ensures
            r == *self,
    {
        Team { id: self.id, name: self.name.clone() }
    }
}

/// Reference to a stored photo; the image itself lives outside the domain.
#[derive(Debug, Clone, PartialEq)]
pub struct PlayerPhoto {
    pub storage_key: String,
}

#[derive(Debug, Clone, PartialEq)]
pub struct Player {
    pub id: PlayerId,
    pub team_id: TeamId,
    pub name: String,
    pub jersey_number: Option<i64>,
    pub photo: Option<PlayerPhoto>,
}

impl Player {
    /// A copy equal to `self`.
    pub fn duplicate(&self) -> (r: Player)
        ensures
            r == *self,
    {
        Player {
            id: self.id,
            team_id: self.team_id,
            name: self.name.clone(),
            jersey_number: self.jersey_number,
            photo: match &self.photo {
                Some(p) => Some(PlayerPhoto { storage_key: p.storage_key.clone() }),
                None => None,
            },
        }
    }
}

/// Roster selection of a match: each list is ascending and free of repeats.
#[derive(Debug, Clone, PartialEq)]
pub struct RosterSelection {
    pub benched_player_ids: Vec<PlayerId>,
    pub out_of_roster_player_ids: Vec<PlayerId>,
}

/// `s` is strictly ascending (so it holds each id once).
pub open spec fn ascending_ids(s: Seq<PlayerId>) -> bool {
    forall|i: int, j: int| 0 <= i < j < s.len() ==> s[i].0 < s[j].0
}

impl RosterSelection {
    pub open spec fn wf(&self) -> bool {
        ascending_ids(self.benched_player_ids@) && ascending_ids(self.out_of_roster_player_ids@)
    }

    /// The empty selection.
    pub fn empty() -> (r: RosterSelection)
        ensures
            r.benched_player_ids@ == Seq::<PlayerId>::empty(),
            r.out_of_roster_player_ids@ == Seq::<PlayerId>::empty(),
            r.wf(),
    {
        RosterSelection { benched_player_ids: Vec::new(), out_of_roster_player_ids: Vec::new() }
    }
}

#[derive(Debug, Clone, PartialEq)]
pub struct Match {
    pub id: MatchId,
    pub title: Option<String>,
    pub date: UtcDateTime,
    pub home_team_id: TeamId,
    pub away_team_id: TeamId,
    pub configuration: MatchConfiguration,
    pub roster_selection: RosterSelection,
    /// Whether the score and event lists show the home team on the left.
    pub is_home_on_left: bool,
}

} // verus!
