//! The records of the league: events, their payloads and decisions.

use vstd::prelude::*;

verus! {

/// Identifier of an event: events are numbered densely from 0.
pub type EventNumber = u32;

/// Identifier of a game: games are numbered densely from 0.
pub type GameID = i64;

/// Identifier of a player, assigned at enrollment.
pub type PlayerID = i32;

/// A point in time, in milliseconds since the Unix epoch.
pub type Timestamp = i64;

/// The verdict on an event.
#[derive(Clone, Copy, Debug, PartialEq, Eq, Structural)]
pub struct Decision {
    pub approved: bool,
    /// `None` when the decision was taken by a trusted automatic submitter.
    pub reviewer: Option<PlayerID>,
}

/// The result of a finished game.
#[derive(Debug)]
pub struct Game {
    pub game_id: GameID,
    /// Participants in placement order: index 0 is the winner.
    pub ranking: Vec<PlayerID>,
    /// Length of the game in seconds.
    pub length: u32,
}

/// What an event does to the league. `Q` is the type of rating quantities.
#[derive(Debug)]
#[allow(inconsistent_fields)]
pub enum Payload<Q> {
    /// Removes rating for foul play.
    Penalty { victims: Vec<PlayerID>, delta_rating: Q, reason: String },
    /// Adds deviation for inactivity.
    InactivityDecay { victims: Vec<PlayerID>, delta_deviation: Q },
    /// A regular game.
    GameEnd(Game),
    /// Overwrites standing fields; not supported by the projector.
    SetStanding {
        victims: Vec<PlayerID>,
        new_rating: Option<Q>,
        new_deviation: Option<Q>,
        reason: String,
    },
    /// Adds to standing fields.
    ChangeStanding {
        victims: Vec<PlayerID>,
        delta_rating: Option<Q>,
        delta_deviation: Option<Q>,
        reason: String,
    },
    /// First enrollment: sets the standing fields.
    JoinLeague { victims: Vec<PlayerID>, initial_rating: Q, initial_deviation: Q },
}

/// One entry of the ledger.
#[derive(Debug)]
pub struct StandingEvent<Q> {
    pub id: EventNumber,
    /// `None` while the event is pending.
    pub decision: Option<Decision>,
    pub payload: Payload<Q>,
    pub when: Timestamp,
}

impl<Q> Payload<Q> {
    /// The game id carried by a game result.
    pub open spec fn game_id_of(self) -> Option<GameID> {
        match self {
            Payload::GameEnd(g) => Some(g.game_id),
            _ => None,
        }
    }

    pub fn game_id(&self) -> (r: Option<GameID>)
        ensures
            r == self.game_id_of(),
    {
        match self {
            Payload::GameEnd(g) => Some(g.game_id),
            _ => None,
        }
    }
}

} // verus!
