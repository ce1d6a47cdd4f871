//! League operations that write to the ledger: submitting and reviewing games,
//! penalties, inactivity decay and enrollment. Each reserves its ids before it
//! appends, so concurrent submitters never share an id.

use vstd::prelude::*;

use crate::ledger::{decided, pending, present, Ledger, LedgerError};
use crate::model::{Decision, EventNumber, Game, GameID, Payload, PlayerID, StandingEvent, Timestamp};

verus! {

/// Why a review was refused.
#[derive(Clone, Copy, Debug, PartialEq, Eq, Structural)]
pub enum ReviewError {
    /// No game result with that game id is in the log.
    GameNotFound,
    /// The game was already approved or rejected.
    AlreadyReviewed,
}

/// The decision a submitter's standing gives: a moderator's submission is
/// approved by that moderator at once; any other stays pending.
pub open spec fn submission_decision(approver: Option<PlayerID>) -> Option<Decision> {
    match approver {
        Some(m) => Some(Decision { approved: true, reviewer: Some(m) }),
        None => None,
    }
}

/// Whether slot `i` holds the game result with game id `game_id`.
pub open spec fn holds_game<Q>(s: Seq<Option<StandingEvent<Q>>>, i: int, game_id: GameID) -> bool {
    present(s, i) && s[i].unwrap().payload.game_id_of() == Some(game_id)
}

/// Whether `e` is the penalty event `id` on `target`, approved by `moderator`.
pub open spec fn is_penalty<Q>(
    e: Option<StandingEvent<Q>>,
    id: EventNumber,
    target: PlayerID,
    delta_rating: Q,
    reason: String,
    moderator: PlayerID,
    when: Timestamp,
) -> bool {
    match e {
        Some(ev) => ev.id == id && ev.when == when
            && ev.decision == Some(Decision { approved: true, reviewer: Some(moderator) })
            && match ev.payload {
                Payload::Penalty { victims, delta_rating: d, reason: why } =>
                    victims@ == seq![target] && d == delta_rating && why == reason,
                _ => false,
            },
        None => false,
    }
}

/// Whether `e` is the enrollment event `id` of `player`, approved by the system.
pub open spec fn is_enrollment<Q>(
    e: Option<StandingEvent<Q>>,
    id: EventNumber,
    player: PlayerID,
    initial_rating: Q,
    initial_deviation: Q,
    when: Timestamp,
) -> bool {
    match e {
        Some(ev) => ev.id == id && ev.when == when
            && ev.decision == Some(Decision { approved: true, reviewer: None })
            && match ev.payload {
                Payload::JoinLeague { victims, initial_rating: r, initial_deviation: d } =>
                    victims@ == seq![player] && r == initial_rating && d == initial_deviation,
                _ => false,
            },
        None => false,
    }
}

impl<Q> Ledger<Q> {
    /// Appends `event` at `id`, the id just reserved at the end of the log.
    fn append_reserved(&mut self, event: StandingEvent<Q>)
        requires
            old(self).wf(),
            old(self).events().len() > 0,
            old(self).events().last() is None,
            event.id == old(self).events().len() - 1,
        ensures
            final(self).wf(),
            final(self).pointer() == old(self).pointer(),
            final(self).game_counter() == old(self).game_counter(),
            final(self).player_counter() == old(self).player_counter(),
            final(self).events() == old(self).events().drop_last().push(Some(event)),
    {
        let ghost ev = event;
        let ghost before = self.events();
        let appended = self.append(event);
        assert(!present(before, ev.id as int));
        assert(appended is Ok);
        assert(self.events() =~= before.drop_last().push(Some(ev)));
    }

    /// Logs a game result in placement order. A moderator's submission
    /// (`approver` holds the moderator's player id) is approved at once; any
    /// other waits for review. Gives the event id and the game id.
    pub fn submit_game(&mut self, ranking: Vec<PlayerID>, length: u32, when: Timestamp, approver: Option<PlayerID>)
        -> (r: Result<(EventNumber, GameID), LedgerError>)
        requires
            old(self).wf(),
        ensures
            final(self).wf(),
            final(self).pointer() == old(self).pointer(),
            final(self).player_counter() == old(self).player_counter(),
            r is Ok <==> old(self).events().len() < u32::MAX && old(self).game_counter() < i64::MAX,
            r is Ok ==> {
                let (event_id, game_id) = r.unwrap();
                &&& event_id == old(self).events().len()
                &&& game_id == old(self).game_counter()
                &&& final(self).game_counter() == old(self).game_counter() + 1
                &&& final(self).events() == old(self).events().push(Some(StandingEvent {
                    id: event_id,
                    decision: submission_decision(approver),
                    payload: Payload::GameEnd(Game { game_id, ranking, length }),
                    when,
                }))
            },
            r is Err ==> r == Err::<(EventNumber, GameID), LedgerError>(LedgerError::IdReservationFailed)
                && final(self).events() == old(self).events()
                && final(self).game_counter() == old(self).game_counter(),
    {
        match self.reserve_game() {
            Ok((event_id, game_id)) => {
                let decision = match approver {
                    Some(m) => Some(Decision { approved: true, reviewer: Some(m) }),
                    None => None,
                };
                let event = StandingEvent {
                    id: event_id,
                    decision,
                    payload: Payload::GameEnd(Game { game_id, ranking, length }),
                    when,
                };
                self.append_reserved(event);
                assert(old(self).events().push(None).drop_last() =~= old(self).events());
                Ok((event_id, game_id))
            },
            Err(e) => Err(e),
        }
    }

    /// Reserves one event id and appends the approved event `payload` there.
    fn record_approved(&mut self, payload: Payload<Q>, reviewer: Option<PlayerID>, when: Timestamp)
        -> (r: Result<EventNumber, LedgerError>)
        requires
            old(self).wf(),
        ensures
            final(self).wf(),
            final(self).pointer() == old(self).pointer(),
            final(self).game_counter() == old(self).game_counter(),
            final(self).player_counter() == old(self).player_counter(),
            r is Ok <==> old(self).events().len() < u32::MAX,
            r is Ok ==> r.unwrap() == old(self).events().len()
                && final(self).events() == old(self).events().push(Some(StandingEvent {
                    id: r.unwrap(),
                    decision: Some(Decision { approved: true, reviewer }),
                    payload,
                    when,
                })),
            r is Err ==> r == Err::<EventNumber, LedgerError>(LedgerError::IdReservationFailed)
                && final(self).events() == old(self).events(),
    {
        match self.reserve_event_ids(1) {
            Ok(event_id) => {
                assert(old(self).events() + Seq::new(1, |i: int| None::<StandingEvent<Q>>)
                    =~= old(self).events().push(None));
                let event = StandingEvent {
                    id: event_id,
                    decision: Some(Decision { approved: true, reviewer }),
                    payload,
                    when,
                };
                self.append_reserved(event);
                assert(old(self).events().push(None).drop_last() =~= old(self).events());
                Ok(event_id)
            },
            Err(e) => Err(e),
        }
    }

    /// Logs a penalty on `target` by `moderator`, approved at once. The
    /// rating delta is `delta_rating` (negative to take rating away).
    pub fn record_penalty(&mut self, target: PlayerID, delta_rating: Q, reason: String, moderator: PlayerID, when: Timestamp)
        -> (r: Result<EventNumber, LedgerError>)
        requires
            old(self).wf(),
        ensures
            final(self).wf(),
            final(self).pointer() == old(self).pointer(),
            final(self).game_counter() == old(self).game_counter(),
            final(self).player_counter() == old(self).player_counter(),
            r is Ok <==> old(self).events().len() < u32::MAX,
            r is Ok ==> r.unwrap() == old(self).events().len()
                && final(self).events().len() == old(self).events().len() + 1
                && final(self).events().drop_last() == old(self).events()
                && is_penalty(final(self).events().last(), r.unwrap(), target, delta_rating, reason, moderator, when),
            r is Err ==> r == Err::<EventNumber, LedgerError>(LedgerError::IdReservationFailed)
                && final(self).events() == old(self).events(),
    {
        let mut victims: Vec<PlayerID> = Vec::new();
        victims.push(target);
        assert(victims@ =~= seq![target]);
        let r = self.record_approved(Payload::Penalty { victims, delta_rating, reason }, Some(moderator), when);
        proof {
            if r is Ok {
                assert(self.events().drop_last() =~= old(self).events());
            }
        }
        r
    }

    /// Logs inactivity decay for `victims`, approved by the system.
    pub fn record_decay(&mut self, victims: Vec<PlayerID>, delta_deviation: Q, when: Timestamp)
        -> (r: Result<EventNumber, LedgerError>)
        requires
            old(self).wf(),
        ensures
            final(self).wf(),
            final(self).pointer() == old(self).pointer(),
            final(self).game_counter() == old(self).game_counter(),
            final(self).player_counter() == old(self).player_counter(),
            r is Ok <==> old(self).events().len() < u32::MAX,
            r is Ok ==> r.unwrap() == old(self).events().len()
                && final(self).events() == old(self).events().push(Some(StandingEvent {
                    id: r.unwrap(),
                    decision: Some(Decision { approved: true, reviewer: None }),
                    payload: Payload::InactivityDecay { victims, delta_deviation },
                    when,
                })),
            r is Err ==> r == Err::<EventNumber, LedgerError>(LedgerError::IdReservationFailed)
                && final(self).events() == old(self).events(),
    {
        self.record_approved(Payload::InactivityDecay { victims, delta_deviation }, None, when)
    }

    /// Enrolls a new player with the given standing: reserves a player id and
    /// logs the enrollment, approved by the system. Gives the event id and the
    /// new player's id.
    pub fn enroll(&mut self, initial_rating: Q, initial_deviation: Q, when: Timestamp)
        -> (r: Result<(EventNumber, PlayerID), LedgerError>)
        requires
            old(self).wf(),
        ensures
            final(self).wf(),
            final(self).pointer() == old(self).pointer(),
            final(self).game_counter() == old(self).game_counter(),
            r is Ok <==> old(self).events().len() < u32::MAX && old(self).player_counter() < i32::MAX,
            r is Ok ==> {
                let (event_id, player_id) = r.unwrap();
                &&& event_id == old(self).events().len()
                &&& player_id == old(self).player_counter()
                &&& final(self).player_counter() == old(self).player_counter() + 1
                &&& final(self).events().len() == old(self).events().len() + 1
                &&& final(self).events().drop_last() == old(self).events()
                &&& is_enrollment(final(self).events().last(), event_id, player_id, initial_rating, initial_deviation, when)
            },
            r is Err ==> r == Err::<(EventNumber, PlayerID), LedgerError>(LedgerError::IdReservationFailed)
                && final(self).events() == old(self).events()
                && final(self).player_counter() == old(self).player_counter(),
    {
        match self.reserve_enrollment() {
            Ok((event_id, player_id)) => {
                let mut victims: Vec<PlayerID> = Vec::new();
                victims.push(player_id);
                assert(victims@ =~= seq![player_id]);
                let event = StandingEvent {
                    id: event_id,
                    decision: Some(Decision { approved: true, reviewer: None }),
                    payload: Payload::JoinLeague { victims, initial_rating, initial_deviation },
                    when,
                };
                self.append_reserved(event);
                assert(old(self).events().push(None).drop_last() =~= old(self).events());
                assert(self.events().drop_last() =~= old(self).events());
                Ok((event_id, player_id))
            },
            Err(e) => Err(e),
        }
    }

    /// The event id of the game result with game id `game_id`, if any.
    pub fn find_game(&self, game_id: GameID) -> (r: Option<EventNumber>)
        requires
            self.wf(),
        ensures
            r is Some ==> holds_game(self.events(), r.unwrap() as int, game_id)
                && forall|j: int| 0 <= j < r.unwrap() ==> !#[trigger] holds_game(self.events(), j, game_id),
            r is None ==> forall|j: int| 0 <= j < self.events().len() ==> !#[trigger] holds_game(self.events(), j, game_id),
    {
        let n = self.next_event_id();
        let mut i: EventNumber = 0;
        while i < n
            invariant
                self.wf(),
                n == self.events().len(),
                i <= n,
                forall|j: int| 0 <= j < i ==> !#[trigger] holds_game(self.events(), j, game_id),
            decreases n - i,
        {
            match self.get(i) {
                Some(e) => {
                    if e.payload.game_id() == Some(game_id) {
                        return Some(i);
                    }
                },
                None => {},
            }
            i = i + 1;
        }
        None
    }

    /// A moderator's review of a game: approves or rejects the pending game
    /// result with game id `game_id`. Gives its event id.
    pub fn review_game(&mut self, game_id: GameID, approved: bool, reviewer: PlayerID)
        -> (r: Result<EventNumber, ReviewError>)
        requires
            old(self).wf(),
        ensures
            final(self).wf(),
            final(self).pointer() == old(self).pointer(),
            final(self).game_counter() == old(self).game_counter(),
            final(self).player_counter() == old(self).player_counter(),
            (r == Err::<EventNumber, ReviewError>(ReviewError::GameNotFound))
                <==> forall|j: int| 0 <= j < old(self).events().len() ==> !#[trigger] holds_game(old(self).events(), j, game_id),
            r is Err ==> final(self).events() == old(self).events(),
            r matches Err(ReviewError::AlreadyReviewed) ==> exists|i: int| #[trigger] holds_game(old(self).events(), i, game_id)
                && decided(old(self).events(), i)
                && forall|j: int| 0 <= j < i ==> !#[trigger] holds_game(old(self).events(), j, game_id),
            r is Ok ==> {
                let i = r.unwrap() as int;
                let e = old(self).events()[i].unwrap();
                &&& holds_game(old(self).events(), i, game_id)
                &&& pending(old(self).events(), i)
                &&& forall|j: int| 0 <= j < i ==> !#[trigger] holds_game(old(self).events(), j, game_id)
                &&& final(self).events() == old(self).events().update(i, Some(StandingEvent {
                    id: e.id,
                    decision: Some(Decision { approved, reviewer: Some(reviewer) }),
                    payload: e.payload,
                    when: e.when,
                }))
            },
    {
        match self.find_game(game_id) {
            None => Err(ReviewError::GameNotFound),
            Some(i) => {
                match self.decide(i, approved, Some(reviewer)) {
                    Ok(()) => Ok(i),
                    Err(_) => {
                        assert(holds_game(old(self).events(), i as int, game_id));
                        Err(ReviewError::AlreadyReviewed)
                    },
                }
            },
        }
    }
}

} // verus!

verus! {

/// How long a player may go without a game before their deviation decays: one week.
pub const INACTIVITY_WINDOW_MS: i64 = 604_800_000;

/// Whether a player last seen at `last_played` is inactive at `now`: they
/// played once, more than the inactivity window before `now`. A player who
/// never played does not decay.
pub open spec fn inactive(last_played: Option<Timestamp>, now: Timestamp) -> bool {
    match last_played {
        Some(t) => t < now - INACTIVITY_WINDOW_MS,
        None => false,
    }
}

/// The players due for inactivity decay at `now`, in the order given.
/// `players` pairs each player id with the time they last played.
pub fn decay_victims(players: &Vec<(PlayerID, Option<Timestamp>)>, now: Timestamp) -> (r: Vec<PlayerID>)
    ensures
        r@ == players@.filter(|p: (PlayerID, Option<Timestamp>)| inactive(p.1, now)).map_values(
            |p: (PlayerID, Option<Timestamp>)| p.0,
        ),
{
    let ghost f = |p: (PlayerID, Option<Timestamp>)| inactive(p.1, now);
    let ghost g = |p: (PlayerID, Option<Timestamp>)| p.0;
    let mut out: Vec<PlayerID> = Vec::new();
    let mut i: usize = 0;
    while i < players.len()
        invariant
            i <= players@.len(),
            f == (|p: (PlayerID, Option<Timestamp>)| inactive(p.1, now)),
            g == (|p: (PlayerID, Option<Timestamp>)| p.0),
            out@ == players@.subrange(0, i as int).filter(f).map_values(g),
        decreases players@.len() - i,
    {
        let (id, last) = players[i];
        let due = match last {
            Some(t) => (t as i128) < (now as i128) - (INACTIVITY_WINDOW_MS as i128),
            None => false,
        };
        let ghost pre = players@.subrange(0, i as int);
        assert(players@.subrange(0, i + 1) =~= pre.push(players@[i as int]));
        proof {
            pre.lemma_filter_push(players@[i as int], f);
        }
        if due {
            out.push(id);
            assert(out@ =~= pre.push(players@[i as int]).filter(f).map_values(g));
        } else {
            assert(out@ =~= pre.push(players@[i as int]).filter(f).map_values(g));
        }
        i = i + 1;
    }
    assert(players@.subrange(0, players@.len() as int) =~= players@);
    out
}

} // verus!
