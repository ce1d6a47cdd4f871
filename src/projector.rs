//! What an approved event does to player standings. The arithmetic on rating
//! quantities is left to the caller; this module decides, for each kind of
//! payload, which standing fields change and how.

use vstd::prelude::*;

use crate::model::{Game, Payload, PlayerID, StandingEvent, Timestamp};

verus! {

/// The change an approved event makes to player standings.
#[derive(Debug)]
#[allow(inconsistent_fields)]
pub enum Effect<Q> {
    /// Rerate the participants from their current standings, in placement
    /// order, and move each one's last-played time up to `when`.
    RateGame { ranking: Vec<PlayerID>, when: Timestamp },
    /// Add each given delta to each victim's field.
    Adjust { victims: Vec<PlayerID>, delta_rating: Option<Q>, delta_deviation: Option<Q> },
    /// Add to each victim's deviation, capped at the default deviation.
    Decay { victims: Vec<PlayerID>, delta_deviation: Q },
    /// Set each victim's fields (first enrollment).
    Enroll { victims: Vec<PlayerID>, rating: Q, deviation: Q },
}

/// Why the projector cannot apply an event.
#[derive(Clone, Copy, Debug, PartialEq, Eq, Structural)]
pub enum ProjectionError {
    /// The payload kind has no effect defined; never skipped silently.
    UnsupportedPayload,
}

/// A copy of a list of player ids.
pub fn copy_ids(ids: &Vec<PlayerID>) -> (r: Vec<PlayerID>)
    ensures
        r@ == ids@,
{
    let mut out: Vec<PlayerID> = Vec::with_capacity(ids.len());
    let mut i: usize = 0;
    while i < ids.len()
        invariant
            i <= ids@.len(),
            out@ == ids@.subrange(0, i as int),
        decreases ids@.len() - i,
    {
        out.push(ids[i]);
        i = i + 1;
        assert(out@ =~= ids@.subrange(0, i as int));
    }
    assert(out@ =~= ids@);
    out
}

impl<Q> Payload<Q> {
    /// Rewrites a penalty as the standing change it is: a rating delta and no
    /// deviation delta. Other payloads have no such form.
    pub fn try_into_generic_variant(self) -> (r: Option<Payload<Q>>)
        ensures
            match self {
                Payload::Penalty { victims, delta_rating, reason } => r == Some(
                    Payload::ChangeStanding {
                        victims,
                        delta_rating: Some(delta_rating),
                        delta_deviation: None,
                        reason,
                    },
                ),
                _ => r is None,
            },
    {
        match self {
            Payload::Penalty { victims, delta_rating, reason } => Some(
                Payload::ChangeStanding {
                    victims,
                    delta_rating: Some(delta_rating),
                    delta_deviation: None,
                    reason,
                },
            ),
            _ => None,
        }
    }
}

/// Whether `e` is the effect of payload `p` of an event that happened at `when`.
pub open spec fn is_effect_of<Q>(p: Payload<Q>, when: Timestamp, e: Effect<Q>) -> bool {
    match (p, e) {
        (Payload::GameEnd(g), Effect::RateGame { ranking, when: w }) => ranking@ == g.ranking@ && w == when,
        (Payload::Penalty { victims, delta_rating, .. }, Effect::Adjust { victims: v, delta_rating: dr, delta_deviation: dd }) =>
            v@ == victims@ && dr == Some(delta_rating) && dd is None,
        (Payload::ChangeStanding { victims, delta_rating, delta_deviation, .. }, Effect::Adjust { victims: v, delta_rating: dr, delta_deviation: dd }) =>
            v@ == victims@ && dr == delta_rating && dd == delta_deviation,
        (Payload::InactivityDecay { victims, delta_deviation }, Effect::Decay { victims: v, delta_deviation: dd }) =>
            v@ == victims@ && dd == delta_deviation,
        (Payload::JoinLeague { victims, initial_rating, initial_deviation }, Effect::Enroll { victims: v, rating, deviation }) =>
            v@ == victims@ && rating == initial_rating && deviation == initial_deviation,
        _ => false,
    }
}

impl<Q: Copy> StandingEvent<Q> {
    /// The effect of this event on player standings once it is approved. A
    /// penalty is a standing change with only the rating delta set; a
    /// `SetStanding` payload has no effect defined and is refused.
    pub fn process_effect(&self) -> (r: Result<Effect<Q>, ProjectionError>)
        ensures
            self.payload is SetStanding <==> r == Err::<Effect<Q>, ProjectionError>(ProjectionError::UnsupportedPayload),
            r is Ok ==> is_effect_of(self.payload, self.when, r.unwrap()),
    {
        match &self.payload {
            Payload::GameEnd(Game { ranking, .. }) => Ok(Effect::RateGame { ranking: copy_ids(ranking), when: self.when }),
            Payload::Penalty { victims, delta_rating, .. } => Ok(
                Effect::Adjust { victims: copy_ids(victims), delta_rating: Some(*delta_rating), delta_deviation: None },
            ),
            Payload::ChangeStanding { victims, delta_rating, delta_deviation, .. } => Ok(
                Effect::Adjust { victims: copy_ids(victims), delta_rating: *delta_rating, delta_deviation: *delta_deviation },
            ),
            Payload::InactivityDecay { victims, delta_deviation } => Ok(
                Effect::Decay { victims: copy_ids(victims), delta_deviation: *delta_deviation },
            ),
            Payload::JoinLeague { victims, initial_rating, initial_deviation } => Ok(
                Effect::Enroll { victims: copy_ids(victims), rating: *initial_rating, deviation: *initial_deviation },
            ),
            Payload::SetStanding { .. } => Err(ProjectionError::UnsupportedPayload),
        }
    }
}

} // verus!
