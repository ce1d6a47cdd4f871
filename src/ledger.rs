//! The event ledger: events keyed by a dense id, the counters that hand out
//! fresh ids, and the approval pointer.

use vstd::prelude::*;

use crate::model::{Decision, EventNumber, GameID, Payload, PlayerID, StandingEvent};

verus! {

/// Why a ledger operation was refused.
#[derive(Clone, Copy, Debug, PartialEq, Eq, Structural)]
pub enum LedgerError {
    /// No fresh id is left to hand out; nothing was reserved.
    IdReservationFailed,
    /// An event already stands at that id.
    DuplicateEventId,
    /// The id was never reserved.
    NotReserved,
    /// No event stands at that id.
    NotFound,
    /// The event already carries a decision.
    AlreadyDecided,
    /// The approval pointer cannot pass an event that is missing or pending.
    Undecided,
}

/// Whether slot `i` holds an event.
pub open spec fn present<Q>(s: Seq<Option<StandingEvent<Q>>>, i: int) -> bool {
    0 <= i < s.len() && s[i] is Some
}

/// Whether slot `i` holds an event that has been decided.
pub open spec fn decided<Q>(s: Seq<Option<StandingEvent<Q>>>, i: int) -> bool {
    present(s, i) && s[i].unwrap().decision is Some
}

/// Whether slot `i` holds an event that has not been decided yet.
pub open spec fn pending<Q>(s: Seq<Option<StandingEvent<Q>>>, i: int) -> bool {
    present(s, i) && s[i].unwrap().decision is None
}

/// Whether slot `i` holds an approved event.
pub open spec fn approved<Q>(s: Seq<Option<StandingEvent<Q>>>, i: int) -> bool {
    decided(s, i) && s[i].unwrap().decision.unwrap().approved
}

/// Whether every slot below `end` holds a decided event.
pub open spec fn decided_below<Q>(s: Seq<Option<StandingEvent<Q>>>, end: int) -> bool {
    forall|i: int| 0 <= i < end ==> #[trigger] decided(s, i)
}

/// The exclusive bound a replay may not reach: `stop_before`, or the end of the log.
pub open spec fn replay_limit<Q>(s: Seq<Option<StandingEvent<Q>>>, stop_before: Option<EventNumber>) -> int {
    match stop_before {
        Some(b) => b as int,
        None => s.len() as int,
    }
}

/// Where a replay that starts at `from` stops: the first id at or after `from`
/// that reaches `limit` or is missing or pending.
pub open spec fn replay_end<Q>(s: Seq<Option<StandingEvent<Q>>>, from: int, limit: int) -> int
    decreases limit - from,
{
    if from >= limit || !decided(s, from) {
        from
    } else {
        replay_end(s, from + 1, limit)
    }
}

/// The ids of the approved events in `[from, to)`, ascending.
pub open spec fn approved_ids<Q>(s: Seq<Option<StandingEvent<Q>>>, from: int, to: int) -> Seq<EventNumber>
    decreases to - from,
{
    if to <= from {
        Seq::empty()
    } else if approved(s, to - 1) {
        approved_ids(s, from, to - 1).push((to - 1) as EventNumber)
    } else {
        approved_ids(s, from, to - 1)
    }
}

/// What a replay stops on and what it applies.
pub proof fn lemma_replay_end<Q>(s: Seq<Option<StandingEvent<Q>>>, from: int, limit: int)
    requires
        0 <= from,
    ensures
        from <= replay_end(s, from, limit),
        replay_end(s, from, limit) <= s.len() || replay_end(s, from, limit) == from,
        from <= limit ==> replay_end(s, from, limit) <= limit,
        forall|i: int| from <= i < replay_end(s, from, limit) ==> #[trigger] decided(s, i),
        replay_end(s, from, limit) >= limit || !decided(s, replay_end(s, from, limit)),
    decreases limit - from,
{
    if from < limit && decided(s, from) {
        lemma_replay_end(s, from + 1, limit);
    }
}

/// The ids of approved events in a range lie in it, ascending, and are approved.
pub proof fn lemma_approved_ids<Q>(s: Seq<Option<StandingEvent<Q>>>, from: int, to: int)
    requires
        0 <= from,
        to <= u32::MAX + 1,
    ensures
        forall|k: int| 0 <= k < approved_ids(s, from, to).len() ==> {
            let id = #[trigger] approved_ids(s, from, to)[k] as int;
            from <= id < to && approved(s, id)
        },
        forall|k: int, l: int| 0 <= k < l < approved_ids(s, from, to).len()
            ==> approved_ids(s, from, to)[k] < approved_ids(s, from, to)[l],
        forall|i: int| from <= i < to && #[trigger] approved(s, i)
            ==> approved_ids(s, from, to).contains(i as EventNumber),
    decreases to - from,
{
    if to > from {
        lemma_approved_ids(s, from, to - 1);
        let prev = approved_ids(s, from, to - 1);
        if approved(s, to - 1) {
            assert(approved_ids(s, from, to)[prev.len() as int] == (to - 1) as EventNumber);
        }
        assert forall|i: int| from <= i < to && #[trigger] approved(s, i)
            implies approved_ids(s, from, to).contains(i as EventNumber) by {
            if i < to - 1 {
                let k = choose|k: int| 0 <= k < prev.len() && prev[k] == i as EventNumber;
                assert(approved_ids(s, from, to)[k] == i as EventNumber);
            } else {
                assert(approved_ids(s, from, to)[prev.len() as int] == i as EventNumber);
            }
        }
    }
}

/// `after` is `before` with the `n` event ids from `first` reserved.
pub open spec fn reserved<Q>(before: Ledger<Q>, after: Ledger<Q>, n: u32, first: EventNumber) -> bool {
    &&& first == before.events().len()
    &&& after.events() == before.events() + Seq::new(n as nat, |i: int| None::<StandingEvent<Q>>)
}

/// `after` is `before` once the pointer was committed up to `end`: it moves up
/// to `end` when every event below `end` is decided, and otherwise stays.
pub open spec fn committed<Q>(before: Ledger<Q>, after: Ledger<Q>, end: EventNumber) -> bool {
    &&& after.events() == before.events()
    &&& after.pointer() == if decided_below(before.events(), end as int) && end > before.pointer() {
        end as int
    } else {
        before.pointer()
    }
}

/// Reservations of one id each, made one after another (the order in which
/// concurrent callers are served), hand out distinct ids with no gaps: the
/// `k`-th gets the first free id plus `k`.
pub proof fn law_reservations_distinct<Q>(states: Seq<Ledger<Q>>, ids: Seq<EventNumber>)
    requires
        states.len() == ids.len() + 1,
        forall|k: int| 0 <= k < ids.len() ==> reserved(#[trigger] states[k], states[k + 1], 1, ids[k]),
    ensures
        forall|k: int| 0 <= k < ids.len() ==> #[trigger] ids[k] == states[0].events().len() + k,
        forall|k: int, l: int| 0 <= k < l < ids.len() ==> ids[k] != ids[l],
        states.last().events().len() == states[0].events().len() + ids.len(),
    decreases ids.len(),
{
    if ids.len() > 0 {
        let n = ids.len() - 1;
        let st = states.drop_last();
        let pre = ids.drop_last();
        assert forall|k: int| 0 <= k < pre.len() implies reserved(#[trigger] st[k], st[k + 1], 1, pre[k]) by {
            assert(reserved(states[k], states[k + 1], 1, ids[k]));
        }
        law_reservations_distinct(st, pre);
        assert(reserved(states[n], states[n + 1], 1, ids[n]));
        assert forall|k: int| 0 <= k < ids.len() implies #[trigger] ids[k] == states[0].events().len() + k by {
            if k < n {
                assert(pre[k] == ids[k]);
            }
        }
    }
}

/// Over any run of commits, the pointer never moves back.
pub proof fn law_pointer_monotonic<Q>(states: Seq<Ledger<Q>>, ends: Seq<EventNumber>)
    requires
        states.len() == ends.len() + 1,
        forall|k: int| 0 <= k < ends.len() ==> committed(#[trigger] states[k], states[k + 1], ends[k]),
    ensures
        forall|i: int, j: int| 0 <= i <= j < states.len() ==> states[i].pointer() <= states[j].pointer(),
    decreases ends.len(),
{
    if ends.len() > 0 {
        let n = ends.len() - 1;
        let st = states.drop_last();
        let pre = ends.drop_last();
        assert forall|k: int| 0 <= k < pre.len() implies committed(#[trigger] st[k], st[k + 1], pre[k]) by {
            assert(committed(states[k], states[k + 1], ends[k]));
        }
        law_pointer_monotonic(st, pre);
        assert(committed(states[n], states[n + 1], ends[n]));
        assert forall|i: int, j: int| 0 <= i <= j < states.len() implies states[i].pointer() <= states[j].pointer() by {
            if j == n + 1 && i <= n {
                assert(st[i] == states[i]);
                assert(st[n] == states[n]);
            } else if j <= n {
                assert(st[i] == states[i]);
                assert(st[j] == states[j]);
            }
        }
    }
}

/// A pending event blocks every later one: a run of the approval pointer that
/// starts at or before pending event `n` stops at or before it, and applies
/// no event from `n` on.
pub proof fn law_pending_blocks<Q>(s: Seq<Option<StandingEvent<Q>>>, from: int, limit: int, n: int)
    requires
        0 <= from <= n,
        pending(s, n),
        n < u32::MAX,
    ensures
        replay_end(s, from, limit) <= n,
        forall|k: int| 0 <= k < approved_ids(s, from, replay_end(s, from, limit)).len()
            ==> #[trigger] approved_ids(s, from, replay_end(s, from, limit))[k] < n,
{
    lemma_replay_end(s, from, limit);
    let e = replay_end(s, from, limit);
    assert(!decided(s, n));
    lemma_approved_ids(s, from, e);
}

/// What a replay applies depends only on the events it covers: two logs that
/// agree on the events below `to` have the same approved events in `[from, to)`,
/// in the same order.
pub proof fn law_replay_depends_on_prefix<Q>(s1: Seq<Option<StandingEvent<Q>>>, s2: Seq<Option<StandingEvent<Q>>>, from: int, to: int)
    requires
        0 <= from,
        to <= s1.len(),
        to <= s2.len(),
        s1.subrange(0, to) == s2.subrange(0, to),
    ensures
        approved_ids(s1, from, to) == approved_ids(s2, from, to),
    decreases to - from,
{
    if to > from {
        assert(s1.subrange(0, to - 1) =~= s2.subrange(0, to - 1)) by {
            assert forall|i: int| 0 <= i < to - 1 implies s1[i] == s2[i] by {
                assert(s1.subrange(0, to)[i] == s2.subrange(0, to)[i]);
            }
        }
        assert(s1[to - 1] == s2[to - 1]) by {
            assert(s1.subrange(0, to)[to - 1] == s2.subrange(0, to)[to - 1]);
        }
        law_replay_depends_on_prefix(s1, s2, from, to - 1);
    }
}

/// The work of one run of the approval pointer: it passes the events in
/// `[start, end)`, and the approved ones among them take effect in the order given.
#[derive(Debug)]
pub struct AdvancePlan {
    pub start: EventNumber,
    pub end: EventNumber,
    pub approved: Vec<EventNumber>,
}

/// The league's ledger. `Q` is the type of rating quantities in payloads.
///
/// Slot `i` holds the event with id `i`, or nothing while id `i` is reserved
/// but its event not yet appended. Every event below the approval pointer is
/// decided.
pub struct Ledger<Q> {
    slots: Vec<Option<StandingEvent<Q>>>,
    next_game_id: GameID,
    next_player_id: PlayerID,
    pointer: EventNumber,
}

impl<Q> Ledger<Q> {
    /// The slots of the ledger, indexed by event id.
    pub closed spec fn events(self) -> Seq<Option<StandingEvent<Q>>> {
        self.slots@
    }

    /// The approval pointer: the id of the first event not yet passed.
    pub closed spec fn pointer(self) -> int {
        self.pointer as int
    }

    /// The next game id to hand out.
    pub closed spec fn game_counter(self) -> int {
        self.next_game_id as int
    }

    /// The next player id to hand out.
    pub closed spec fn player_counter(self) -> int {
        self.next_player_id as int
    }

    /// Well-formedness: ids fit an `EventNumber`, each event sits at its own
    /// id, the pointer lies within the log and only decided events lie below it.
    pub closed spec fn wf(self) -> bool {
        &&& self.slots@.len() <= u32::MAX
        &&& forall|i: int| #[trigger] present(self.slots@, i) ==> self.slots@[i].unwrap().id == i
        &&& self.pointer <= self.slots@.len()
        &&& decided_below(self.slots@, self.pointer as int)
        &&& self.next_game_id >= 0
        &&& self.next_player_id >= 0
    }

    /// An empty ledger: no events, every counter at 0.
    pub fn new() -> (r: Self)
        ensures
            r.wf(),
            r.events().len() == 0,
            r.pointer() == 0,
            r.game_counter() == 0,
            r.player_counter() == 0,
    {
        Ledger { slots: Vec::new(), next_game_id: 0, next_player_id: 0, pointer: 0 }
    }

    /// The id the next reserved event will get.
    pub fn next_event_id(&self) -> (r: EventNumber)
        requires
            self.wf(),
        ensures
            r == self.events().len(),
    {
        self.slots.len() as EventNumber
    }

    /// The next game id to hand out.
    pub fn next_game_id(&self) -> (r: GameID)
        ensures
            r == self.game_counter(),
    {
        self.next_game_id
    }

    /// The next player id to hand out.
    pub fn next_player_id(&self) -> (r: PlayerID)
        ensures
            r == self.player_counter(),
    {
        self.next_player_id
    }

    /// The approval pointer.
    pub fn cursor(&self) -> (r: EventNumber)
        ensures
            r == self.pointer(),
    {
        self.pointer
    }

    /// Reserves `n` fresh event ids and returns the first; the ids
    /// `[first, first + n)` are then reserved for this caller alone.
    /// Fails, reserving nothing, when the id space cannot hold them.
    pub fn reserve_event_ids(&mut self, n: u32) -> (r: Result<EventNumber, LedgerError>)
        requires
            old(self).wf(),
        ensures
            final(self).wf(),
            final(self).pointer() == old(self).pointer(),
            final(self).game_counter() == old(self).game_counter(),
            final(self).player_counter() == old(self).player_counter(),
            r is Ok <==> old(self).events().len() + n <= u32::MAX,
            r is Ok ==> reserved(*old(self), *final(self), n, r.unwrap()),
            r is Err ==> r == Err::<EventNumber, LedgerError>(LedgerError::IdReservationFailed)
                && final(self).events() == old(self).events(),
    {
        let first = self.slots.len();
        if n as usize > u32::MAX as usize - first {
            return Err(LedgerError::IdReservationFailed);
        }
        let ghost before = self.slots@;
        let mut k: u32 = 0;
        while k < n
            invariant
                0 <= k <= n,
                first + n <= u32::MAX,
                before.len() == first,
                self.slots@ == before + Seq::new(k as nat, |i: int| None::<StandingEvent<Q>>),
                self.pointer == old(self).pointer,
                self.next_game_id == old(self).next_game_id,
                self.next_player_id == old(self).next_player_id,
                old(self).wf(),
                before == old(self).slots@,
            decreases n - k,
        {
            self.slots.push(None);
            k = k + 1;
            assert(self.slots@ =~= before + Seq::new(k as nat, |i: int| None::<StandingEvent<Q>>));
        }
        assert forall|i: int| #[trigger] present(self.slots@, i) implies self.slots@[i].unwrap().id == i by {
            assert(i < first);
            assert(present(before, i));
        }
        assert forall|i: int| 0 <= i < self.pointer implies #[trigger] decided(self.slots@, i) by {
            assert(decided(before, i));
        }
        Ok(first as EventNumber)
    }

    /// Reserves one event id and one game id together, for a game result.
    pub fn reserve_game(&mut self) -> (r: Result<(EventNumber, GameID), LedgerError>)
        requires
            old(self).wf(),
        ensures
            final(self).wf(),
            final(self).pointer() == old(self).pointer(),
            final(self).player_counter() == old(self).player_counter(),
            r is Ok <==> old(self).events().len() < u32::MAX && old(self).game_counter() < i64::MAX,
            r is Ok ==> r.unwrap().0 == old(self).events().len()
                && r.unwrap().1 == old(self).game_counter()
                && final(self).events() == old(self).events().push(None)
                && final(self).game_counter() == old(self).game_counter() + 1,
            r is Err ==> r == Err::<(EventNumber, GameID), LedgerError>(LedgerError::IdReservationFailed)
                && final(self).events() == old(self).events()
                && final(self).game_counter() == old(self).game_counter(),
    {
        if self.next_game_id == i64::MAX {
            return Err(LedgerError::IdReservationFailed);
        }
        match self.reserve_event_ids(1) {
            Ok(event_id) => {
                assert(self.slots@ =~= old(self).events().push(None));
                let game_id = self.next_game_id;
                self.next_game_id = game_id + 1;
                Ok((event_id, game_id))
            },
            Err(e) => Err(e),
        }
    }

    /// Reserves one event id and one player id together, for an enrollment.
    pub fn reserve_enrollment(&mut self) -> (r: Result<(EventNumber, PlayerID), LedgerError>)
        requires
            old(self).wf(),
        ensures
            final(self).wf(),
            final(self).pointer() == old(self).pointer(),
            final(self).game_counter() == old(self).game_counter(),
            r is Ok <==> old(self).events().len() < u32::MAX && old(self).player_counter() < i32::MAX,
            r is Ok ==> r.unwrap().0 == old(self).events().len()
                && r.unwrap().1 == old(self).player_counter()
                && final(self).events() == old(self).events().push(None)
                && final(self).player_counter() == old(self).player_counter() + 1,
            r is Err ==> r == Err::<(EventNumber, PlayerID), LedgerError>(LedgerError::IdReservationFailed)
                && final(self).events() == old(self).events()
                && final(self).player_counter() == old(self).player_counter(),
    {
        if self.next_player_id == i32::MAX {
            return Err(LedgerError::IdReservationFailed);
        }
        match self.reserve_event_ids(1) {
            Ok(event_id) => {
                assert(self.slots@ =~= old(self).events().push(None));
                let player_id = self.next_player_id;
                self.next_player_id = player_id + 1;
                Ok((event_id, player_id))
            },
            Err(e) => Err(e),
        }
    }

    /// Inserts a fully formed event at its id, which must have been reserved
    /// and still be free.
    pub fn append(&mut self, event: StandingEvent<Q>) -> (r: Result<(), LedgerError>)
        requires
            old(self).wf(),
        ensures
            final(self).wf(),
            final(self).pointer() == old(self).pointer(),
            final(self).game_counter() == old(self).game_counter(),
            final(self).player_counter() == old(self).player_counter(),
            (r == Err::<(), LedgerError>(LedgerError::NotReserved)) <==> event.id >= old(self).events().len(),
            (r == Err::<(), LedgerError>(LedgerError::DuplicateEventId)) <==> present(old(self).events(), event.id as int),
            r is Ok <==> event.id < old(self).events().len() && !present(old(self).events(), event.id as int),
            r is Ok ==> final(self).events() == old(self).events().update(event.id as int, Some(event)),
            r is Err ==> final(self).events() == old(self).events(),
    {
        let id = event.id as usize;
        if id >= self.slots.len() {
            return Err(LedgerError::NotReserved);
        }
        if self.slots[id].is_some() {
            return Err(LedgerError::DuplicateEventId);
        }
        let ghost before = self.slots@;
        self.slots.set(id, Some(event));
        assert forall|i: int| #[trigger] present(self.slots@, i) implies self.slots@[i].unwrap().id == i by {
            if i != id {
                assert(present(before, i));
            }
        }
        assert forall|i: int| 0 <= i < self.pointer implies #[trigger] decided(self.slots@, i) by {
            assert(decided(before, i));
        }
        Ok(())
    }

    /// Records the decision on a pending event. A decision is taken once.
    pub fn decide(&mut self, id: EventNumber, approved: bool, reviewer: Option<PlayerID>) -> (r: Result<(), LedgerError>)
        requires
            old(self).wf(),
        ensures
            final(self).wf(),
            final(self).pointer() == old(self).pointer(),
            final(self).game_counter() == old(self).game_counter(),
            final(self).player_counter() == old(self).player_counter(),
            (r == Err::<(), LedgerError>(LedgerError::NotFound)) <==> !present(old(self).events(), id as int),
            (r == Err::<(), LedgerError>(LedgerError::AlreadyDecided)) <==> decided(old(self).events(), id as int),
            r is Ok <==> pending(old(self).events(), id as int),
            r is Ok ==> {
                let e = old(self).events()[id as int].unwrap();
                final(self).events() == old(self).events().update(
                    id as int,
                    Some(StandingEvent {
                        id: e.id,
                        decision: Some(Decision { approved, reviewer }),
                        payload: e.payload,
                        when: e.when,
                    }),
                )
            },
            r is Err ==> final(self).events() == old(self).events(),
    {
        let i = id as usize;
        if i >= self.slots.len() {
            return Err(LedgerError::NotFound);
        }
        match &self.slots[i] {
            None => {
                return Err(LedgerError::NotFound);
            },
            Some(e) => {
                if e.decision.is_some() {
                    return Err(LedgerError::AlreadyDecided);
                }
            },
        }
        let ghost before = self.slots@;
        assert(present(before, i as int));
        let mut slot: Option<StandingEvent<Q>> = None;
        std::mem::swap(&mut slot, &mut self.slots[i]);
        match slot {
            Some(e) => {
                let StandingEvent { id: eid, decision: _, payload, when } = e;
                self.slots.set(
                    i,
                    Some(StandingEvent { id: eid, decision: Some(Decision { approved, reviewer }), payload, when }),
                );
            },
            None => {},
        }
        assert forall|j: int| #[trigger] present(self.slots@, j) implies self.slots@[j].unwrap().id == j by {
            if j != i {
                assert(present(before, j));
            }
        }
        assert forall|j: int| 0 <= j < self.pointer implies #[trigger] decided(self.slots@, j) by {
            assert(decided(before, j));
        }
        Ok(())
    }

    /// Computes one run of the approval pointer without moving it: starting at
    /// the pointer, events are passed in id order until `stop_before` is
    /// reached or an event is missing or pending (a pending event blocks every
    /// later one). The approved events passed take effect in the order listed;
    /// rejected ones are passed over.
    pub fn plan_advance(&self, stop_before: Option<EventNumber>) -> (r: AdvancePlan)
        requires
            self.wf(),
        ensures
            r.start == self.pointer(),
            r.end == replay_end(self.events(), r.start as int, replay_limit(self.events(), stop_before)),
            r.approved@ == approved_ids(self.events(), r.start as int, r.end as int),
            r.start <= r.end <= self.events().len(),
            decided_below(self.events(), r.end as int),
            r.end == self.events().len() || !decided(self.events(), r.end as int)
                || r.end >= replay_limit(self.events(), stop_before),
    {
        let ghost s = self.slots@;
        let ghost limit = replay_limit(s, stop_before);
        let len = self.slots.len();
        let bound: usize = match stop_before {
            Some(b) => b as usize,
            None => len,
        };
        let mut i = self.pointer as usize;
        let mut ids: Vec<EventNumber> = Vec::new();
        proof {
            lemma_replay_end(s, i as int, limit);
        }
        while i < bound && i < len
            invariant
                s == self.slots@,
                self.wf(),
                limit == bound as int,
                len == s.len(),
                self.pointer <= i <= len,
                replay_end(s, self.pointer as int, limit) == replay_end(s, i as int, limit),
                ids@ == approved_ids(s, self.pointer as int, i as int),
                decided_below(s, i as int),
            ensures
                i as int >= limit || !decided(s, i as int),
            decreases len - i,
        {
            match &self.slots[i] {
                None => {
                    assert(!decided(s, i as int));
                    break;
                },
                Some(e) => {
                    match e.decision {
                        None => {
                            assert(!decided(s, i as int));
                            break;
                        },
                        Some(d) => {
                            if d.approved {
                                ids.push(i as EventNumber);
                            }
                        },
                    }
                },
            }
            assert(decided(s, i as int));
            i = i + 1;
        }
        assert(replay_end(s, i as int, limit) == i as int);
        proof {
            lemma_replay_end(s, self.pointer as int, limit);
        }
        AdvancePlan { start: self.pointer, end: i as EventNumber, approved: ids }
    }

    /// Moves the approval pointer up to `end` and never back: the pointer
    /// becomes the larger of its old value and `end`. Every event below `end`
    /// must be decided; otherwise nothing changes.
    ///
    /// A caller that applies the effects of a plan commits past each approved
    /// event as soon as its effect is applied (and at the plan's end once all
    /// are): a run that fails part way then leaves no applied event in front
    /// of the pointer, and no effect is applied twice.
    pub fn commit_pointer(&mut self, end: EventNumber) -> (r: Result<EventNumber, LedgerError>)
        requires
            old(self).wf(),
        ensures
            final(self).wf(),
            final(self).events() == old(self).events(),
            final(self).game_counter() == old(self).game_counter(),
            final(self).player_counter() == old(self).player_counter(),
            final(self).pointer() >= old(self).pointer(),
            r is Ok <==> decided_below(old(self).events(), end as int),
            committed(*old(self), *final(self), end),
            r is Ok ==> r == Ok::<EventNumber, LedgerError>(final(self).pointer() as EventNumber),
            r is Err ==> r == Err::<EventNumber, LedgerError>(LedgerError::Undecided)
                && final(self).pointer() == old(self).pointer(),
    {
        let ghost s = self.slots@;
        let mut i = self.pointer;
        while i < end
            invariant
                s == self.slots@,
                self.wf(),
                self.pointer == old(self).pointer,
                self.pointer <= i,
                self.pointer <= end ==> i <= end,
                decided_below(s, i as int),
            decreases end - i,
        {
            if (i as usize) >= self.slots.len() {
                assert(!decided(s, i as int));
                return Err(LedgerError::Undecided);
            }
            let undecided = match &self.slots[i as usize] {
                None => true,
                Some(e) => e.decision.is_none(),
            };
            if undecided {
                assert(!decided(s, i as int));
                return Err(LedgerError::Undecided);
            }
            i = i + 1;
        }
        if end > self.pointer {
            assert(decided(s, end - 1));
            self.pointer = end;
        }
        assert(decided_below(s, end as int));
        Ok(self.pointer)
    }

    /// Removes the last event of the log, which must stand there. The game
    /// counter steps back when it is a game result, and the pointer is pulled
    /// back to the removed id if it was past it: a full reprocess is needed
    /// afterwards to undo its effect.
    pub fn pop_last(&mut self) -> (r: Result<StandingEvent<Q>, LedgerError>)
        requires
            old(self).wf(),
        ensures
            final(self).wf(),
            final(self).player_counter() == old(self).player_counter(),
            r is Ok <==> old(self).events().len() > 0 && old(self).events().last() is Some,
            r is Ok ==> {
                let last = old(self).events().len() - 1;
                &&& Some(r.unwrap()) == old(self).events().last()
                &&& final(self).events() == old(self).events().drop_last()
                &&& final(self).pointer() == if old(self).pointer() < last { old(self).pointer() } else { last }
                &&& final(self).game_counter() == if r.unwrap().payload is GameEnd && old(self).game_counter() > 0 {
                    old(self).game_counter() - 1
                } else {
                    old(self).game_counter()
                }
            },
            r is Err ==> r == Err::<StandingEvent<Q>, LedgerError>(LedgerError::NotFound)
                && final(self).events() == old(self).events()
                && final(self).pointer() == old(self).pointer()
                && final(self).game_counter() == old(self).game_counter(),
    {
        let len = self.slots.len();
        if len == 0 || self.slots[len - 1].is_none() {
            return Err(LedgerError::NotFound);
        }
        let ghost before = self.slots@;
        let popped = self.slots.pop();
        assert(self.slots@ =~= before.drop_last());
        match popped {
            Some(Some(e)) => {
                let last = (len - 1) as EventNumber;
                if self.pointer > last {
                    self.pointer = last;
                }
                let is_game = match &e.payload {
                    Payload::GameEnd(_) => true,
                    _ => false,
                };
                if is_game && self.next_game_id > 0 {
                    self.next_game_id = self.next_game_id - 1;
                }
                assert forall|i: int| #[trigger] present(self.slots@, i) implies self.slots@[i].unwrap().id == i by {
                    assert(present(before, i));
                }
                assert forall|i: int| 0 <= i < self.pointer implies #[trigger] decided(self.slots@, i) by {
                    assert(decided(before, i));
                }
                Ok(e)
            },
            _ => Err(LedgerError::NotFound),
        }
    }

    /// Moves the approval pointer back to 0 for a full reprocess; the caller
    /// clears every player's standing to the zero state with it.
    pub fn reset_pointer(&mut self)
        requires
            old(self).wf(),
        ensures
            final(self).wf(),
            final(self).events() == old(self).events(),
            final(self).game_counter() == old(self).game_counter(),
            final(self).player_counter() == old(self).player_counter(),
            final(self).pointer() == 0,
    {
        self.pointer = 0;
    }

    /// The event with id `id`, if one stands there.
    pub fn get(&self, id: EventNumber) -> (r: Option<&StandingEvent<Q>>)
        ensures
            r is Some <==> present(self.events(), id as int),
            r is Some ==> Some(*r.unwrap()) == self.events()[id as int],
    {
        if (id as usize) < self.slots.len() {
            match &self.slots[id as usize] {
                Some(e) => Some(e),
                None => None,
            }
        } else {
            None
        }
    }
}

} // verus!
