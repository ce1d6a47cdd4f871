//! Read-only queries over the ledger: pending games, recent events, and a
//! player's history.

use vstd::prelude::*;

use crate::ledger::{pending, present, Ledger};
use crate::model::{EventNumber, GameID, Payload, PlayerID, StandingEvent};

verus! {

/// The ids below `to` that satisfy `pred`, ascending.
pub open spec fn ids_where(to: int, pred: spec_fn(int) -> bool) -> Seq<EventNumber>
    decreases to,
{
    if to <= 0 {
        Seq::empty()
    } else if pred(to - 1) {
        ids_where(to - 1, pred).push((to - 1) as EventNumber)
    } else {
        ids_where(to - 1, pred)
    }
}

/// The first `limit` entries of `v` (all of them when there are fewer).
pub open spec fn oldest_first(v: Seq<EventNumber>, limit: usize) -> Seq<EventNumber> {
    if v.len() <= limit {
        v
    } else {
        v.take(limit as int)
    }
}

/// The last `limit` entries of `v` (all of them when there are fewer), newest first.
pub open spec fn newest_first(v: Seq<EventNumber>, limit: usize) -> Seq<EventNumber> {
    let n = if v.len() <= limit { v.len() as int } else { limit as int };
    Seq::new(n as nat, |k: int| v[v.len() - 1 - k])
}

/// Whether slot `i` holds a game result still waiting for review.
pub open spec fn is_pending_game<Q>(s: Seq<Option<StandingEvent<Q>>>, i: int) -> bool {
    pending(s, i) && s[i].unwrap().payload is GameEnd
}

/// Whether slot `i` holds a game result with game id at most `before`.
pub open spec fn is_game_up_to<Q>(s: Seq<Option<StandingEvent<Q>>>, i: int, before: Option<GameID>) -> bool {
    present(s, i) && match s[i].unwrap().payload {
        Payload::GameEnd(g) => match before {
            Some(b) => g.game_id <= b,
            None => true,
        },
        _ => false,
    }
}

/// Whether the payload names `player` among those it affects: a game's
/// participants, or the victims of a penalty, a decay or an enrollment.
pub open spec fn names_player<Q>(p: Payload<Q>, player: PlayerID) -> bool {
    match p {
        Payload::GameEnd(g) => g.ranking@.contains(player),
        Payload::Penalty { victims, .. } => victims@.contains(player),
        Payload::InactivityDecay { victims, .. } => victims@.contains(player),
        Payload::JoinLeague { victims, .. } => victims@.contains(player),
        _ => false,
    }
}

/// Whether slot `i` holds an event that names `player`.
pub open spec fn involves<Q>(s: Seq<Option<StandingEvent<Q>>>, i: int, player: PlayerID) -> bool {
    present(s, i) && names_player(s[i].unwrap().payload, player)
}

/// Whether slot `i` holds a game result that `player` won.
pub open spec fn won<Q>(s: Seq<Option<StandingEvent<Q>>>, i: int, player: PlayerID) -> bool {
    present(s, i) && match s[i].unwrap().payload {
        Payload::GameEnd(g) => g.ranking@.len() > 0 && g.ranking@[0] == player,
        _ => false,
    }
}

/// Whether slot `i` holds a game result that `player` took part in and did not win.
pub open spec fn lost<Q>(s: Seq<Option<StandingEvent<Q>>>, i: int, player: PlayerID) -> bool {
    present(s, i) && match s[i].unwrap().payload {
        Payload::GameEnd(g) => g.ranking@.contains(player) && !(g.ranking@.len() > 0 && g.ranking@[0] == player),
        _ => false,
    }
}

/// How many ids below `to` satisfy `pred`.
pub open spec fn count_where(to: int, pred: spec_fn(int) -> bool) -> int {
    ids_where(to, pred).len() as int
}

/// Whether `v` holds `x`.
fn contains_id(v: &Vec<PlayerID>, x: PlayerID) -> (r: bool)
    ensures
        r == v@.contains(x),
{
    let mut i: usize = 0;
    while i < v.len()
        invariant
            i <= v@.len(),
            forall|j: int| 0 <= j < i ==> v@[j] != x,
        decreases v@.len() - i,
    {
        if v[i] == x {
            assert(v@[i as int] == x);
            return true;
        }
        i = i + 1;
    }
    false
}

/// The first `limit` entries of `v`.
fn take_oldest(v: Vec<EventNumber>, limit: usize) -> (r: Vec<EventNumber>)
    ensures
        r@ == oldest_first(v@, limit),
{
    if v.len() <= limit {
        return v;
    }
    let mut out: Vec<EventNumber> = Vec::new();
    let mut k: usize = 0;
    while k < limit
        invariant
            limit < v@.len(),
            k <= limit,
            out@ == v@.take(k as int),
        decreases limit - k,
    {
        out.push(v[k]);
        k = k + 1;
        assert(out@ =~= v@.take(k as int));
    }
    out
}

/// The last `limit` entries of `v`, newest first.
fn take_newest(v: &Vec<EventNumber>, limit: usize) -> (r: Vec<EventNumber>)
    ensures
        r@ == newest_first(v@, limit),
{
    let n = if v.len() <= limit { v.len() } else { limit };
    let mut out: Vec<EventNumber> = Vec::new();
    let mut k: usize = 0;
    while k < n
        invariant
            n <= v@.len(),
            n == if v@.len() <= limit { v@.len() as int } else { limit as int },
            k <= n,
            out@ == Seq::new(k as nat, |j: int| v@[v@.len() - 1 - j]),
        decreases n - k,
    {
        out.push(v[v.len() - 1 - k]);
        k = k + 1;
        assert(out@ =~= Seq::new(k as nat, |j: int| v@[v@.len() - 1 - j]));
    }
    out
}

impl<Q> Ledger<Q> {
    /// The ids of the events standing at `from` or after, ascending: the
    /// order in which the approval pointer and the integrity check read them.
    pub fn scan_from(&self, from: EventNumber) -> (r: Vec<EventNumber>)
        requires
            self.wf(),
        ensures
            r@ == ids_where(self.events().len() as int, |i: int| present(self.events(), i) && i >= from),
    {
        let ghost pred = |i: int| present(self.events(), i) && i >= from;
        let n = self.next_event_id();
        let mut all: Vec<EventNumber> = Vec::new();
        let mut i: EventNumber = 0;
        while i < n
            invariant
                self.wf(),
                n == self.events().len(),
                i <= n,
                pred == (|i: int| present(self.events(), i) && i >= from),
                all@ == ids_where(i as int, pred),
            decreases n - i,
        {
            let hit = i >= from && self.get(i).is_some();
            if hit {
                all.push(i);
            }
            assert(pred(i as int) == hit);
            i = i + 1;
        }
        all
    }

    /// The ids of the game results waiting for review, oldest first, at most `limit` of them.
    pub fn unreviewed_games(&self, limit: usize) -> (r: Vec<EventNumber>)
        requires
            self.wf(),
        ensures
            r@ == oldest_first(ids_where(self.events().len() as int, |i: int| is_pending_game(self.events(), i)), limit),
    {
        let ghost pred = |i: int| is_pending_game(self.events(), i);
        let n = self.next_event_id();
        let mut all: Vec<EventNumber> = Vec::new();
        let mut i: EventNumber = 0;
        while i < n
            invariant
                self.wf(),
                n == self.events().len(),
                i <= n,
                pred == (|i: int| is_pending_game(self.events(), i)),
                all@ == ids_where(i as int, pred),
            decreases n - i,
        {
            let hit = match self.get(i) {
                Some(e) => e.decision.is_none() && match &e.payload {
                    Payload::GameEnd(_) => true,
                    _ => false,
                },
                None => false,
            };
            if hit {
                all.push(i);
            }
            assert(pred(i as int) == hit);
            i = i + 1;
        }
        take_oldest(all, limit)
    }

    /// The events with id at most `before` (every event when `None`),
    /// newest first, at most `limit` of them.
    pub fn event_log(&self, before: Option<EventNumber>, limit: usize) -> (r: Vec<EventNumber>)
        requires
            self.wf(),
        ensures
            r@ == newest_first(
                ids_where(self.events().len() as int, |i: int| present(self.events(), i) && match before {
                    Some(b) => i <= b,
                    None => true,
                }),
                limit,
            ),
    {
        let ghost pred = |i: int| present(self.events(), i) && match before {
            Some(b) => i <= b,
            None => true,
        };
        let n = self.next_event_id();
        let mut all: Vec<EventNumber> = Vec::new();
        let mut i: EventNumber = 0;
        while i < n
            invariant
                self.wf(),
                n == self.events().len(),
                i <= n,
                pred == (|i: int| present(self.events(), i) && match before {
                    Some(b) => i <= b,
                    None => true,
                }),
                all@ == ids_where(i as int, pred),
            decreases n - i,
        {
            let in_range = match before {
                Some(b) => i <= b,
                None => true,
            };
            let hit = in_range && self.get(i).is_some();
            if hit {
                all.push(i);
            }
            assert(pred(i as int) == hit);
            i = i + 1;
        }
        take_newest(&all, limit)
    }

    /// The game results with game id at most `before` (every game when
    /// `None`), newest first, at most `limit` of them.
    pub fn game_log(&self, before: Option<GameID>, limit: usize) -> (r: Vec<EventNumber>)
        requires
            self.wf(),
        ensures
            r@ == newest_first(ids_where(self.events().len() as int, |i: int| is_game_up_to(self.events(), i, before)), limit),
    {
        let ghost pred = |i: int| is_game_up_to(self.events(), i, before);
        let n = self.next_event_id();
        let mut all: Vec<EventNumber> = Vec::new();
        let mut i: EventNumber = 0;
        while i < n
            invariant
                self.wf(),
                n == self.events().len(),
                i <= n,
                pred == (|i: int| is_game_up_to(self.events(), i, before)),
                all@ == ids_where(i as int, pred),
            decreases n - i,
        {
            let hit = match self.get(i) {
                Some(e) => match &e.payload {
                    Payload::GameEnd(g) => match before {
                        Some(b) => g.game_id <= b,
                        None => true,
                    },
                    _ => false,
                },
                None => false,
            };
            if hit {
                all.push(i);
            }
            assert(pred(i as int) == hit);
            i = i + 1;
        }
        take_newest(&all, limit)
    }

    /// The events that name `player`, newest first, at most `limit` of them.
    pub fn player_events(&self, player: PlayerID, limit: usize) -> (r: Vec<EventNumber>)
        requires
            self.wf(),
        ensures
            r@ == newest_first(ids_where(self.events().len() as int, |i: int| involves(self.events(), i, player)), limit),
    {
        let ghost pred = |i: int| involves(self.events(), i, player);
        let n = self.next_event_id();
        let mut all: Vec<EventNumber> = Vec::new();
        let mut i: EventNumber = 0;
        while i < n
            invariant
                self.wf(),
                n == self.events().len(),
                i <= n,
                pred == (|i: int| involves(self.events(), i, player)),
                all@ == ids_where(i as int, pred),
            decreases n - i,
        {
            let hit = match self.get(i) {
                Some(e) => match &e.payload {
                    Payload::GameEnd(g) => contains_id(&g.ranking, player),
                    Payload::Penalty { victims, .. } => contains_id(victims, player),
                    Payload::InactivityDecay { victims, .. } => contains_id(victims, player),
                    Payload::JoinLeague { victims, .. } => contains_id(victims, player),
                    _ => false,
                },
                None => false,
            };
            if hit {
                all.push(i);
            }
            assert(pred(i as int) == hit);
            i = i + 1;
        }
        take_newest(&all, limit)
    }

    /// A player's record over every game result in the log that names them,
    /// reviewed or not: games won (placed first) and games not won.
    pub fn win_loss(&self, player: PlayerID) -> (r: (u64, u64))
        requires
            self.wf(),
        ensures
            r.0 == count_where(self.events().len() as int, |i: int| won(self.events(), i, player)),
            r.1 == count_where(self.events().len() as int, |i: int| lost(self.events(), i, player)),
    {
        let ghost wp = |i: int| won(self.events(), i, player);
        let ghost lp = |i: int| lost(self.events(), i, player);
        let n = self.next_event_id();
        let mut wins: u64 = 0;
        let mut losses: u64 = 0;
        let mut i: EventNumber = 0;
        while i < n
            invariant
                self.wf(),
                n == self.events().len(),
                i <= n,
                wp == (|i: int| won(self.events(), i, player)),
                lp == (|i: int| lost(self.events(), i, player)),
                wins == ids_where(i as int, wp).len(),
                losses == ids_where(i as int, lp).len(),
                wins + losses <= i,
            decreases n - i,
        {
            match self.get(i) {
                Some(e) => match &e.payload {
                    Payload::GameEnd(g) => {
                        let first = g.ranking.len() > 0 && g.ranking[0] == player;
                        if first {
                            wins = wins + 1;
                        } else if contains_id(&g.ranking, player) {
                            losses = losses + 1;
                        }
                    },
                    _ => {},
                },
                None => {},
            }
            i = i + 1;
        }
        (wins, losses)
    }
}

} // verus!

verus! {

/// One line of a player's recent history: an event, or a run of inactivity
/// decays shown as one line with its length.
#[derive(Clone, Copy, Debug, PartialEq, Eq, Structural)]
pub enum TimelineEntry {
    Decays(u64),
    Event(EventNumber),
}

/// Whether slot `i` holds an inactivity decay.
pub open spec fn is_decay<Q>(s: Seq<Option<StandingEvent<Q>>>, i: int) -> bool {
    present(s, i) && s[i].unwrap().payload is InactivityDecay
}

/// The line a pending run of `count` decays gives, if any.
pub open spec fn decay_line(count: int) -> Seq<TimelineEntry> {
    if count == 0 {
        Seq::empty()
    } else {
        seq![TimelineEntry::Decays(count as u64)]
    }
}

/// The lines the first `k` of `ids` give, with the length of the run of
/// decays still open after them. A run is shown when an event follows it.
pub open spec fn timeline_upto<Q>(s: Seq<Option<StandingEvent<Q>>>, ids: Seq<EventNumber>, k: int) -> (Seq<TimelineEntry>, int)
    decreases k,
{
    if k <= 0 {
        (Seq::empty(), 0)
    } else {
        let (lines, run) = timeline_upto(s, ids, k - 1);
        if is_decay(s, ids[k - 1] as int) {
            (lines, run + 1)
        } else {
            (lines + decay_line(run) + seq![TimelineEntry::Event(ids[k - 1])], 0)
        }
    }
}

proof fn lemma_timeline_run<Q>(s: Seq<Option<StandingEvent<Q>>>, ids: Seq<EventNumber>, k: int)
    requires
        0 <= k <= ids.len(),
    ensures
        0 <= timeline_upto(s, ids, k).1 <= k,
    decreases k,
{
    if k > 0 {
        lemma_timeline_run(s, ids, k - 1);
    }
}

impl<Q> Ledger<Q> {
    /// The lines of a history given by `ids` (newest first): each event on
    /// its own line, except that a run of inactivity decays becomes one line
    /// with its length, shown before the event that follows it.
    pub fn timeline(&self, ids: &Vec<EventNumber>) -> (r: Vec<TimelineEntry>)
        requires
            self.wf(),
        ensures
            r@ == timeline_upto(self.events(), ids@, ids@.len() as int).0,
    {
        let mut out: Vec<TimelineEntry> = Vec::new();
        let mut run: u64 = 0;
        let mut k: usize = 0;
        while k < ids.len()
            invariant
                self.wf(),
                k <= ids@.len(),
                (out@, run as int) == timeline_upto(self.events(), ids@, k as int),
            decreases ids@.len() - k,
        {
            proof {
                lemma_timeline_run(self.events(), ids@, k as int);
            }
            let id = ids[k];
            let decay = match self.get(id) {
                Some(e) => match &e.payload {
                    Payload::InactivityDecay { .. } => true,
                    _ => false,
                },
                None => false,
            };
            if decay {
                run = run + 1;
            } else {
                let ghost before = out@;
                if run > 0 {
                    out.push(TimelineEntry::Decays(run));
                }
                out.push(TimelineEntry::Event(id));
                assert(out@ =~= before + decay_line(run as int) + seq![TimelineEntry::Event(id)]);
                run = 0;
            }
            k = k + 1;
        }
        out
    }
}

} // verus!
