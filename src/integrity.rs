//! Integrity check of the whole event log: id gaps, game-id gaps, and whether
//! the stored counters and approval pointer match what the log itself gives.

use vstd::prelude::*;

use crate::history::ids_where;
use crate::ledger::{present, Ledger};
use crate::model::{EventNumber, GameID, StandingEvent};

verus! {

/// One stored event as the checker reads it, in ascending id order.
#[derive(Clone, Copy, Debug, PartialEq, Eq, Structural)]
pub enum LogRecord {
    /// A readable event: its id, whether it is decided, and its game id when
    /// it is a game result.
    Event { id: EventNumber, decided: bool, game_id: Option<GameID> },
    /// A stored record that could not be read as an event.
    Unreadable,
}

/// The stored counters the log is checked against.
#[derive(Clone, Copy, Debug, PartialEq, Eq, Structural)]
pub struct Checkpoint {
    pub next_event_id: EventNumber,
    pub next_game_id: GameID,
    pub pointer: EventNumber,
}

/// A discrepancy found by the checker.
#[derive(Clone, Copy, Debug, PartialEq, Eq, Structural)]
#[allow(inconsistent_fields)]
pub enum Finding {
    /// The record at this position of the scan could not be read.
    Unreadable { position: u64 },
    /// No event stands at this id, though a later one does.
    EventMissing { id: u64 },
    /// No game has this id, though a later one does.
    GameMissing { id: i128 },
    /// The stored next event id differs from the first gap in the log.
    EventCounter { stored: EventNumber, actual: EventNumber },
    /// The stored pointer differs from the first missing or pending event.
    Pointer { stored: EventNumber, actual: EventNumber },
    /// The stored next game id differs from the first gap in the game ids.
    GameCounter { stored: GameID, actual: GameID },
}

/// What the checker reports: every finding, in scan order then counters; the
/// values the log gives for the counters; and, when repair was asked for and
/// something was found, the checkpoint to store instead.
#[derive(Debug)]
pub struct IntegrityReport {
    pub findings: Vec<Finding>,
    pub next_event_id: EventNumber,
    pub next_game_id: GameID,
    pub pointer: EventNumber,
    pub repaired: Option<Checkpoint>,
}

/// Whether the record at position `k` is a readable event with id `k`.
pub open spec fn in_place(recs: Seq<LogRecord>, k: int) -> bool {
    0 <= k < recs.len() && match recs[k] {
        LogRecord::Event { id, .. } => id == k,
        LogRecord::Unreadable => false,
    }
}

/// Whether the record at position `k` is a decided event with id `k`.
pub open spec fn passed(recs: Seq<LogRecord>, k: int) -> bool {
    in_place(recs, k) && match recs[k] {
        LogRecord::Event { decided, .. } => decided,
        LogRecord::Unreadable => false,
    }
}

/// The game ids of the readable game results among the first `k` records, in order.
pub open spec fn game_ids(recs: Seq<LogRecord>, k: int) -> Seq<GameID>
    decreases k,
{
    if k <= 0 {
        Seq::empty()
    } else {
        match recs[k - 1] {
            LogRecord::Event { game_id: Some(g), .. } => game_ids(recs, k - 1).push(g),
            _ => game_ids(recs, k - 1),
        }
    }
}

/// The id expected at position `k`: one past the id of the last readable
/// event before it, or 0.
pub open spec fn expected_event(recs: Seq<LogRecord>, k: int) -> int
    decreases k,
{
    if k <= 0 {
        0
    } else {
        match recs[k - 1] {
            LogRecord::Event { id, .. } => id + 1,
            LogRecord::Unreadable => expected_event(recs, k - 1),
        }
    }
}

/// The game id expected next after the first `k` records: one past the last
/// game id seen, or 0.
pub open spec fn expected_game(recs: Seq<LogRecord>, k: int) -> int {
    let g = game_ids(recs, k);
    if g.len() == 0 {
        0
    } else {
        g.last() + 1
    }
}

/// The findings the record at position `k` gives.
pub open spec fn findings_at(recs: Seq<LogRecord>, k: int) -> Seq<Finding> {
    match recs[k] {
        LogRecord::Unreadable => seq![Finding::Unreadable { position: k as u64 }],
        LogRecord::Event { id, game_id, .. } => {
            let ev: Seq<Finding> = if id != expected_event(recs, k) {
                seq![Finding::EventMissing { id: expected_event(recs, k) as u64 }]
            } else {
                Seq::empty()
            };
            let gm: Seq<Finding> = match game_id {
                Some(g) => if g != expected_game(recs, k) {
                    seq![Finding::GameMissing { id: expected_game(recs, k) as i128 }]
                } else {
                    Seq::empty()
                },
                None => Seq::empty(),
            };
            ev + gm
        },
    }
}

/// The findings of the first `k` records, in scan order.
pub open spec fn scan_findings(recs: Seq<LogRecord>, k: int) -> Seq<Finding>
    decreases k,
{
    if k <= 0 {
        Seq::empty()
    } else {
        scan_findings(recs, k - 1) + findings_at(recs, k - 1)
    }
}

/// `n` is the first id at which the log has a gap: the records before it are
/// exactly the events `0..n` in order.
pub open spec fn is_event_gap(recs: Seq<LogRecord>, n: int) -> bool {
    &&& 0 <= n <= recs.len()
    &&& forall|j: int| 0 <= j < n ==> #[trigger] in_place(recs, j)
    &&& n == recs.len() || !in_place(recs, n)
}

/// `n` is where a replay from 0 stops: the first event that is missing or pending.
pub open spec fn is_replay_stop(recs: Seq<LogRecord>, n: int) -> bool {
    &&& 0 <= n <= recs.len()
    &&& forall|j: int| 0 <= j < n ==> #[trigger] passed(recs, j)
    &&& n == recs.len() || !passed(recs, n)
}

/// `n` is the first place at which the game ids, in log order, leave the run `0, 1, 2, ...`.
pub open spec fn is_game_gap(recs: Seq<LogRecord>, n: int) -> bool {
    let g = game_ids(recs, recs.len() as int);
    &&& 0 <= n <= g.len()
    &&& forall|j: int| 0 <= j < n ==> #[trigger] g[j] == j
    &&& n == g.len() || g[n] != n
}

/// The findings on the stored counters, given the values the log gives.
pub open spec fn counter_findings(stored: Checkpoint, next_event_id: EventNumber, pointer: EventNumber, next_game_id: GameID) -> Seq<Finding> {
    let a: Seq<Finding> = if stored.next_event_id != next_event_id {
        seq![Finding::EventCounter { stored: stored.next_event_id, actual: next_event_id }]
    } else {
        Seq::empty()
    };
    let b: Seq<Finding> = if stored.pointer != pointer {
        seq![Finding::Pointer { stored: stored.pointer, actual: pointer }]
    } else {
        Seq::empty()
    };
    let c: Seq<Finding> = if stored.next_game_id != next_game_id {
        seq![Finding::GameCounter { stored: stored.next_game_id, actual: next_game_id }]
    } else {
        Seq::empty()
    };
    a + b + c
}

/// The findings of the scan itself: unreadable records, and id and game-id gaps.
pub fn scan_log(recs: &Vec<LogRecord>) -> (r: Vec<Finding>)
    requires
        recs@.len() <= u32::MAX,
    ensures
        r@ == scan_findings(recs@, recs@.len() as int),
{
    let mut out: Vec<Finding> = Vec::new();
    let mut k: usize = 0;
    let mut expected_ev: u64 = 0;
    let mut expected_gm: i128 = 0;
    while k < recs.len()
        invariant
            k <= recs@.len() <= u32::MAX,
            out@ == scan_findings(recs@, k as int),
            expected_ev as int == expected_event(recs@, k as int),
            expected_gm as int == expected_game(recs@, k as int),
            0 <= expected_ev <= u32::MAX + 1,
            i64::MIN + 1 <= expected_gm <= i64::MAX + 1,
        decreases recs@.len() - k,
    {
        let ghost before = out@;
        match recs[k] {
            LogRecord::Unreadable => {
                out.push(Finding::Unreadable { position: k as u64 });
            },
            LogRecord::Event { id, game_id, .. } => {
                if id as u64 != expected_ev {
                    out.push(Finding::EventMissing { id: expected_ev });
                }
                let ghost mid = out@;
                expected_ev = id as u64 + 1;
                match game_id {
                    Some(g) => {
                        if g as i128 != expected_gm {
                            out.push(Finding::GameMissing { id: expected_gm });
                        }
                        assert(game_ids(recs@, k + 1) == game_ids(recs@, k as int).push(g));
                        expected_gm = g as i128 + 1;
                    },
                    None => {
                        assert(game_ids(recs@, k + 1) == game_ids(recs@, k as int));
                    },
                }
                assert(out@ =~= before + findings_at(recs@, k as int));
            },
        }
        assert(out@ =~= scan_findings(recs@, k + 1));
        k = k + 1;
    }
    out
}

/// Checks the whole log, read in ascending id order, against the stored
/// checkpoint. A gap counts as an event not yet decided. With `repair`, and
/// only when something was found, the report carries the checkpoint to store:
/// the counters clamped down to what the log gives, and the pointer at the
/// first missing or pending event. Player standings are not touched: a full
/// reprocess is what repairs them.
pub fn check_integrity(recs: &Vec<LogRecord>, stored: Checkpoint, repair: bool) -> (r: IntegrityReport)
    requires
        recs@.len() <= u32::MAX,
    ensures
        is_event_gap(recs@, r.next_event_id as int),
        is_replay_stop(recs@, r.pointer as int),
        is_game_gap(recs@, r.next_game_id as int),
        r.findings@ == scan_findings(recs@, recs@.len() as int)
            + counter_findings(stored, r.next_event_id, r.pointer, r.next_game_id),
        r.repaired == if repair && r.findings@.len() > 0 {
            Some(Checkpoint {
                next_event_id: if stored.next_event_id < r.next_event_id { stored.next_event_id } else { r.next_event_id },
                next_game_id: if stored.next_game_id < r.next_game_id { stored.next_game_id } else { r.next_game_id },
                pointer: r.pointer,
            })
        } else {
            None
        },
{
    let mut findings = scan_log(recs);
    let next_event_id = first_event_gap(recs);
    let pointer = first_unpassed(recs);
    let next_game_id = first_game_gap(recs);
    let ghost scanned = findings@;
    if stored.next_event_id != next_event_id {
        findings.push(Finding::EventCounter { stored: stored.next_event_id, actual: next_event_id });
    }
    if stored.pointer != pointer {
        findings.push(Finding::Pointer { stored: stored.pointer, actual: pointer });
    }
    if stored.next_game_id != next_game_id {
        findings.push(Finding::GameCounter { stored: stored.next_game_id, actual: next_game_id });
    }
    assert(findings@ =~= scanned + counter_findings(stored, next_event_id, pointer, next_game_id));
    let repaired = if repair && findings.len() > 0 {
        Some(Checkpoint {
            next_event_id: if stored.next_event_id < next_event_id { stored.next_event_id } else { next_event_id },
            next_game_id: if stored.next_game_id < next_game_id { stored.next_game_id } else { next_game_id },
            pointer,
        })
    } else {
        None
    };
    IntegrityReport { findings, next_event_id, next_game_id, pointer, repaired }
}

/// The first id at which the log has a gap: the records before it are
/// exactly the events `0..` in order.
pub fn first_event_gap(recs: &Vec<LogRecord>) -> (r: EventNumber)
    requires
        recs@.len() <= u32::MAX,
    ensures
        is_event_gap(recs@, r as int),
{
    let mut k: usize = 0;
    while k < recs.len()
        invariant
            k <= recs@.len() <= u32::MAX,
            forall|j: int| 0 <= j < k ==> #[trigger] in_place(recs@, j),
        ensures
            k <= recs@.len(),
            forall|j: int| 0 <= j < k ==> #[trigger] in_place(recs@, j),
            k == recs@.len() || !in_place(recs@, k as int),
        decreases recs@.len() - k,
    {
        let here = match recs[k] {
            LogRecord::Event { id, .. } => id as usize == k,
            LogRecord::Unreadable => false,
        };
        if !here {
            break;
        }
        k = k + 1;
    }
    k as EventNumber
}

/// The first id that a replay from 0 cannot pass: the first event that is
/// missing or pending.
pub fn first_unpassed(recs: &Vec<LogRecord>) -> (r: EventNumber)
    requires
        recs@.len() <= u32::MAX,
    ensures
        is_replay_stop(recs@, r as int),
{
    let mut k: usize = 0;
    while k < recs.len()
        invariant
            k <= recs@.len() <= u32::MAX,
            forall|j: int| 0 <= j < k ==> #[trigger] passed(recs@, j),
        ensures
            k <= recs@.len(),
            forall|j: int| 0 <= j < k ==> #[trigger] passed(recs@, j),
            k == recs@.len() || !passed(recs@, k as int),
        decreases recs@.len() - k,
    {
        let here = match recs[k] {
            LogRecord::Event { id, decided, .. } => id as usize == k && decided,
            LogRecord::Unreadable => false,
        };
        if !here {
            break;
        }
        k = k + 1;
    }
    k as EventNumber
}

/// The first game id at which the game ids, in log order, leave the run `0, 1, 2, ...`.
pub fn first_game_gap(recs: &Vec<LogRecord>) -> (r: GameID)
    requires
        recs@.len() <= u32::MAX,
    ensures
        is_game_gap(recs@, r as int),
{
    let ghost all = game_ids(recs@, recs@.len() as int);
    let mut k: usize = 0;
    let mut seen: i64 = 0;
    let mut broken = false;
    proof {
        lemma_game_ids_prefix(recs@, recs@.len() as int);
    }
    while k < recs.len()
        invariant
            k <= recs@.len() <= u32::MAX,
            all == game_ids(recs@, recs@.len() as int),
            forall|a: int, b: int| #![trigger game_ids(recs@, a), game_ids(recs@, b)] 0 <= a <= b <= recs@.len() ==>
                game_ids(recs@, a).len() <= game_ids(recs@, b).len()
                && game_ids(recs@, a) == game_ids(recs@, b).subrange(0, game_ids(recs@, a).len() as int),
            0 <= seen <= game_ids(recs@, k as int).len(),
            game_ids(recs@, k as int).len() <= k,
            forall|j: int| 0 <= j < seen ==> #[trigger] all[j] == j,
            !broken ==> seen == game_ids(recs@, k as int).len(),
            broken ==> seen < all.len() && all[seen as int] != seen,
        decreases recs@.len() - k,
    {
        if !broken {
            match recs[k] {
                LogRecord::Event { game_id: Some(g), .. } => {
                    assert(game_ids(recs@, k + 1) == game_ids(recs@, k as int).push(g));
                    assert(all[seen as int] == g);
                    if g == seen {
                        seen = seen + 1;
                    } else {
                        broken = true;
                    }
                },
                _ => {
                    assert(game_ids(recs@, k + 1) == game_ids(recs@, k as int));
                },
            }
        }
        k = k + 1;
    }
    seen
}

/// Each prefix's game ids are a prefix of a longer prefix's.
pub proof fn lemma_game_ids_prefix(recs: Seq<LogRecord>, n: int)
    requires
        0 <= n <= recs.len(),
    ensures
        forall|a: int, b: int| #![trigger game_ids(recs, a), game_ids(recs, b)] 0 <= a <= b <= n ==>
            game_ids(recs, a).len() <= game_ids(recs, b).len()
            && game_ids(recs, a) == game_ids(recs, b).subrange(0, game_ids(recs, a).len() as int),
    decreases n,
{
    if n > 0 {
        lemma_game_ids_prefix(recs, n - 1);
        assert forall|a: int, b: int| #![trigger game_ids(recs, a), game_ids(recs, b)] 0 <= a <= b <= n implies
            game_ids(recs, a).len() <= game_ids(recs, b).len()
            && game_ids(recs, a) == game_ids(recs, b).subrange(0, game_ids(recs, a).len() as int) by {
            if b == n && a < n {
                let ga = game_ids(recs, a);
                let gp = game_ids(recs, n - 1);
                let gn = game_ids(recs, n);
                assert(ga == gp.subrange(0, ga.len() as int));
                assert(gn.subrange(0, gp.len() as int) =~= gp);
                assert(ga =~= gn.subrange(0, ga.len() as int));
            } else if a == b {
                assert(game_ids(recs, a) =~= game_ids(recs, b).subrange(0, game_ids(recs, a).len() as int));
            }
        }
    }
}

/// How the checker reads a stored event.
pub open spec fn record_of<Q>(e: StandingEvent<Q>) -> LogRecord {
    LogRecord::Event { id: e.id, decided: e.decision is Some, game_id: e.payload.game_id_of() }
}

impl<Q> Ledger<Q> {
    /// The stored events as the checker reads them, in ascending id order.
    pub fn log_records(&self) -> (r: Vec<LogRecord>)
        requires
            self.wf(),
        ensures
            r@ == ids_where(self.events().len() as int, |i: int| present(self.events(), i)).map_values(
                |i: EventNumber| record_of(self.events()[i as int].unwrap()),
            ),
    {
        let ghost pred = |i: int| present(self.events(), i);
        let ghost f = |i: EventNumber| record_of(self.events()[i as int].unwrap());
        let n = self.next_event_id();
        let mut out: Vec<LogRecord> = Vec::new();
        let mut i: EventNumber = 0;
        while i < n
            invariant
                self.wf(),
                n == self.events().len(),
                i <= n,
                pred == (|i: int| present(self.events(), i)),
                f == (|i: EventNumber| record_of(self.events()[i as int].unwrap())),
                out@ == ids_where(i as int, pred).map_values(f),
            decreases n - i,
        {
            match self.get(i) {
                Some(e) => {
                    out.push(LogRecord::Event { id: e.id, decided: e.decision.is_some(), game_id: e.payload.game_id() });
                    assert(out@ =~= ids_where(i + 1, pred).map_values(f));
                },
                None => {
                    assert(ids_where(i + 1, pred) == ids_where(i as int, pred));
                },
            }
            i = i + 1;
        }
        out
    }
}

} // verus!
