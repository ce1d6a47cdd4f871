use ewar_bot::ledger::{Ledger, LedgerError};
use ewar_bot::model::{Decision, Game, Payload, StandingEvent};
use ewar_bot::projector::{Effect, ProjectionError};

fn decay(id: u32, decision: Option<Decision>) -> StandingEvent<f64> {
    StandingEvent { id, decision, payload: Payload::InactivityDecay { victims: vec![1], delta_deviation: 0.1 }, when: 0 }
}

fn approved() -> Option<Decision> {
    Some(Decision { approved: true, reviewer: Some(7) })
}

/// Appends `n` events, each with the decision `decide(i)`.
fn ledger_with(decisions: &[Option<Decision>]) -> Ledger<f64> {
    let mut l = Ledger::new();
    for (i, d) in decisions.iter().enumerate() {
        let id = l.reserve_event_ids(1).unwrap();
        assert_eq!(id as usize, i);
        l.append(decay(id, *d)).unwrap();
    }
    l
}

#[test]
fn pending_event_blocks_later_approved_ones() {
    // events 0..=5 approved, 6 pending, 7 approved
    let mut ds = vec![approved(); 6];
    ds.push(None);
    ds.push(approved());
    let mut l = ledger_with(&ds);
    let plan = l.plan_advance(None);
    assert_eq!(plan.start, 0);
    assert_eq!(plan.end, 6);
    assert_eq!(plan.approved, vec![0, 1, 2, 3, 4, 5]);
    assert_eq!(l.commit_pointer(plan.end), Ok(6));
    assert_eq!(l.cursor(), 6);
    // nothing moves while event 6 is pending
    let again = l.plan_advance(None);
    assert_eq!((again.start, again.end), (6, 6));
    assert!(again.approved.is_empty());
}

#[test]
fn advance_from_five_stops_at_six() {
    let mut ds = vec![approved(); 6];
    ds.push(None);
    ds.push(approved());
    let mut l = ledger_with(&ds);
    let first = l.plan_advance(Some(5));
    assert_eq!(first.end, 5);
    l.commit_pointer(first.end).unwrap();
    assert_eq!(l.cursor(), 5);
    let plan = l.plan_advance(None);
    assert_eq!(plan.approved, vec![5]);
    assert_eq!(plan.end, 6);
    l.commit_pointer(plan.end).unwrap();
    assert_eq!(l.cursor(), 6);
}

#[test]
fn deciding_the_blocker_releases_the_rest() {
    let mut l = ledger_with(&[approved(), None, approved()]);
    assert_eq!(l.plan_advance(None).end, 1);
    l.decide(1, false, Some(3)).unwrap();
    let plan = l.plan_advance(None);
    assert_eq!(plan.end, 3);
    // the rejected event is passed over
    assert_eq!(plan.approved, vec![0, 2]);
}

#[test]
fn stop_before_limits_the_run() {
    let l = ledger_with(&[approved(), approved(), approved()]);
    let plan = l.plan_advance(Some(2));
    assert_eq!(plan.end, 2);
    assert_eq!(plan.approved, vec![0, 1]);
    let none = l.plan_advance(Some(0));
    assert_eq!(none.end, 0);
}

#[test]
fn pointer_never_moves_back() {
    let mut l = ledger_with(&[approved(), approved(), approved(), None]);
    assert_eq!(l.commit_pointer(3), Ok(3));
    assert_eq!(l.commit_pointer(1), Ok(3));
    assert_eq!(l.cursor(), 3);
    // an end past a pending event is refused and changes nothing
    assert_eq!(l.commit_pointer(4), Err(LedgerError::Undecided));
    assert_eq!(l.cursor(), 3);
}

#[test]
fn reservations_are_distinct_and_dense() {
    let mut l: Ledger<f64> = Ledger::new();
    let ids: Vec<u32> = (0..10).map(|_| l.reserve_event_ids(1).unwrap()).collect();
    assert_eq!(ids, (0..10).collect::<Vec<u32>>());
    assert_eq!(l.next_event_id(), 10);
    assert_eq!(l.reserve_event_ids(5), Ok(10));
    assert_eq!(l.next_event_id(), 15);
}

#[test]
fn reserve_game_and_enrollment_move_their_counters() {
    let mut l: Ledger<f64> = Ledger::new();
    assert_eq!(l.reserve_game(), Ok((0, 0)));
    assert_eq!(l.reserve_game(), Ok((1, 1)));
    assert_eq!(l.reserve_enrollment(), Ok((2, 0)));
    assert_eq!(l.next_game_id(), 2);
    assert_eq!(l.next_player_id(), 1);
    assert_eq!(l.next_event_id(), 3);
}

#[test]
fn append_needs_a_free_reserved_id() {
    let mut l: Ledger<f64> = Ledger::new();
    assert_eq!(l.append(decay(0, None)), Err(LedgerError::NotReserved));
    l.reserve_event_ids(1).unwrap();
    assert_eq!(l.append(decay(0, None)), Ok(()));
    assert_eq!(l.append(decay(0, None)), Err(LedgerError::DuplicateEventId));
}

#[test]
fn decide_happens_once() {
    let mut l = ledger_with(&[None]);
    assert_eq!(l.decide(5, true, None), Err(LedgerError::NotFound));
    assert_eq!(l.decide(0, true, Some(2)), Ok(()));
    assert_eq!(l.get(0).unwrap().decision, Some(Decision { approved: true, reviewer: Some(2) }));
    assert_eq!(l.decide(0, false, Some(3)), Err(LedgerError::AlreadyDecided));
    assert_eq!(l.get(0).unwrap().decision, Some(Decision { approved: true, reviewer: Some(2) }));
}

#[test]
fn decide_on_reserved_but_empty_slot_is_not_found() {
    let mut l: Ledger<f64> = Ledger::new();
    l.reserve_event_ids(1).unwrap();
    assert_eq!(l.decide(0, true, None), Err(LedgerError::NotFound));
    // a reserved slot blocks the pointer like a pending event
    assert_eq!(l.plan_advance(None).end, 0);
}

#[test]
fn pop_last_pulls_pointer_and_game_counter_back() {
    let mut l: Ledger<f64> = Ledger::new();
    let (e0, g0) = l.submit_game(vec![1, 2], 60, 10, Some(1)).unwrap();
    assert_eq!((e0, g0), (0, 0));
    l.commit_pointer(1).unwrap();
    let popped = l.pop_last().unwrap();
    assert_eq!(popped.id, 0);
    assert_eq!(l.next_event_id(), 0);
    assert_eq!(l.next_game_id(), 0);
    assert_eq!(l.cursor(), 0);
    assert!(matches!(l.pop_last(), Err(LedgerError::NotFound)));
}

#[test]
fn reset_pointer_replays_from_zero() {
    let mut l = ledger_with(&[approved(), approved()]);
    l.commit_pointer(2).unwrap();
    l.reset_pointer();
    assert_eq!(l.cursor(), 0);
    assert_eq!(l.plan_advance(None).approved, vec![0, 1]);
}

#[test]
fn replay_is_deterministic() {
    let build = || {
        let mut l: Ledger<f64> = Ledger::new();
        l.enroll(18.0, 9.0, 1).unwrap();
        l.enroll(18.0, 9.0, 2).unwrap();
        l.submit_game(vec![0, 1], 300, 3, Some(0)).unwrap();
        l.record_penalty(1, -5.0, String::from("slapping"), 0, 4).unwrap();
        l
    };
    let (a, b) = (build(), build());
    let (pa, pb) = (a.plan_advance(None), b.plan_advance(None));
    assert_eq!(pa.approved, pb.approved);
    assert_eq!(pa.end, pb.end);
    for id in pa.approved {
        let ea = format!("{:?}", a.get(id).unwrap().process_effect());
        let eb = format!("{:?}", b.get(id).unwrap().process_effect());
        assert_eq!(ea, eb);
    }
}

#[test]
fn penalty_becomes_a_rating_only_change() {
    let mut l: Ledger<f64> = Ledger::new();
    let id = l.record_penalty(4, -5.0, String::from("foul play"), 9, 100).unwrap();
    let plan = l.plan_advance(None);
    assert_eq!(plan.approved, vec![id]);
    match l.get(id).unwrap().process_effect() {
        Ok(Effect::Adjust { victims, delta_rating, delta_deviation }) => {
            assert_eq!(victims, vec![4]);
            assert_eq!(delta_rating, Some(-5.0));
            assert_eq!(delta_deviation, None);
        }
        other => panic!("unexpected effect {:?}", other),
    }
}

#[test]
fn penalty_generic_variant() {
    let p: Payload<f64> = Payload::Penalty { victims: vec![3], delta_rating: -2.5, reason: String::from("r") };
    match p.try_into_generic_variant() {
        Some(Payload::ChangeStanding { victims, delta_rating, delta_deviation, reason }) => {
            assert_eq!(victims, vec![3]);
            assert_eq!(delta_rating, Some(-2.5));
            assert_eq!(delta_deviation, None);
            assert_eq!(reason, "r");
        }
        other => panic!("unexpected {:?}", other),
    }
    let d: Payload<f64> = Payload::InactivityDecay { victims: vec![], delta_deviation: 0.1 };
    assert!(d.try_into_generic_variant().is_none());
}

#[test]
fn effects_of_each_payload() {
    let game = StandingEvent {
        id: 0,
        decision: approved(),
        payload: Payload::<f64>::GameEnd(Game { game_id: 3, ranking: vec![5, 6, 7], length: 90 }),
        when: 1234,
    };
    match game.process_effect() {
        Ok(Effect::RateGame { ranking, when }) => {
            assert_eq!(ranking, vec![5, 6, 7]);
            assert_eq!(when, 1234);
        }
        other => panic!("unexpected {:?}", other),
    }
    let join = StandingEvent {
        id: 1,
        decision: approved(),
        payload: Payload::JoinLeague { victims: vec![8], initial_rating: 18.0, initial_deviation: 9.0 },
        when: 0,
    };
    match join.process_effect() {
        Ok(Effect::Enroll { victims, rating, deviation }) => {
            assert_eq!(victims, vec![8]);
            assert_eq!((rating, deviation), (18.0, 9.0));
        }
        other => panic!("unexpected {:?}", other),
    }
    let change = StandingEvent {
        id: 2,
        decision: approved(),
        payload: Payload::ChangeStanding {
            victims: vec![1, 2],
            delta_rating: None,
            delta_deviation: Some(0.5),
            reason: String::new(),
        },
        when: 0,
    };
    match change.process_effect() {
        Ok(Effect::Adjust { victims, delta_rating, delta_deviation }) => {
            assert_eq!(victims, vec![1, 2]);
            assert_eq!(delta_rating, None);
            assert_eq!(delta_deviation, Some(0.5));
        }
        other => panic!("unexpected {:?}", other),
    }
    match decay(3, approved()).process_effect() {
        Ok(Effect::Decay { victims, delta_deviation }) => {
            assert_eq!(victims, vec![1]);
            assert_eq!(delta_deviation, 0.1);
        }
        other => panic!("unexpected {:?}", other),
    }
}

#[test]
fn set_standing_is_refused() {
    let e = StandingEvent {
        id: 0,
        decision: approved(),
        payload: Payload::<f64>::SetStanding {
            victims: vec![1],
            new_rating: Some(1.0),
            new_deviation: None,
            reason: String::new(),
        },
        when: 0,
    };
    assert!(matches!(e.process_effect(), Err(ProjectionError::UnsupportedPayload)));
}

#[test]
fn scan_from_skips_empty_slots() {
    let mut l: Ledger<f64> = Ledger::new();
    l.reserve_event_ids(4).unwrap();
    l.append(decay(0, None)).unwrap();
    l.append(decay(2, None)).unwrap();
    l.append(decay(3, None)).unwrap();
    assert_eq!(l.scan_from(0), vec![0, 2, 3]);
    assert_eq!(l.scan_from(1), vec![2, 3]);
    assert_eq!(l.scan_from(9), Vec::<u32>::new());
}
