use ewar_bot::blacklist::{Blacklist, BlacklistError};
use ewar_bot::history::TimelineEntry;
use ewar_bot::handle::{check_handle, handle_verdict, normalize_handle, HandleError};
use ewar_bot::ledger::Ledger;
use ewar_bot::league::{decay_victims, ReviewError, INACTIVITY_WINDOW_MS};
use ewar_bot::model::{Decision, Payload};

#[test]
fn moderator_game_is_approved_at_once() {
    let mut l: Ledger<f64> = Ledger::new();
    let (e, g) = l.submit_game(vec![3, 1], 120, 50, Some(9)).unwrap();
    let ev = l.get(e).unwrap();
    assert_eq!(ev.decision, Some(Decision { approved: true, reviewer: Some(9) }));
    assert_eq!(ev.payload.game_id(), Some(g));
    assert_eq!(ev.when, 50);
    let (e2, g2) = l.submit_game(vec![1, 3], 60, 51, None).unwrap();
    assert_eq!((e2, g2), (1, 1));
    assert_eq!(l.get(e2).unwrap().decision, None);
}

#[test]
fn review_decides_a_pending_game_once() {
    let mut l: Ledger<f64> = Ledger::new();
    l.submit_game(vec![3, 1], 120, 50, None).unwrap();
    assert_eq!(l.review_game(7, true, 2), Err(ReviewError::GameNotFound));
    assert_eq!(l.review_game(0, false, 2), Ok(0));
    assert_eq!(l.get(0).unwrap().decision, Some(Decision { approved: false, reviewer: Some(2) }));
    assert_eq!(l.review_game(0, true, 2), Err(ReviewError::AlreadyReviewed));
    assert_eq!(l.find_game(0), Some(0));
    assert_eq!(l.find_game(1), None);
}

#[test]
fn enrollment_and_decay_are_self_approved() {
    let mut l: Ledger<f64> = Ledger::new();
    let (e, p) = l.enroll(18.0, 9.0, 5).unwrap();
    assert_eq!((e, p), (0, 0));
    match &l.get(e).unwrap().payload {
        Payload::JoinLeague { victims, initial_rating, initial_deviation } => {
            assert_eq!(victims, &vec![0]);
            assert_eq!((*initial_rating, *initial_deviation), (18.0, 9.0));
        }
        other => panic!("unexpected {:?}", other),
    }
    let d = l.record_decay(vec![0], 0.1, 6).unwrap();
    assert_eq!(l.get(d).unwrap().decision, Some(Decision { approved: true, reviewer: None }));
    assert_eq!(l.plan_advance(None).approved, vec![0, 1]);
}

#[test]
fn history_queries() {
    let mut l: Ledger<f64> = Ledger::new();
    l.enroll(18.0, 9.0, 0).unwrap(); // 0
    l.enroll(18.0, 9.0, 0).unwrap(); // 1
    l.submit_game(vec![0, 1], 10, 1, None).unwrap(); // 2, game 0
    l.submit_game(vec![1, 0], 10, 2, Some(5)).unwrap(); // 3, game 1
    l.submit_game(vec![0, 1], 10, 3, None).unwrap(); // 4, game 2
    l.record_penalty(1, -1.0, String::from("x"), 5, 4).unwrap(); // 5
    assert_eq!(l.unreviewed_games(10), vec![2, 4]);
    assert_eq!(l.unreviewed_games(1), vec![2]);
    assert_eq!(l.event_log(None, 3), vec![5, 4, 3]);
    assert_eq!(l.event_log(Some(1), 50), vec![1, 0]);
    assert_eq!(l.game_log(None, 50), vec![4, 3, 2]);
    assert_eq!(l.game_log(Some(1), 50), vec![3, 2]);
    assert_eq!(l.player_events(1, 10), vec![5, 4, 3, 2, 1]);
    assert_eq!(l.player_events(0, 2), vec![4, 3]);
    assert_eq!(l.win_loss(0), (2, 1));
    assert_eq!(l.win_loss(1), (1, 2));
    assert_eq!(l.win_loss(42), (0, 0));
}

#[test]
fn inactive_players_decay() {
    let now: i64 = 10 * INACTIVITY_WINDOW_MS;
    let players = vec![
        (1, Some(now - INACTIVITY_WINDOW_MS - 1)),
        (2, Some(now - INACTIVITY_WINDOW_MS)),
        (3, None),
        (4, Some(0)),
    ];
    assert_eq!(decay_victims(&players, now), vec![1, 4]);
    assert_eq!(decay_victims(&players, i64::MIN), Vec::<i32>::new());
}

#[test]
fn blacklist_add_remove() {
    let mut b = Blacklist::new();
    assert_eq!(b.add(3), Ok(()));
    assert_eq!(b.add(5), Ok(()));
    assert_eq!(b.add(3), Err(BlacklistError::AlreadyListed));
    assert!(b.contains(5));
    assert_eq!(b.visible(&vec![5, 1, 3, 2]), vec![1, 2]);
    assert_eq!(b.remove(3), Ok(()));
    assert_eq!(b.remove(3), Err(BlacklistError::NotListed));
    assert_eq!(b.list(), &vec![5]);
}

#[test]
fn handles() {
    assert_eq!(normalize_handle("Slap.Master_9"), "slap.master_9");
    assert_eq!(check_handle("slap.master_9"), Ok(()));
    assert_eq!(check_handle("Upper"), Ok(()));
    assert_eq!(check_handle("bad name"), Err(HandleError::BadCharacters));
    assert_eq!(check_handle(""), Err(HandleError::BadCharacters));
    assert_eq!(check_handle(&"a".repeat(33)), Err(HandleError::TooLong));
    assert_eq!(check_handle(&"a".repeat(32)), Ok(()));
    assert_eq!(handle_verdict("abc", false), Err(HandleError::BadCharacters));
    assert_eq!(handle_verdict("abc", true), Ok(()));
}

#[test]
fn decay_runs_collapse_in_history() {
    let mut l: Ledger<f64> = Ledger::new();
    l.enroll(18.0, 9.0, 0).unwrap(); // 0
    l.record_decay(vec![0], 0.1, 1).unwrap(); // 1
    l.submit_game(vec![0], 10, 2, None).unwrap(); // 2
    l.record_decay(vec![0], 0.1, 3).unwrap(); // 3
    l.record_decay(vec![0], 0.1, 4).unwrap(); // 4
    l.record_penalty(0, -1.0, String::from("x"), 0, 5).unwrap(); // 5
    l.record_decay(vec![0], 0.1, 6).unwrap(); // 6
    let recent = l.player_events(0, 10);
    assert_eq!(recent, vec![6, 5, 4, 3, 2, 1, 0]);
    assert_eq!(
        l.timeline(&recent),
        vec![
            TimelineEntry::Decays(1),
            TimelineEntry::Event(5),
            TimelineEntry::Decays(2),
            TimelineEntry::Event(2),
            TimelineEntry::Decays(1),
            TimelineEntry::Event(0),
        ]
    );
}
