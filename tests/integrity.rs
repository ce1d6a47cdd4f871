use ewar_bot::integrity::{check_integrity, Checkpoint, Finding, LogRecord};
use ewar_bot::ledger::Ledger;

fn ev(id: u32, decided: bool, game_id: Option<i64>) -> LogRecord {
    LogRecord::Event { id, decided, game_id }
}

#[test]
fn missing_event_three_is_reported() {
    let recs = vec![ev(0, true, None), ev(1, true, None), ev(2, true, None), ev(4, true, None), ev(5, true, None)];
    let stored = Checkpoint { next_event_id: 6, next_game_id: 0, pointer: 6 };
    let report = check_integrity(&recs, stored, false);
    assert_eq!(report.next_event_id, 3);
    assert_eq!(report.pointer, 3);
    assert_eq!(
        report.findings,
        vec![
            Finding::EventMissing { id: 3 },
            Finding::EventCounter { stored: 6, actual: 3 },
            Finding::Pointer { stored: 6, actual: 3 },
        ]
    );
    assert_eq!(report.repaired, None);
}

#[test]
fn clean_log_reports_nothing() {
    let recs = vec![ev(0, true, None), ev(1, true, Some(0)), ev(2, false, Some(1))];
    let stored = Checkpoint { next_event_id: 3, next_game_id: 2, pointer: 2 };
    let report = check_integrity(&recs, stored, true);
    assert!(report.findings.is_empty());
    assert_eq!((report.next_event_id, report.next_game_id, report.pointer), (3, 2, 2));
    assert_eq!(report.repaired, None);
}

#[test]
fn repair_clamps_counters_and_resets_pointer() {
    let recs = vec![ev(0, true, Some(0)), ev(1, false, None), ev(2, true, Some(2))];
    let stored = Checkpoint { next_event_id: 9, next_game_id: 1, pointer: 3 };
    let report = check_integrity(&recs, stored, true);
    assert_eq!(report.next_event_id, 3);
    assert_eq!(report.next_game_id, 1);
    assert_eq!(report.pointer, 1);
    assert_eq!(
        report.findings,
        vec![
            Finding::GameMissing { id: 1 },
            Finding::EventCounter { stored: 9, actual: 3 },
            Finding::Pointer { stored: 3, actual: 1 },
        ]
    );
    assert_eq!(report.repaired, Some(Checkpoint { next_event_id: 3, next_game_id: 1, pointer: 1 }));
}

#[test]
fn unreadable_record_counts_as_a_gap() {
    let recs = vec![ev(0, true, None), LogRecord::Unreadable, ev(2, true, None)];
    let stored = Checkpoint { next_event_id: 1, next_game_id: 0, pointer: 1 };
    let report = check_integrity(&recs, stored, false);
    assert_eq!(report.findings, vec![Finding::Unreadable { position: 1 }, Finding::EventMissing { id: 1 }]);
    assert_eq!(report.next_event_id, 1);
}

#[test]
fn empty_log_against_empty_checkpoint() {
    let report = check_integrity(&vec![], Checkpoint { next_event_id: 0, next_game_id: 0, pointer: 0 }, true);
    assert!(report.findings.is_empty());
    assert_eq!(report.next_event_id, 0);
}

#[test]
fn ledger_records_feed_the_checker() {
    let mut l: Ledger<f64> = Ledger::new();
    l.enroll(18.0, 9.0, 0).unwrap();
    l.submit_game(vec![0], 10, 1, None).unwrap();
    let recs = l.log_records();
    assert_eq!(recs, vec![ev(0, true, None), ev(1, false, Some(0))]);
    let stored = Checkpoint { next_event_id: l.next_event_id(), next_game_id: l.next_game_id(), pointer: 1 };
    let report = check_integrity(&recs, stored, false);
    assert!(report.findings.is_empty());
}
