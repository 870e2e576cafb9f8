use overlands_agent::events::{EventKind, EventLog, MoveOutcome};

/// A stamp for events whose time the test does not read.
const AT: i64 = 1_700_000_000;

fn joined(did: &str) -> EventKind {
    EventKind::PeerJoined {
        did: did.into(),
        handle: None,
    }
}

#[test]
fn events_after_since_are_returned_in_order() {
    let mut log = EventLog::new(10, "run-1".into());
    log.push(joined("did:plc:a"), AT);
    log.push(joined("did:plc:b"), AT);
    log.push(joined("did:plc:c"), AT);

    let batch = log.after(1);

    let seqs: Vec<u64> = batch.events.iter().map(|e| e.seq).collect();
    assert_eq!(seqs, [2, 3]);
    assert_eq!(batch.next, 3);
    assert_eq!(batch.missed, 0);
}

/// Nothing new: an empty batch whose `next` is the `since` asked with, so
/// a client polling in a loop never goes backwards.
#[test]
fn nothing_new_keeps_the_cursor_where_it_was() {
    let mut log = EventLog::new(10, "run-1".into());
    log.push(joined("did:plc:a"), AT);

    let batch = log.after(1);

    assert!(batch.events.is_empty());
    assert_eq!(batch.next, 1);
}

/// A client that fell behind the log's capacity is told how much it
/// lost, not handed a batch that silently skips.
#[test]
fn events_dropped_before_anyone_asked_are_counted() {
    let mut log = EventLog::new(2, "run-1".into());
    for did in ["did:plc:a", "did:plc:b", "did:plc:c", "did:plc:d"] {
        log.push(joined(did), AT);
    }

    let batch = log.after(0);

    let seqs: Vec<u64> = batch.events.iter().map(|e| e.seq).collect();
    assert_eq!(seqs, [3, 4]);
    assert_eq!(batch.missed, 2);
}

#[test]
fn a_wait_with_nothing_happening_times_out_empty() {
    let log = EventLog::new(10, "run-1".into());
    let batch = log.after(0);
    assert!(batch.events.is_empty());
    assert_eq!(batch.next, 0);
    assert!(!log.has_after(0));
}

/// A cursor from an earlier run of the daemon is ahead of everything
/// this run has numbered: the batch starts over and says so.
#[test]
fn a_cursor_from_an_earlier_run_starts_over() {
    let mut log = EventLog::new(10, "run-2".into());
    log.push(joined("did:plc:a"), AT);

    let batch = log.after(40);

    assert!(batch.restarted);
    assert_eq!(batch.instance, "run-2");
    assert_eq!(batch.events.len(), 1);
    assert_eq!(batch.next, 1);
}

#[test]
fn a_cursor_taken_now_sees_the_next_event_and_only_it() {
    let mut log = EventLog::new(3, "run-1".into());
    log.push(joined("did:plc:a"), AT);
    let cursor = log.last_seq();
    assert_eq!(cursor, 1);
    assert!(!log.has_after(cursor));
    log.push(
        EventKind::MovementEnded {
            goal_id: 7,
            outcome: MoveOutcome::Arrived,
            position: [0, 0, 0],
            distance_left_m: 0,
            facing_off_deg: None,
            height_m: None,
        },
        1_700_000_000,
    );
    assert!(log.has_after(cursor));
    let batch = log.after(cursor);
    assert_eq!(batch.events.len(), 1);
    assert_eq!(batch.events[0].seq, 2);
    assert_eq!(batch.events[0].at, 1_700_000_000);
    assert_eq!(batch.next, 2);
}

#[test]
fn a_log_keeps_room_for_at_least_one() {
    let mut log = EventLog::new(0, "run-1".into());
    log.push(joined("did:plc:a"), AT);
    log.push(joined("did:plc:b"), AT);
    let batch = log.after(0);
    assert_eq!(batch.events.len(), 1);
    assert_eq!(batch.events[0].seq, 2);
    assert_eq!(batch.missed, 1);
}

/// After n pushes a log keeps the last that fit its room, in push order,
/// numbered up to n.
#[test]
fn n_pushes_keep_the_newest_that_fit() {
    let mut log = EventLog::new(3, "run-1".into());
    let dids: Vec<String> = (1..=7).map(|i| format!("did:plc:{i}")).collect();
    for did in &dids {
        log.push(joined(did), AT);
    }
    assert_eq!(log.last_seq(), 7);
    let batch = log.after(0);
    let seqs: Vec<u64> = batch.events.iter().map(|e| e.seq).collect();
    assert_eq!(seqs, [5, 6, 7]);
    for (e, did) in batch.events.iter().zip(&dids[4..]) {
        match &e.what {
            EventKind::PeerJoined { did: d, .. } => assert_eq!(d, did),
            _ => panic!("a join"),
        }
    }
}
