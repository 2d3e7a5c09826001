use replicon_sync::event_snapshot::{
    client_populate_client_event_snapshots, server_populate_client_event_snapshots, EventSnapshot,
    EventSnapshots, IngestError, SnapshotError,
};
use replicon_sync::game::NetworkFire;

const RECEIVED: u64 = 1_000_000;

fn fire(index: usize, timestamp: u64) -> NetworkFire {
    NetworkFire { index, timestamp }
}

fn indices(snaps: &EventSnapshots<NetworkFire>) -> Vec<usize> {
    (0..snaps.len()).map(|i| snaps.get(i).unwrap().index()).collect()
}

fn indices_from(snaps: &EventSnapshots<NetworkFire>, begin: usize) -> Vec<usize> {
    (begin..snaps.len()).map(|i| snaps.get(i).unwrap().index()).collect()
}

#[test]
fn zero_capacity_is_refused() {
    let mut snaps = EventSnapshots::with_capacity(0);
    assert_eq!(snaps.insert_at(fire(0, 1), 0, RECEIVED), Err(SnapshotError::Capacity));
    assert_eq!(snaps.insert(fire(0, 1), 0), Err(SnapshotError::Capacity));
    assert_eq!(snaps.len(), 0);
}

#[test]
fn event_from_the_future_is_refused() {
    let mut snaps = EventSnapshots::with_capacity(4);
    assert_eq!(snaps.insert_at(fire(0, RECEIVED), 0, RECEIVED), Err(SnapshotError::ClockSkew));
    assert_eq!(snaps.insert_at(fire(0, RECEIVED + 1), 0, RECEIVED), Err(SnapshotError::ClockSkew));
    assert_eq!(snaps.insert(fire(0, u64::MAX), 0), Err(SnapshotError::ClockSkew));
    assert_eq!(snaps.len(), 0);
}

#[test]
fn insert_reads_the_wall_clock() {
    let mut snaps = EventSnapshots::with_capacity(4);
    assert_eq!(snaps.insert(fire(0, 1), 7), Ok(()));
    let latest = snaps.latest_snapshot().unwrap();
    assert_eq!(latest.tick(), 7);
    assert_eq!(latest.timestamp(), 1);
    assert!(latest.received_timestamp() > 1);
}

#[test]
fn stale_timestamp_is_refused_and_changes_nothing() {
    let mut snaps = EventSnapshots::with_capacity(4);
    assert_eq!(snaps.insert_at(fire(0, 10), 1, RECEIVED), Ok(()));
    assert_eq!(snaps.insert_at(fire(1, 10), 1, RECEIVED), Err(SnapshotError::StaleTimestamp));
    assert_eq!(snaps.insert_at(fire(2, 9), 2, RECEIVED), Err(SnapshotError::StaleTimestamp));
    assert_eq!(indices(&snaps), vec![0]);
    assert_eq!(snaps.frontier_index(), 0);
}

#[test]
fn stale_tick_is_refused_and_changes_nothing() {
    let mut snaps = EventSnapshots::with_capacity(4);
    assert_eq!(snaps.insert_at(fire(0, 10), 5, RECEIVED), Ok(()));
    assert_eq!(snaps.insert_at(fire(1, 11), 4, RECEIVED), Err(SnapshotError::StaleTick));
    // the tick is checked before the time
    assert_eq!(snaps.insert_at(fire(1, 9), 4, RECEIVED), Err(SnapshotError::StaleTick));
    assert_eq!(indices(&snaps), vec![0]);
    assert_eq!(snaps.insert_at(fire(1, 11), 5, RECEIVED), Ok(()));
}

#[test]
fn behind_frontier_is_refused() {
    let mut snaps = EventSnapshots::with_capacity(4);
    assert_eq!(snaps.insert_at(fire(7, 10), 1, RECEIVED), Ok(()));
    assert_eq!(snaps.frontier(), 0);
    assert_eq!(snaps.frontier_index(), 8);
    assert_eq!(snaps.insert_at(fire(5, 20), 2, RECEIVED), Err(SnapshotError::BehindFrontier));
    assert_eq!(indices(&snaps), vec![7]);
    assert_eq!(snaps.insert_at(fire(8, 20), 2, RECEIVED), Ok(()));
}

#[test]
fn length_never_exceeds_capacity() {
    let mut snaps = EventSnapshots::with_capacity(3);
    for i in 0..10usize {
        assert_eq!(snaps.insert_at(fire(i, i as u64 + 1), i as u32, RECEIVED), Ok(()));
        assert!(snaps.len() <= 3);
    }
    assert_eq!(indices(&snaps), vec![7, 8, 9]);
    assert_eq!(snaps.capacity(), 3);
}

#[test]
fn frontier_hands_out_pending_entries_once() {
    let mut snaps = EventSnapshots::with_capacity(3);
    assert_eq!(snaps.insert_at(fire(2, 1), 1, RECEIVED), Ok(()));
    assert_eq!(snaps.frontier(), 0);
    assert_eq!(snaps.frontier_index(), 3);
    for i in 3..6usize {
        assert_eq!(snaps.insert_at(fire(i, i as u64), 1, RECEIVED), Ok(()));
    }
    assert_eq!(indices(&snaps), vec![3, 4, 5]);
    let begin = snaps.frontier();
    assert_eq!(indices_from(&snaps, begin), vec![3, 4, 5]);
    assert_eq!(snaps.frontier_index(), 6);
    let begin = snaps.frontier();
    assert_eq!(begin, snaps.len());
    assert!(indices_from(&snaps, begin).is_empty());
    assert_eq!(snaps.frontier_index(), 6);
}

#[test]
fn capacity_three_evicts_oldest_then_frontier() {
    let mut snaps = EventSnapshots::with_capacity(3);
    let ticks = [10u32, 10, 11, 12];
    for (k, tick) in ticks.iter().enumerate() {
        assert_eq!(snaps.insert_at(fire(k + 1, 100 + k as u64), *tick, RECEIVED), Ok(()));
    }
    assert_eq!(indices(&snaps), vec![2, 3, 4]);
    assert_eq!(snaps.frontier_index(), 0);
    let begin = snaps.frontier();
    assert_eq!(indices_from(&snaps, begin), vec![2, 3, 4]);
    assert_eq!(snaps.frontier_index(), 5);
}

#[test]
fn sort_orders_by_index() {
    let mut snaps = EventSnapshots::with_capacity(5);
    for (k, index) in [5usize, 3, 4, 9, 1].iter().enumerate() {
        assert_eq!(snaps.insert_at(fire(*index, k as u64 + 1), 0, RECEIVED), Ok(()));
    }
    snaps.sort_with_index();
    assert_eq!(indices(&snaps), vec![1, 3, 4, 5, 9]);
    assert_eq!(snaps.get(0).unwrap().timestamp(), 5);
}

#[test]
fn accessors_report_absent_out_of_range() {
    let mut snaps: EventSnapshots<NetworkFire> = EventSnapshots::with_capacity(2);
    assert!(snaps.get(0).is_none());
    assert!(snaps.latest_snapshot().is_none());
    assert_eq!(snaps.insert_at(fire(0, 1), 0, RECEIVED), Ok(()));
    assert_eq!(snaps.insert_at(fire(1, 2), 0, RECEIVED), Ok(()));
    assert!(snaps.get(2).is_none());
    assert_eq!(snaps.latest_snapshot().unwrap().index(), 1);
    snaps.pop_front();
    assert_eq!(indices(&snaps), vec![1]);
    snaps.pop_front();
    snaps.pop_front();
    assert_eq!(snaps.len(), 0);
}

#[test]
fn snapshot_keeps_what_it_was_given() {
    let snap = EventSnapshot::new(fire(4, 40), 50, 6);
    assert_eq!(snap.index(), 4);
    assert_eq!(snap.timestamp(), 40);
    assert_eq!(snap.received_timestamp(), 50);
    assert_eq!(snap.tick(), 6);
    assert_eq!(*snap.event(), fire(4, 40));
}

#[test]
fn server_ingest_routes_by_owner() {
    let mut snaps = EventSnapshots::with_capacity(4);
    assert_eq!(server_populate_client_event_snapshots(&mut snaps, 1, 2, fire(0, 1), 3), Ok(false));
    assert_eq!(snaps.len(), 0);
    assert_eq!(server_populate_client_event_snapshots(&mut snaps, 2, 2, fire(0, 1), 3), Ok(true));
    assert_eq!(snaps.len(), 1);
    assert_eq!(
        server_populate_client_event_snapshots(&mut snaps, 2, 2, fire(1, 1), 3),
        Err(IngestError::Rejected(SnapshotError::StaleTimestamp))
    );
    assert_eq!(snaps.len(), 1);
}

#[test]
fn client_ingest_inserts_at_confirmed_tick() {
    let mut snaps = EventSnapshots::with_capacity(4);
    assert_eq!(client_populate_client_event_snapshots(&mut snaps, fire(0, 1), 9), Ok(()));
    assert_eq!(snaps.latest_snapshot().unwrap().tick(), 9);
    assert_eq!(
        client_populate_client_event_snapshots(&mut snaps, fire(1, 2), 8),
        Err(IngestError::Rejected(SnapshotError::StaleTick))
    );
}

#[test]
fn frontier_on_unsorted_buffer_hands_out_again() {
    let mut snaps = EventSnapshots::with_capacity(4);
    assert_eq!(snaps.insert_at(fire(9, 1), 0, RECEIVED), Ok(()));
    assert_eq!(snaps.insert_at(fire(5, 2), 0, RECEIVED), Ok(()));
    assert_eq!(snaps.frontier(), 0);
    assert_eq!(snaps.frontier_index(), 6);
    assert_eq!(snaps.frontier(), 0);
    assert_eq!(snaps.frontier_index(), 6);
    snaps.sort_with_index();
    assert_eq!(snaps.frontier(), 1);
    assert_eq!(snaps.frontier_index(), 10);
    assert_eq!(snaps.frontier(), 2);
    assert_eq!(snaps.frontier_index(), 10);
}

#[test]
fn evictions_before_consumption_are_counted() {
    let mut snaps = EventSnapshots::with_capacity(2);
    for i in 0..2usize {
        assert_eq!(snaps.insert_at(fire(i, i as u64 + 1), 0, RECEIVED), Ok(()));
    }
    assert_eq!(snaps.dropped_unconsumed(), 0);
    assert_eq!(snaps.insert_at(fire(2, 3), 0, RECEIVED), Ok(()));
    assert_eq!(snaps.dropped_unconsumed(), 1);
    assert_eq!(snaps.frontier(), 0);
    assert_eq!(snaps.frontier_index(), 3);
    // index 1 was handed out before it is evicted
    assert_eq!(snaps.insert_at(fire(3, 4), 0, RECEIVED), Ok(()));
    assert_eq!(snaps.dropped_unconsumed(), 1);
    let seen: Vec<usize> = snaps.iter().iter().map(|s| s.index()).collect();
    assert_eq!(seen, vec![2, 3]);
}
