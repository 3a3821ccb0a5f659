use state_synchronizer::coordinator::SyncCoordinator;
use state_synchronizer::types::{ChunkInfo, SyncAction};

fn chunk(start: u64, end: u64, proven: u64, valid: bool) -> ChunkInfo {
    ChunkInfo { start_version: start, end_version: end, proven_version: proven, proof_valid: valid }
}

#[test]
fn new_coordinator_starts_idle() {
    let c = SyncCoordinator::new(10, &vec![1, 2], 3);
    assert_eq!(c.known_version, 10);
    assert_eq!(c.highest_target_seen, 10);
    assert!(c.in_flight.is_none());
    assert!(c.applying.is_none());
    assert!(c.waiters.is_empty());
    assert_eq!(c.retry_budget, 3);
    assert_eq!(c.get_state(), 10);
}

#[test]
fn get_state_answers_and_changes_nothing() {
    let c = SyncCoordinator::new(42, &vec![1], 3);
    let actions = c.handle_get_state(7);
    assert_eq!(actions, vec![SyncAction::RespondState { id: 7, version: 42 }]);
    assert_eq!(c.known_version, 42);
}

#[test]
fn low_target_resolves_immediately() {
    let mut c = SyncCoordinator::new(10, &vec![1], 3);
    let actions = c.handle_request(10, true, 9);
    assert_eq!(actions, vec![SyncAction::ResolveWaiter { id: 9, success: true }]);
    let actions = c.handle_request(5, true, 8);
    assert_eq!(actions, vec![SyncAction::ResolveWaiter { id: 8, success: true }]);
    // no network interaction, no state change
    assert!(c.in_flight.is_none());
    assert!(c.waiters.is_empty());
    assert_eq!(c.known_version, 10);
    assert_eq!(c.highest_target_seen, 10);
}

#[test]
fn invalid_target_refused_immediately() {
    let mut c = SyncCoordinator::new(10, &vec![1], 3);
    let actions = c.handle_request(50, false, 3);
    assert_eq!(actions, vec![SyncAction::ResolveWaiter { id: 3, success: false }]);
    assert!(c.in_flight.is_none());
    assert!(c.waiters.is_empty());
}

#[test]
fn concurrent_requests_collapse_to_one_download() {
    let mut c = SyncCoordinator::new(0, &vec![1, 2], 3);
    let a1 = c.handle_request(10, true, 1);
    assert_eq!(
        a1,
        vec![SyncAction::SendChunkRequest { peer: 1, start_version: 1, target_hint: 10 }]
    );
    // further requests extend the target without any new download
    let a2 = c.handle_request(20, true, 2);
    assert_eq!(a2, Vec::new());
    let a3 = c.handle_request(30, true, 3);
    assert_eq!(a3, Vec::new());
    assert_eq!(c.highest_target_seen, 30);
    // one chunk reaching the highest target resolves all three, in order
    let a4 = c.handle_chunk_response(chunk(1, 30, 30, true));
    assert_eq!(a4, vec![SyncAction::ApplyChunk { start_version: 1, end_version: 30 }]);
    let a5 = c.handle_apply_outcome(true);
    assert_eq!(
        a5,
        vec![
            SyncAction::ResolveWaiter { id: 1, success: true },
            SyncAction::ResolveWaiter { id: 2, success: true },
            SyncAction::ResolveWaiter { id: 3, success: true },
        ]
    );
    assert_eq!(c.known_version, 30);
    assert!(c.in_flight.is_none());
}

#[test]
fn equal_targets_both_park_and_both_resolve() {
    let mut c = SyncCoordinator::new(10, &vec![1], 3);
    let a1 = c.handle_request(30, true, 1);
    assert_eq!(
        a1,
        vec![SyncAction::SendChunkRequest { peer: 1, start_version: 11, target_hint: 30 }]
    );
    assert_eq!(c.handle_request(30, true, 2), Vec::new());
    c.handle_chunk_response(chunk(11, 30, 30, true));
    let acts = c.handle_apply_outcome(true);
    assert_eq!(
        acts,
        vec![
            SyncAction::ResolveWaiter { id: 1, success: true },
            SyncAction::ResolveWaiter { id: 2, success: true },
        ]
    );
}

#[test]
fn gapped_chunk_rejected_and_range_reissued() {
    let mut c = SyncCoordinator::new(10, &vec![1, 2], 3);
    c.handle_request(50, true, 1);
    // starts at 12 instead of 11: a gap, so the peer is failed over
    let actions = c.handle_chunk_response(chunk(12, 50, 50, true));
    assert_eq!(
        actions,
        vec![SyncAction::SendChunkRequest { peer: 2, start_version: 11, target_hint: 50 }]
    );
    assert_eq!(c.known_version, 10);
}

#[test]
fn overlapping_chunk_rejected() {
    let mut c = SyncCoordinator::new(10, &vec![1, 2], 3);
    c.handle_request(50, true, 1);
    // starts at 10, overlapping the committed prefix
    let actions = c.handle_chunk_response(chunk(10, 50, 50, true));
    assert_eq!(
        actions,
        vec![SyncAction::SendChunkRequest { peer: 2, start_version: 11, target_hint: 50 }]
    );
}

#[test]
fn chunk_proven_beyond_highest_target_rejected() {
    let mut c = SyncCoordinator::new(10, &vec![1, 2], 3);
    c.handle_request(50, true, 1);
    let actions = c.handle_chunk_response(chunk(11, 60, 60, true));
    assert_eq!(
        actions,
        vec![SyncAction::SendChunkRequest { peer: 2, start_version: 11, target_hint: 50 }]
    );
}

#[test]
fn invalid_proof_rejected() {
    let mut c = SyncCoordinator::new(10, &vec![1, 2], 3);
    c.handle_request(50, true, 1);
    let actions = c.handle_chunk_response(chunk(11, 50, 50, false));
    assert_eq!(
        actions,
        vec![SyncAction::SendChunkRequest { peer: 2, start_version: 11, target_hint: 50 }]
    );
}

#[test]
fn retry_budget_exhaustion_fails_waiters_and_recovers() {
    let mut c = SyncCoordinator::new(10, &vec![1, 2], 2);
    c.handle_request(50, true, 1);
    // first failure: second peer is asked for the same range
    let a1 = c.handle_chunk_failure();
    assert_eq!(
        a1,
        vec![SyncAction::SendChunkRequest { peer: 2, start_version: 11, target_hint: 50 }]
    );
    // second failure exhausts the budget of 2: the waiter fails
    let a2 = c.handle_chunk_failure();
    assert_eq!(a2, vec![SyncAction::ResolveWaiter { id: 1, success: false }]);
    assert!(c.in_flight.is_none());
    assert_eq!(c.highest_target_seen, 10);
    // the coordinator stays available for later requests
    let a3 = c.handle_request(50, true, 2);
    assert_eq!(
        a3,
        vec![SyncAction::SendChunkRequest { peer: 1, start_version: 11, target_hint: 50 }]
    );
}

#[test]
fn round_robin_wraps_over_all_peers() {
    let mut c = SyncCoordinator::new(0, &vec![1, 2, 3], 10);
    let a0 = c.handle_request(9, true, 1);
    assert_eq!(
        a0,
        vec![SyncAction::SendChunkRequest { peer: 1, start_version: 1, target_hint: 9 }]
    );
    let peers: Vec<u64> = (0..3)
        .map(|_| match c.handle_chunk_failure().as_slice() {
            [SyncAction::SendChunkRequest { peer, .. }] => *peer,
            other => panic!("expected one chunk request, got {:?}", other),
        })
        .collect();
    // after peers 2 and 3, every peer is disfavored and the rotation wraps
    assert_eq!(peers, vec![2, 3, 1]);
}

#[test]
fn execution_error_fails_pending_targets() {
    let mut c = SyncCoordinator::new(10, &vec![1], 3);
    c.handle_request(50, true, 1);
    c.handle_chunk_response(chunk(11, 50, 50, true));
    let actions = c.handle_apply_outcome(false);
    assert_eq!(actions, vec![SyncAction::ResolveWaiter { id: 1, success: false }]);
    assert_eq!(c.known_version, 10);
    assert_eq!(c.highest_target_seen, 10);
    assert!(c.applying.is_none());
    assert_eq!(c.get_state(), 10);
}

#[test]
fn stale_events_are_ignored() {
    let mut c = SyncCoordinator::new(10, &vec![1], 3);
    assert_eq!(c.handle_chunk_response(chunk(11, 20, 20, true)), Vec::new());
    assert_eq!(c.handle_chunk_failure(), Vec::new());
    assert_eq!(c.handle_apply_outcome(true), Vec::new());
    assert_eq!(c.known_version, 10);
}

#[test]
fn commit_below_known_version_is_a_no_op() {
    let mut c = SyncCoordinator::new(10, &vec![1], 3);
    assert_eq!(c.handle_commit(5), Vec::new());
    assert_eq!(c.handle_commit(10), Vec::new());
    assert_eq!(c.known_version, 10);
}

#[test]
fn known_version_never_decreases() {
    let mut c = SyncCoordinator::new(10, &vec![1], 3);
    let mut floor = c.known_version;
    c.handle_request(20, true, 1);
    assert!(c.known_version >= floor);
    floor = c.known_version;
    c.handle_chunk_response(chunk(11, 20, 20, true));
    assert!(c.known_version >= floor);
    floor = c.known_version;
    c.handle_apply_outcome(true);
    assert!(c.known_version >= floor);
    assert_eq!(c.known_version, 20);
    c.handle_commit(15);
    assert_eq!(c.known_version, 20);
    c.handle_commit(25);
    assert_eq!(c.known_version, 25);
}

#[test]
fn largest_versions_are_handled() {
    let mut c = SyncCoordinator::new(u64::MAX - 1, &vec![1], 1);
    let a1 = c.handle_request(u64::MAX, true, 1);
    assert_eq!(
        a1,
        vec![SyncAction::SendChunkRequest {
            peer: 1,
            start_version: u64::MAX,
            target_hint: u64::MAX
        }]
    );
    c.handle_chunk_response(chunk(u64::MAX, u64::MAX, u64::MAX, true));
    let a2 = c.handle_apply_outcome(true);
    assert_eq!(a2, vec![SyncAction::ResolveWaiter { id: 1, success: true }]);
    assert_eq!(c.known_version, u64::MAX);
    // every further target is already reached
    let a3 = c.handle_request(u64::MAX, true, 2);
    assert_eq!(a3, vec![SyncAction::ResolveWaiter { id: 2, success: true }]);
}

#[test]
fn verify_chunk_checks_every_condition() {
    let mut c = SyncCoordinator::new(10, &vec![1], 3);
    c.handle_request(50, true, 1);
    assert!(c.verify_chunk(&chunk(11, 50, 50, true)));
    assert!(c.verify_chunk(&chunk(11, 11, 50, true)));
    assert!(!c.verify_chunk(&chunk(12, 50, 50, true))); // gap
    assert!(!c.verify_chunk(&chunk(10, 50, 50, true))); // overlap
    assert!(!c.verify_chunk(&chunk(11, 50, 50, false))); // bad proof
    assert!(!c.verify_chunk(&chunk(11, 50, 51, true))); // proven above target
    assert!(!c.verify_chunk(&chunk(12, 11, 50, true))); // empty range
}

#[test]
fn no_peers_parks_the_waiter_without_a_request() {
    let mut c = SyncCoordinator::new(10, &Vec::new(), 3);
    let actions = c.handle_request(50, true, 1);
    assert_eq!(actions, Vec::new());
    assert!(c.in_flight.is_none());
    assert_eq!(c.waiters.len(), 1);
    assert_eq!(c.highest_target_seen, 50);
}
