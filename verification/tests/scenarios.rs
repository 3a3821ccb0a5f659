//! End-to-end scenarios of the catch-up protocol, driving the
//! coordinator exactly as the surrounding process would.

use state_synchronizer::coordinator::SyncCoordinator;
use state_synchronizer::types::{ChunkInfo, SyncAction};

fn chunk(start: u64, end: u64, proven: u64, valid: bool) -> ChunkInfo {
    ChunkInfo { start_version: start, end_version: end, proven_version: proven, proof_valid: valid }
}

#[test]
fn direct_sync_to_target() {
    // known version 10, a caller asks for target 50
    let mut c = SyncCoordinator::new(10, &vec![1, 2], 3);
    let a1 = c.handle_request(50, true, 1);
    assert_eq!(
        a1,
        vec![SyncAction::SendChunkRequest { peer: 1, start_version: 11, target_hint: 50 }]
    );
    // the peer answers with a valid chunk [11, 50] proving the target
    let a2 = c.handle_chunk_response(chunk(11, 50, 50, true));
    assert_eq!(a2, vec![SyncAction::ApplyChunk { start_version: 11, end_version: 50 }]);
    let a3 = c.handle_apply_outcome(true);
    assert_eq!(a3, vec![SyncAction::ResolveWaiter { id: 1, success: true }]);
    assert_eq!(c.get_state(), 50);
    assert!(c.in_flight.is_none());
    assert!(c.waiters.is_empty());
}

#[test]
fn timeout_fails_over_to_next_peer() {
    // as above, but the first peer times out
    let mut c = SyncCoordinator::new(10, &vec![1, 2], 3);
    c.handle_request(50, true, 1);
    let a1 = c.handle_chunk_failure();
    assert_eq!(
        a1,
        vec![SyncAction::SendChunkRequest { peer: 2, start_version: 11, target_hint: 50 }]
    );
    let a2 = c.handle_chunk_response(chunk(11, 50, 50, true));
    assert_eq!(a2, vec![SyncAction::ApplyChunk { start_version: 11, end_version: 50 }]);
    let a3 = c.handle_apply_outcome(true);
    assert_eq!(a3, vec![SyncAction::ResolveWaiter { id: 1, success: true }]);
    assert_eq!(c.get_state(), 50);
}

#[test]
fn partial_chunk_resolves_lower_targets_and_continues() {
    // two targets pending: 50 and 30; a chunk up to 30 arrives
    let mut c = SyncCoordinator::new(10, &vec![1, 2], 3);
    let a1 = c.handle_request(50, true, 1);
    assert_eq!(
        a1,
        vec![SyncAction::SendChunkRequest { peer: 1, start_version: 11, target_hint: 50 }]
    );
    assert_eq!(c.handle_request(30, true, 2), Vec::new());
    let a2 = c.handle_chunk_response(chunk(11, 30, 30, true));
    assert_eq!(a2, vec![SyncAction::ApplyChunk { start_version: 11, end_version: 30 }]);
    // the waiter for 30 resolves; the one for 50 stays parked and the
    // next range is requested at once
    let a3 = c.handle_apply_outcome(true);
    assert_eq!(
        a3,
        vec![
            SyncAction::ResolveWaiter { id: 2, success: true },
            SyncAction::SendChunkRequest { peer: 1, start_version: 31, target_hint: 50 },
        ]
    );
    assert_eq!(c.get_state(), 30);
    assert_eq!(c.waiters.len(), 1);
    // the rest of the range completes the remaining waiter
    c.handle_chunk_response(chunk(31, 50, 50, true));
    let a4 = c.handle_apply_outcome(true);
    assert_eq!(a4, vec![SyncAction::ResolveWaiter { id: 1, success: true }]);
    assert_eq!(c.get_state(), 50);
}

#[test]
fn out_of_band_commit_advances_without_download() {
    // no sync in flight: a commit notification jumps the version directly
    let mut c = SyncCoordinator::new(10, &vec![1], 3);
    let a1 = c.handle_commit(25);
    assert_eq!(a1, Vec::new());
    assert_eq!(c.get_state(), 25);
    assert!(c.in_flight.is_none());
}

#[test]
fn out_of_band_commit_resolves_pending_waiters() {
    // with no peers configured, a request parks its caller; an external
    // commit past the target resolves it without any download
    let mut c = SyncCoordinator::new(10, &Vec::new(), 3);
    assert_eq!(c.handle_request(20, true, 5), Vec::new());
    let a1 = c.handle_commit(25);
    assert_eq!(a1, vec![SyncAction::ResolveWaiter { id: 5, success: true }]);
    assert_eq!(c.get_state(), 25);
    assert!(c.waiters.is_empty());
    assert!(c.in_flight.is_none());
}

#[test]
fn commit_during_download_supersedes_the_request() {
    // a commit overtakes the in-flight range; the eventual response no
    // longer fits and the download winds down without a retry
    let mut c = SyncCoordinator::new(10, &vec![1], 3);
    c.handle_request(30, true, 1);
    let a1 = c.handle_commit(30);
    assert_eq!(a1, vec![SyncAction::ResolveWaiter { id: 1, success: true }]);
    assert_eq!(c.get_state(), 30);
    // the stale response arrives: rejected, and nothing is reissued
    let a2 = c.handle_chunk_response(chunk(11, 30, 30, true));
    assert_eq!(a2, Vec::new());
    assert!(c.in_flight.is_none());
    assert_eq!(c.get_state(), 30);
}
