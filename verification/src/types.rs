//! Data model of the sync coordinator: events it consumes, actions it
//! emits, its concrete state, and the ghost view that contracts speak of.

use vstd::prelude::*;

verus! {

/// A caller parked until the committed version reaches its target.
#[derive(Clone, Copy, PartialEq, Eq, Structural, Debug)]
pub struct Waiter {
    /// Identifier the surrounding process uses to route the resolution
    /// back to the requesting caller.
    pub id: u64,
    /// The caller is resolved once `known_version >= target_version`.
    pub target_version: u64,
}

/// One configured upstream peer and whether it is currently disfavored
/// after a recent failure.
#[derive(Clone, Copy, PartialEq, Eq, Structural, Debug)]
pub struct PeerState {
    pub id: u64,
    pub disfavored: bool,
}

/// Metadata of the single outstanding chunk request.
#[derive(Clone, Copy, PartialEq, Eq, Structural, Debug)]
pub struct InFlight {
    /// Peer the request was sent to.
    pub peer: u64,
    /// First version of the requested range.
    pub start_version: u64,
    /// How many peers have been asked for this range so far.
    pub attempts: u64,
}

/// Range of a verified chunk handed to the executor, awaiting its outcome.
#[derive(Clone, Copy, PartialEq, Eq, Structural, Debug)]
pub struct PendingApply {
    pub start_version: u64,
    pub end_version: u64,
}

/// What the coordinator reads of a chunk response: the declared range,
/// the version of the ledger target its proof resolves to, and the
/// outcome of the cryptographic proof and signature-quorum check, which
/// the surrounding process performs before handing the response over.
#[derive(Clone, Copy, PartialEq, Eq, Structural, Debug)]
pub struct ChunkInfo {
    pub start_version: u64,
    pub end_version: u64,
    pub proven_version: u64,
    pub proof_valid: bool,
}

/// A command or network outcome delivered to the coordinator.
#[derive(Clone, Copy, PartialEq, Eq, Structural, Debug)]
pub enum SyncEvent {
    /// A caller asks to sync up to a target ledger version; `header_valid`
    /// is the outcome of verifying the target's signature quorum.
    Requested { target_version: u64, header_valid: bool, waiter_id: u64 },
    /// A caller reports externally verified progress to `version`.
    Commit { version: u64 },
    /// A caller asks for the current committed version.
    GetState { waiter_id: u64 },
    /// A response to the in-flight chunk request arrived.
    ChunkResponse { chunk: ChunkInfo },
    /// The in-flight chunk request failed: peer error, malformed
    /// response, or timeout.
    ChunkFailure,
    /// The executor finished applying the chunk handed to it.
    ApplyOutcome { success: bool },
}

/// An effect the surrounding process must carry out.
#[derive(Clone, Copy, PartialEq, Eq, Structural, Debug)]
pub enum SyncAction {
    /// Send a chunk request for versions starting at `start_version`
    /// to `peer`, hinting at the highest proven target.
    SendChunkRequest { peer: u64, start_version: u64, target_hint: u64 },
    /// Resolve the parked caller `id` with the given outcome.
    ResolveWaiter { id: u64, success: bool },
    /// Answer a state query with the current committed version.
    RespondState { id: u64, version: u64 },
    /// Hand the verified chunk covering the range to the executor.
    ApplyChunk { start_version: u64, end_version: u64 },
}

/// Ghost view of the coordinator state; all contracts and laws are
/// stated over this view.
pub struct SyncView {
    /// Highest locally committed version.
    pub known_version: u64,
    /// Highest version proven by any valid target observed so far.
    pub highest_target_seen: u64,
    /// The at-most-one outstanding chunk request.
    pub in_flight: Option<InFlight>,
    /// A verified chunk currently being applied by the executor.
    pub applying: Option<PendingApply>,
    /// Parked callers, ordered by target version.
    pub waiters: Seq<Waiter>,
    /// Configured upstream peers, ordered by ascending identity.
    pub peers: Seq<PeerState>,
    /// How many peers may be asked for one range before giving up.
    pub retry_budget: u64,
}

/// Waiters are ordered by non-decreasing target version.
pub open spec fn waiters_sorted(ws: Seq<Waiter>) -> bool {
    forall|i: int, j: int|
        0 <= i < j < ws.len() ==> ws[i].target_version <= ws[j].target_version
}

/// Every parked waiter still awaits a version above `known`.
pub open spec fn waiters_above(ws: Seq<Waiter>, known: u64) -> bool {
    forall|i: int| 0 <= i < ws.len() ==> ws[i].target_version > known
}

/// Peer identities are strictly increasing, hence unique.
pub open spec fn peers_sorted(ps: Seq<PeerState>) -> bool {
    forall|i: int, j: int| 0 <= i < j < ps.len() ==> ps[i].id < ps[j].id
}

/// Well-formedness of the coordinator state. Established by the
/// constructor and preserved by every event handler.
pub open spec fn wf(v: SyncView) -> bool {
    &&& v.known_version <= v.highest_target_seen
    &&& v.retry_budget >= 1
    &&& waiters_sorted(v.waiters)
    &&& waiters_above(v.waiters, v.known_version)
    &&& peers_sorted(v.peers)
    &&& (v.in_flight is Some ==> {
        let f = v.in_flight->0;
        &&& 1 <= f.start_version <= v.known_version + 1
        &&& 1 <= f.attempts <= v.retry_budget
        &&& v.applying is None
    })
    &&& (v.applying is Some ==> {
        let a = v.applying->0;
        &&& 1 <= a.start_version <= v.known_version + 1
        &&& a.start_version <= a.end_version
        &&& a.end_version <= v.highest_target_seen
        &&& v.in_flight is None
    })
}

} // verus!
