//! Mathematical model of the coordinator: one transition function per
//! inbound event, each mapping a state view and the event's data to the
//! next state view and the sequence of actions the surrounding process
//! must carry out. The executable coordinator is proved to follow these
//! functions exactly.

use vstd::prelude::*;

use crate::types::{
    ChunkInfo, InFlight, PeerState, PendingApply, SyncAction, SyncEvent, SyncView, Waiter,
};

verus! {

pub open spec fn max_u64(a: u64, b: u64) -> u64 {
    if a >= b {
        a
    } else {
        b
    }
}

/// Length of the longest prefix of `ws` whose targets are at most `bound`.
/// On a sorted waiter sequence this is the number of waiters satisfied
/// once the committed version reaches `bound`, and also the position at
/// which a new waiter with that target is inserted.
pub open spec fn prefix_le(ws: Seq<Waiter>, bound: u64) -> nat
    decreases ws.len(),
{
    if ws.len() == 0 {
        0
    } else if ws[0].target_version <= bound {
        1 + prefix_le(ws.drop_first(), bound)
    } else {
        0
    }
}

/// Resolution actions for a batch of waiters, in order.
pub open spec fn resolve_actions(ws: Seq<Waiter>, success: bool) -> Seq<SyncAction> {
    ws.map_values(|w: Waiter| SyncAction::ResolveWaiter { id: w.id, success })
}

/// A new waiter enters the ordered waiter sequence after all waiters
/// with targets at most its own.
pub open spec fn insert_waiter(ws: Seq<Waiter>, w: Waiter) -> Seq<Waiter> {
    ws.insert(prefix_le(ws, w.target_version) as int, w)
}

/// Whether a peer may serve the next request under the given constraints:
/// optionally only peers not currently disfavored, and optionally only
/// peers with an identity above `after` (the round-robin position).
pub open spec fn peer_eligible(p: PeerState, favored_only: bool, after: Option<u64>) -> bool {
    &&& (favored_only ==> !p.disfavored)
    &&& (after is Some ==> p.id > after->0)
}

/// First peer in the sequence meeting the constraints. Peers are kept
/// sorted by ascending identity, so this is the eligible peer with the
/// smallest identity.
pub open spec fn first_eligible(ps: Seq<PeerState>, favored_only: bool, after: Option<u64>) -> Option<
    u64,
>
    decreases ps.len(),
{
    if ps.len() == 0 {
        None
    } else if peer_eligible(ps[0], favored_only, after) {
        Some(ps[0].id)
    } else {
        first_eligible(ps.drop_first(), favored_only, after)
    }
}

/// Round-robin peer choice, disfavored peers deprioritized: the next
/// peer after `after` that is not disfavored; wrapping around to the
/// smallest such peer; falling back to disfavored peers in the same
/// order only when every peer is disfavored.
pub open spec fn next_peer(ps: Seq<PeerState>, after: Option<u64>) -> Option<u64> {
    if first_eligible(ps, true, after) is Some {
        first_eligible(ps, true, after)
    } else if first_eligible(ps, true, None) is Some {
        first_eligible(ps, true, None)
    } else if first_eligible(ps, false, after) is Some {
        first_eligible(ps, false, after)
    } else {
        first_eligible(ps, false, None)
    }
}

/// Mark one peer as disfavored after it failed to serve a request.
pub open spec fn disfavor(ps: Seq<PeerState>, peer: u64) -> Seq<PeerState> {
    ps.map_values(
        |p: PeerState|
            if p.id == peer {
                PeerState { id: p.id, disfavored: true }
            } else {
                p
            },
    )
}

/// Forget all disfavor marks; done after a chunk applies successfully.
pub open spec fn clear_disfavored(ps: Seq<PeerState>) -> Seq<PeerState> {
    ps.map_values(|p: PeerState| PeerState { id: p.id, disfavored: false })
}

/// The state the coordinator starts from: seeded with the committed
/// version reported by the executor, the configured peer identities
/// (strictly ascending), and the retry budget per chunk range.
pub open spec fn spec_init(initial_version: u64, peer_ids: Seq<u64>, retry_budget: u64) -> SyncView {
    SyncView {
        known_version: initial_version,
        highest_target_seen: initial_version,
        in_flight: None,
        applying: None,
        waiters: Seq::empty(),
        peers: peer_ids.map_values(|id: u64| PeerState { id, disfavored: false }),
        retry_budget,
    }
}

/// Issue a fresh chunk request for the next contiguous range
/// `[known_version + 1, ..]`, if any peer is available.
pub open spec fn spec_issue(v: SyncView) -> (SyncView, Seq<SyncAction>) {
    match next_peer(v.peers, None) {
        Some(p) => (
            SyncView {
                in_flight: Some(
                    InFlight {
                        peer: p,
                        start_version: (v.known_version + 1) as u64,
                        attempts: 1,
                    },
                ),
                ..v
            },
            seq![
                SyncAction::SendChunkRequest {
                    peer: p,
                    start_version: (v.known_version + 1) as u64,
                    target_hint: v.highest_target_seen,
                },
            ],
        ),
        None => (v, Seq::empty()),
    }
}

/// A caller asked to sync up to `target_version`. An invalid target is
/// refused at once; a target already reached resolves at once with
/// success; otherwise the caller is parked, the highest target extends,
/// and a download starts unless one is already in flight or a chunk is
/// being applied.
pub open spec fn spec_handle_request(
    v: SyncView,
    target_version: u64,
    header_valid: bool,
    waiter_id: u64,
) -> (SyncView, Seq<SyncAction>) {
    if !header_valid {
        (v, seq![SyncAction::ResolveWaiter { id: waiter_id, success: false }])
    } else if target_version <= v.known_version {
        (v, seq![SyncAction::ResolveWaiter { id: waiter_id, success: true }])
    } else {
        let v1 = SyncView {
            highest_target_seen: max_u64(v.highest_target_seen, target_version),
            waiters: insert_waiter(v.waiters, Waiter { id: waiter_id, target_version }),
            ..v
        };
        if v.in_flight is None && v.applying is None {
            spec_issue(v1)
        } else {
            (v1, Seq::empty())
        }
    }
}

/// A caller reported externally verified progress: the committed version
/// jumps forward without any download, and every waiter whose target is
/// now reached resolves with success.
pub open spec fn spec_handle_commit(v: SyncView, version: u64) -> (SyncView, Seq<SyncAction>) {
    if version > v.known_version {
        let rc = prefix_le(v.waiters, version) as int;
        (
            SyncView {
                known_version: version,
                highest_target_seen: max_u64(v.highest_target_seen, version),
                waiters: v.waiters.skip(rc),
                ..v
            },
            resolve_actions(v.waiters.take(rc), true),
        )
    } else {
        (v, Seq::empty())
    }
}

/// A state query reads the committed version and changes nothing.
pub open spec fn spec_handle_get_state(v: SyncView, waiter_id: u64) -> (SyncView, Seq<SyncAction>) {
    (v, seq![SyncAction::RespondState { id: waiter_id, version: v.known_version }])
}

/// A chunk is accepted only if its proof and signature quorum were found
/// valid, it starts exactly one past the committed version, its range is
/// non-empty, and it is proven by a target no higher than the highest
/// target observed.
pub open spec fn spec_verify_chunk(v: SyncView, c: ChunkInfo) -> bool {
    &&& c.proof_valid
    &&& c.start_version == v.known_version + 1
    &&& c.start_version <= c.end_version
    &&& c.end_version <= c.proven_version
    &&& c.proven_version <= v.highest_target_seen
}

/// Abandon the current catch-up: every parked waiter resolves with
/// failure and the highest target falls back to the committed version,
/// the best version still known to be reachable.
pub open spec fn spec_give_up(v: SyncView) -> (SyncView, Seq<SyncAction>) {
    (
        SyncView {
            highest_target_seen: v.known_version,
            in_flight: None,
            waiters: Seq::empty(),
            ..v
        },
        resolve_actions(v.waiters, false),
    )
}

/// The in-flight request failed or returned an unacceptable chunk: the
/// peer is disfavored, and the same range is reissued to the next peer
/// in round-robin order while the retry budget lasts. A request made
/// moot by external commits is simply dropped.
pub open spec fn spec_retry(v: SyncView) -> (SyncView, Seq<SyncAction>)
    recommends
        v.in_flight is Some,
{
    let f = v.in_flight->0;
    let v1 = SyncView { peers: disfavor(v.peers, f.peer), ..v };
    if v.known_version >= v.highest_target_seen {
        (SyncView { in_flight: None, ..v1 }, Seq::empty())
    } else if f.attempts >= v.retry_budget {
        spec_give_up(v1)
    } else {
        match next_peer(v1.peers, Some(f.peer)) {
            Some(p) => (
                SyncView {
                    in_flight: Some(
                        InFlight {
                            peer: p,
                            start_version: (v.known_version + 1) as u64,
                            attempts: (f.attempts + 1) as u64,
                        },
                    ),
                    ..v1
                },
                seq![
                    SyncAction::SendChunkRequest {
                        peer: p,
                        start_version: (v.known_version + 1) as u64,
                        target_hint: v.highest_target_seen,
                    },
                ],
            ),
            None => spec_give_up(v1),
        }
    }
}

/// A response to the in-flight request arrived. An acceptable chunk is
/// handed to the executor; an unacceptable one counts as a failure of
/// the serving peer. A response with no request outstanding is stale
/// and ignored.
pub open spec fn spec_handle_chunk_response(v: SyncView, c: ChunkInfo) -> (
    SyncView,
    Seq<SyncAction>,
) {
    if v.in_flight is None {
        (v, Seq::empty())
    } else if spec_verify_chunk(v, c) {
        (
            SyncView {
                in_flight: None,
                applying: Some(
                    PendingApply { start_version: c.start_version, end_version: c.end_version },
                ),
                ..v
            },
            seq![
                SyncAction::ApplyChunk {
                    start_version: c.start_version,
                    end_version: c.end_version,
                },
            ],
        )
    } else {
        spec_retry(v)
    }
}

/// The in-flight request failed outright (peer error, malformed
/// response, or timeout).
pub open spec fn spec_handle_chunk_failure(v: SyncView) -> (SyncView, Seq<SyncAction>) {
    if v.in_flight is None {
        (v, Seq::empty())
    } else {
        spec_retry(v)
    }
}

/// The executor finished with the chunk handed to it. On success the
/// committed version advances to the chunk's end, satisfied waiters
/// resolve, disfavor marks clear, and the next range is requested if a
/// higher target is still pending. On an execution error the pending
/// targets are unreachable: all remaining waiters resolve with failure.
pub open spec fn spec_handle_apply_outcome(v: SyncView, success: bool) -> (
    SyncView,
    Seq<SyncAction>,
) {
    if v.applying is None {
        (v, Seq::empty())
    } else {
        let a = v.applying->0;
        if success {
            let known1 = max_u64(v.known_version, a.end_version);
            let rc = prefix_le(v.waiters, known1) as int;
            let v1 = SyncView {
                known_version: known1,
                applying: None,
                peers: clear_disfavored(v.peers),
                waiters: v.waiters.skip(rc),
                ..v
            };
            let acts = resolve_actions(v.waiters.take(rc), true);
            if known1 < v1.highest_target_seen {
                let issued = spec_issue(v1);
                (issued.0, acts + issued.1)
            } else {
                (v1, acts)
            }
        } else {
            (
                SyncView {
                    applying: None,
                    highest_target_seen: v.known_version,
                    waiters: Seq::empty(),
                    ..v
                },
                resolve_actions(v.waiters, false),
            )
        }
    }
}

/// On a sorted waiter sequence, `prefix_le` splits it exactly: every
/// waiter before the split has a target at most `bound`, every waiter
/// from the split on has a target above it.
pub proof fn lemma_prefix_le_char(ws: Seq<Waiter>, bound: u64)
    requires
        crate::types::waiters_sorted(ws),
    ensures
        prefix_le(ws, bound) <= ws.len(),
        forall|i: int| 0 <= i < prefix_le(ws, bound) ==> ws[i].target_version <= bound,
        forall|i: int| prefix_le(ws, bound) <= i < ws.len() ==> ws[i].target_version > bound,
    decreases ws.len(),
{
    if ws.len() == 0 {
    } else if ws[0].target_version <= bound {
        let tail = ws.drop_first();
        assert forall|i: int, j: int|
            0 <= i < j < tail.len() implies tail[i].target_version
            <= tail[j].target_version by {
            assert(tail[i] == ws[i + 1]);
            assert(tail[j] == ws[j + 1]);
        }
        lemma_prefix_le_char(tail, bound);
        let rc = prefix_le(ws, bound) as int;
        assert forall|i: int| 0 <= i < rc implies ws[i].target_version <= bound by {
            if i > 0 {
                assert(tail[i - 1] == ws[i]);
            }
        }
        assert forall|i: int| rc <= i < ws.len() implies ws[i].target_version > bound by {
            assert(tail[i - 1] == ws[i]);
        }
    } else {
        assert forall|i: int| 0 <= i < ws.len() implies ws[i].target_version > bound by {
            if i > 0 {
                assert(ws[0].target_version <= ws[i].target_version);
            }
        }
    }
}

/// Any split index with the same property as `prefix_le` is `prefix_le`.
pub proof fn lemma_prefix_le_unique(ws: Seq<Waiter>, bound: u64, k: int)
    requires
        crate::types::waiters_sorted(ws),
        0 <= k <= ws.len(),
        forall|j: int| 0 <= j < k ==> ws[j].target_version <= bound,
        k < ws.len() ==> ws[k].target_version > bound,
    ensures
        k == prefix_le(ws, bound),
{
    lemma_prefix_le_char(ws, bound);
    let rc = prefix_le(ws, bound) as int;
    if k < rc {
        assert(ws[k].target_version <= bound);
    } else if k > rc {
        assert(ws[rc].target_version <= bound);
        assert(ws[rc].target_version > bound);
    }
}

/// Dropping the satisfied prefix keeps the waiter sequence sorted and
/// leaves only waiters whose targets are above the new version.
pub proof fn lemma_skip_prefix_wf(ws: Seq<Waiter>, bound: u64)
    requires
        crate::types::waiters_sorted(ws),
    ensures
        crate::types::waiters_sorted(ws.skip(prefix_le(ws, bound) as int)),
        crate::types::waiters_above(ws.skip(prefix_le(ws, bound) as int), bound),
{
    lemma_prefix_le_char(ws, bound);
    let rc = prefix_le(ws, bound) as int;
    let rest = ws.skip(rc);
    assert forall|i: int, j: int|
        0 <= i < j < rest.len() implies rest[i].target_version <= rest[j].target_version by {
        assert(rest[i] == ws[i + rc]);
        assert(rest[j] == ws[j + rc]);
    }
    assert forall|i: int| 0 <= i < rest.len() implies rest[i].target_version > bound by {
        assert(rest[i] == ws[i + rc]);
    }
}

/// Inserting a waiter at its ordered position keeps the sequence sorted,
/// keeps every target above the committed version, places the new waiter
/// in the sequence, and keeps every waiter already there.
pub proof fn lemma_insert_waiter_wf(ws: Seq<Waiter>, w: Waiter, known: u64)
    requires
        crate::types::waiters_sorted(ws),
        crate::types::waiters_above(ws, known),
        w.target_version > known,
    ensures
        crate::types::waiters_sorted(insert_waiter(ws, w)),
        crate::types::waiters_above(insert_waiter(ws, w), known),
        insert_waiter(ws, w).len() == ws.len() + 1,
        insert_waiter(ws, w).contains(w),
        forall|i: int| 0 <= i < ws.len() ==> insert_waiter(ws, w).contains(ws[i]),
{
    lemma_prefix_le_char(ws, w.target_version);
    let pos = prefix_le(ws, w.target_version) as int;
    ws.insert_ensures(pos, w);
    let s2 = insert_waiter(ws, w);
    assert forall|i: int, j: int|
        0 <= i < j < s2.len() implies s2[i].target_version <= s2[j].target_version by {
        if i < pos {
            assert(s2[i] == ws[i]);
        }
        if j < pos {
            assert(s2[j] == ws[j]);
        }
        if i > pos {
            assert(s2[i] == ws[i - 1]);
        }
        if j > pos {
            assert(s2[j] == ws[j - 1]);
        }
    }
    assert forall|i: int| 0 <= i < s2.len() implies s2[i].target_version > known by {
        if i < pos {
            assert(s2[i] == ws[i]);
        }
        if i > pos {
            assert(s2[i] == ws[i - 1]);
        }
    }
    assert(s2[pos] == w);
    assert forall|i: int| 0 <= i < ws.len() implies s2.contains(ws[i]) by {
        if i < pos {
            assert(s2[i] == ws[i]);
        } else {
            assert(s2[i + 1] == ws[i]);
        }
    }
}

/// Disfavoring a peer and clearing disfavor marks leave the peer
/// identities, and hence their order, unchanged.
pub proof fn lemma_peer_marks_sorted(ps: Seq<PeerState>, peer: u64)
    requires
        crate::types::peers_sorted(ps),
    ensures
        crate::types::peers_sorted(disfavor(ps, peer)),
        crate::types::peers_sorted(clear_disfavored(ps)),
        disfavor(ps, peer).len() == ps.len(),
        clear_disfavored(ps).len() == ps.len(),
{
    let d = disfavor(ps, peer);
    let c = clear_disfavored(ps);
    assert forall|i: int, j: int| 0 <= i < j < d.len() implies d[i].id < d[j].id by {
        assert(d[i].id == ps[i].id);
        assert(d[j].id == ps[j].id);
    }
    assert forall|i: int, j: int| 0 <= i < j < c.len() implies c[i].id < c[j].id by {
        assert(c[i].id == ps[i].id);
        assert(c[j].id == ps[j].id);
    }
}

/// The coordinator's full transition function: one inbound event to the
/// next state and the actions to carry out.
pub open spec fn spec_step(v: SyncView, e: SyncEvent) -> (SyncView, Seq<SyncAction>) {
    match e {
        SyncEvent::Requested { target_version, header_valid, waiter_id } => spec_handle_request(
            v,
            target_version,
            header_valid,
            waiter_id,
        ),
        SyncEvent::Commit { version } => spec_handle_commit(v, version),
        SyncEvent::GetState { waiter_id } => spec_handle_get_state(v, waiter_id),
        SyncEvent::ChunkResponse { chunk } => spec_handle_chunk_response(v, chunk),
        SyncEvent::ChunkFailure => spec_handle_chunk_failure(v),
        SyncEvent::ApplyOutcome { success } => spec_handle_apply_outcome(v, success),
    }
}

} // verus!
