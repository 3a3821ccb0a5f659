//! Laws of the coordinator, proved once and for all over the model's
//! transition function: monotonicity of the committed version, gap
//! freedom of accepted chunks, the at-most-one-in-flight discipline,
//! request collapsing, and immediate resolution of already-reached
//! targets.

use vstd::prelude::*;

use crate::model::{
    clear_disfavored, disfavor, first_eligible, insert_waiter, lemma_insert_waiter_wf,
    lemma_peer_marks_sorted, lemma_prefix_le_char, lemma_skip_prefix_wf, max_u64, next_peer,
    peer_eligible, prefix_le, resolve_actions, spec_handle_apply_outcome, spec_handle_commit,
    spec_handle_request, spec_issue, spec_retry, spec_step, spec_verify_chunk,
};
use crate::types::{wf, ChunkInfo, PeerState, SyncAction, SyncEvent, SyncView, Waiter};

verus! {

/// The state after the coordinator has consumed a whole sequence of
/// events, one at a time.
pub open spec fn run_state(v: SyncView, es: Seq<SyncEvent>) -> SyncView
    decreases es.len(),
{
    if es.len() == 0 {
        v
    } else {
        run_state(spec_step(v, es[0]).0, es.drop_first())
    }
}

/// All actions the coordinator emits while consuming a whole sequence
/// of events, in order.
pub open spec fn run_actions(v: SyncView, es: Seq<SyncEvent>) -> Seq<SyncAction>
    decreases es.len(),
{
    if es.len() == 0 {
        Seq::empty()
    } else {
        spec_step(v, es[0]).1 + run_actions(spec_step(v, es[0]).0, es.drop_first())
    }
}

/// Number of chunk requests the coordinator believes to be outstanding.
pub open spec fn outstanding_requests(v: SyncView) -> nat {
    if v.in_flight is Some {
        1
    } else {
        0
    }
}

/// Number of chunk requests among a sequence of actions.
pub open spec fn count_chunk_requests(acts: Seq<SyncAction>) -> nat
    decreases acts.len(),
{
    if acts.len() == 0 {
        0
    } else {
        (if acts[0] is SendChunkRequest {
            1nat
        } else {
            0nat
        }) + count_chunk_requests(acts.drop_first())
    }
}

proof fn lemma_count_empty()
    ensures
        count_chunk_requests(Seq::<SyncAction>::empty()) == 0,
{
}

proof fn lemma_count_singleton(a: SyncAction)
    ensures
        count_chunk_requests(seq![a]) == if a is SendChunkRequest {
            1nat
        } else {
            0nat
        },
{
    lemma_count_empty();
    assert(seq![a].drop_first() =~= Seq::<SyncAction>::empty());
}

proof fn lemma_count_concat(s1: Seq<SyncAction>, s2: Seq<SyncAction>)
    ensures
        count_chunk_requests(s1 + s2) == count_chunk_requests(s1) + count_chunk_requests(s2),
    decreases s1.len(),
{
    if s1.len() == 0 {
        assert(s1 + s2 =~= s2);
    } else {
        assert((s1 + s2).drop_first() =~= s1.drop_first() + s2);
        lemma_count_concat(s1.drop_first(), s2);
    }
}

proof fn lemma_count_resolve_actions(ws: Seq<Waiter>, success: bool)
    ensures
        count_chunk_requests(resolve_actions(ws, success)) == 0,
    decreases ws.len(),
{
    if ws.len() > 0 {
        assert(resolve_actions(ws, success).drop_first() =~= resolve_actions(
            ws.drop_first(),
            success,
        ));
        lemma_count_resolve_actions(ws.drop_first(), success);
    }
}

/// One step preserves well-formedness of the coordinator state.
pub proof fn lemma_step_preserves_wf(v: SyncView, e: SyncEvent)
    requires
        wf(v),
    ensures
        wf(spec_step(v, e).0),
{
    match e {
        SyncEvent::Requested { target_version, header_valid, waiter_id } => {
            if header_valid && target_version > v.known_version {
                lemma_insert_waiter_wf(
                    v.waiters,
                    Waiter { id: waiter_id, target_version },
                    v.known_version,
                );
            }
        },
        SyncEvent::Commit { version } => {
            if version > v.known_version {
                lemma_skip_prefix_wf(v.waiters, version);
            }
        },
        SyncEvent::GetState { .. } => {},
        SyncEvent::ChunkResponse { chunk } => {
            if v.in_flight is Some && !spec_verify_chunk(v, chunk) {
                lemma_retry_preserves_wf(v);
            }
        },
        SyncEvent::ChunkFailure => {
            if v.in_flight is Some {
                lemma_retry_preserves_wf(v);
            }
        },
        SyncEvent::ApplyOutcome { success } => {
            if v.applying is Some && success {
                lemma_peer_marks_sorted(v.peers, 0);
                lemma_skip_prefix_wf(
                    v.waiters,
                    max_u64(v.known_version, v.applying->0.end_version),
                );
            }
        },
    }
}

proof fn lemma_retry_preserves_wf(v: SyncView)
    requires
        wf(v),
        v.in_flight is Some,
    ensures
        wf(spec_retry(v).0),
{
    lemma_peer_marks_sorted(v.peers, v.in_flight->0.peer);
}

/// Monotonicity, one step: no event ever decreases the committed
/// version.
pub proof fn lemma_step_monotonic(v: SyncView, e: SyncEvent)
    requires
        wf(v),
    ensures
        spec_step(v, e).0.known_version >= v.known_version,
{
}

/// Monotonicity: over any sequence of events — commits, chunk
/// applications, requests, failures — the committed version is
/// non-decreasing, and the state stays well-formed.
pub proof fn lemma_run_monotonic(v: SyncView, es: Seq<SyncEvent>)
    requires
        wf(v),
    ensures
        wf(run_state(v, es)),
        run_state(v, es).known_version >= v.known_version,
    decreases es.len(),
{
    if es.len() > 0 {
        lemma_step_preserves_wf(v, es[0]);
        lemma_step_monotonic(v, es[0]);
        lemma_run_monotonic(spec_step(v, es[0]).0, es.drop_first());
    }
}

/// No gaps: a chunk passes verification only if it starts exactly one
/// past the committed version, and a chunk is handed to the executor
/// only after passing verification.
pub proof fn lemma_no_gaps(v: SyncView, c: ChunkInfo)
    requires
        wf(v),
    ensures
        spec_verify_chunk(v, c) ==> c.start_version == v.known_version + 1,
        forall|i: int|
            0 <= i < spec_step(v, SyncEvent::ChunkResponse { chunk: c }).1.len() && spec_step(
                v,
                SyncEvent::ChunkResponse { chunk: c },
            ).1[i] is ApplyChunk ==> spec_verify_chunk(v, c),
{
    let acts = spec_step(v, SyncEvent::ChunkResponse { chunk: c }).1;
    if v.in_flight is Some && !spec_verify_chunk(v, c) {
        let f = v.in_flight->0;
        let ws = v.waiters;
        assert forall|i: int| 0 <= i < acts.len() implies !(acts[i] is ApplyChunk) by {
            if v.known_version >= v.highest_target_seen {
            } else if f.attempts >= v.retry_budget {
                assert(acts[i] == resolve_actions(ws, false)[i]);
                assert(acts[i] == SyncAction::ResolveWaiter { id: ws[i].id, success: false });
            } else {
                if next_peer(
                    disfavor(v.peers, f.peer),
                    Some(f.peer),
                ) is Some {
                } else {
                    assert(acts[i] == SyncAction::ResolveWaiter { id: ws[i].id, success: false });
                }
            }
        }
    }
}

/// At most one chunk request is ever outstanding: a step emits at most
/// one request, never emits one while a request is outstanding unless
/// this very event ends it (a response or a failure), and whenever a
/// request is emitted the next state records it as outstanding.
pub proof fn lemma_at_most_one_in_flight(v: SyncView, e: SyncEvent)
    requires
        wf(v),
    ensures
        outstanding_requests(spec_step(v, e).0) <= 1,
        count_chunk_requests(spec_step(v, e).1) <= 1,
        v.in_flight is Some && !(e is ChunkResponse) && !(e is ChunkFailure)
            ==> count_chunk_requests(spec_step(v, e).1) == 0 && spec_step(v, e).0.in_flight
            == v.in_flight,
        count_chunk_requests(spec_step(v, e).1) == 1 ==> spec_step(v, e).0.in_flight is Some,
{
    let acts = spec_step(v, e).1;
    match e {
        SyncEvent::Requested { target_version, header_valid, waiter_id } => {
            if !header_valid || target_version <= v.known_version {
                lemma_count_singleton(acts[0]);
                assert(acts =~= seq![acts[0]]);
            } else if v.in_flight is None && v.applying is None {
                lemma_issue_counts(
                    SyncView {
                        highest_target_seen: max_u64(v.highest_target_seen, target_version),
                        waiters: insert_waiter(
                            v.waiters,
                            Waiter { id: waiter_id, target_version },
                        ),
                        ..v
                    },
                );
            }
        },
        SyncEvent::Commit { version } => {
            if version > v.known_version {
                lemma_count_resolve_actions(
                    v.waiters.take(prefix_le(v.waiters, version) as int),
                    true,
                );
            }
        },
        SyncEvent::GetState { .. } => {
            lemma_count_singleton(acts[0]);
            assert(acts =~= seq![acts[0]]);
        },
        SyncEvent::ChunkResponse { chunk } => {
            if v.in_flight is Some {
                if spec_verify_chunk(v, chunk) {
                    lemma_count_singleton(acts[0]);
                    assert(acts =~= seq![acts[0]]);
                } else {
                    lemma_retry_counts(v);
                }
            }
        },
        SyncEvent::ChunkFailure => {
            if v.in_flight is Some {
                lemma_retry_counts(v);
            }
        },
        SyncEvent::ApplyOutcome { success } => {
            if v.applying is Some {
                if success {
                    let known1 = max_u64(v.known_version, v.applying->0.end_version);
                    let rc = prefix_le(v.waiters, known1) as int;
                    let resolved = resolve_actions(v.waiters.take(rc), true);
                    lemma_count_resolve_actions(v.waiters.take(rc), true);
                    if known1 < v.highest_target_seen {
                        let v1 = SyncView {
                            known_version: known1,
                            applying: None,
                            peers: clear_disfavored(v.peers),
                            waiters: v.waiters.skip(rc),
                            ..v
                        };
                        lemma_issue_counts(v1);
                        lemma_count_concat(resolved, spec_issue(v1).1);
                    }
                } else {
                    lemma_count_resolve_actions(v.waiters, false);
                }
            }
        },
    }
}

proof fn lemma_issue_counts(v: SyncView)
    ensures
        count_chunk_requests(spec_issue(v).1) <= 1,
        count_chunk_requests(spec_issue(v).1) == 1 <==> next_peer(
            v.peers,
            None,
        ) is Some,
        next_peer(v.peers, None) is Some ==> spec_issue(
            v,
        ).0.in_flight is Some,
{
    match next_peer(v.peers, None) {
        Some(p) => {
            let acts = spec_issue(v).1;
            lemma_count_singleton(acts[0]);
            assert(acts =~= seq![acts[0]]);
        },
        None => {},
    }
}

proof fn lemma_retry_counts(v: SyncView)
    requires
        wf(v),
        v.in_flight is Some,
    ensures
        count_chunk_requests(spec_retry(v).1) <= 1,
        count_chunk_requests(spec_retry(v).1) == 1 ==> spec_retry(v).0.in_flight is Some,
{
    let f = v.in_flight->0;
    let ps = disfavor(v.peers, f.peer);
    if v.known_version >= v.highest_target_seen {
    } else if f.attempts >= v.retry_budget {
        lemma_count_resolve_actions(v.waiters, false);
    } else {
        match next_peer(ps, Some(f.peer)) {
            Some(p) => {
                let acts = spec_retry(v).1;
                lemma_count_singleton(acts[0]);
                assert(acts =~= seq![acts[0]]);
            },
            None => {
                lemma_count_resolve_actions(v.waiters, false);
            },
        }
    }
}

/// Idempotent low targets: a valid sync request whose target is already
/// reached leaves the state untouched and resolves the caller at once
/// with success, issuing no chunk request.
pub proof fn lemma_idempotent_low_target(v: SyncView, target_version: u64, waiter_id: u64)
    requires
        wf(v),
        target_version <= v.known_version,
    ensures
        spec_handle_request(v, target_version, true, waiter_id).0 == v,
        spec_handle_request(v, target_version, true, waiter_id).1 == seq![
            SyncAction::ResolveWaiter { id: waiter_id, success: true },
        ],
        count_chunk_requests(spec_handle_request(v, target_version, true, waiter_id).1) == 0,
{
    lemma_count_singleton(SyncAction::ResolveWaiter { id: waiter_id, success: true });
}

/// Whether every event in the sequence is a valid sync request whose
/// target is above the given committed version.
pub open spec fn all_pending_requests(es: Seq<SyncEvent>, known: u64) -> bool {
    forall|i: int|
        #![trigger es[i]]
        0 <= i < es.len() ==> match es[i] {
            SyncEvent::Requested { target_version, header_valid, .. } => target_version > known
                && header_valid,
            _ => false,
        }
}

/// Request collapsing: while a chunk request is in flight, any number of
/// further sync requests for targets above the committed version trigger
/// no download at all; they only park their callers and extend the
/// highest target.
/// Every caller already parked stays parked, and every new caller is
/// parked under its own target.
pub proof fn lemma_request_collapsing(v: SyncView, es: Seq<SyncEvent>)
    requires
        wf(v),
        v.in_flight is Some,
        all_pending_requests(es, v.known_version),
    ensures
        wf(run_state(v, es)),
        run_state(v, es).known_version == v.known_version,
        run_state(v, es).in_flight == v.in_flight,
        count_chunk_requests(run_actions(v, es)) == 0,
        forall|w: Waiter| v.waiters.contains(w) ==> run_state(v, es).waiters.contains(w),
        forall|i: int|
            #![trigger es[i]]
            0 <= i < es.len() ==> match es[i] {
                SyncEvent::Requested { target_version, header_valid, waiter_id } => run_state(
                    v,
                    es,
                ).waiters.contains(Waiter { id: waiter_id, target_version }),
                _ => true,
            },
    decreases es.len(),
{
    if es.len() > 0 {
        let e0 = es[0];
        let v1 = spec_step(v, e0).0;
        let tail = es.drop_first();
        lemma_step_preserves_wf(v, e0);
        match e0 {
            SyncEvent::Requested { target_version, header_valid, waiter_id } => {
                let w0 = Waiter { id: waiter_id, target_version };
                lemma_insert_waiter_wf(v.waiters, w0, v.known_version);
                assert forall|i: int| #![trigger tail[i]] 0 <= i < tail.len() implies match tail[i] {
                    SyncEvent::Requested { target_version, header_valid, .. } => target_version
                        > v1.known_version && header_valid,
                    _ => false,
                } by {
                    assert(tail[i] == es[i + 1]);
                }
                lemma_request_collapsing(v1, tail);
                lemma_count_concat(spec_step(v, e0).1, run_actions(v1, tail));
                assert(run_state(v, es).waiters.contains(w0));
                assert forall|i: int| #![trigger es[i]] 0 <= i < es.len() implies match es[i] {
                    SyncEvent::Requested { target_version, header_valid, waiter_id } => run_state(
                        v,
                        es,
                    ).waiters.contains(Waiter { id: waiter_id, target_version }),
                    _ => true,
                } by {
                    if i > 0 {
                        assert(es[i] == tail[i - 1]);
                    }
                }
            },
            _ => {},
        }
    }
}

/// Request collapsing from any state: however many concurrent sync
/// requests arrive, they result in at most one chunk request — exactly
/// one when the coordinator was idle and a peer is available, none when
/// a download is already in flight — and the committed version does not
/// move until a chunk arrives.
pub proof fn lemma_concurrent_requests_one_download(v: SyncView, es: Seq<SyncEvent>)
    requires
        wf(v),
        all_pending_requests(es, v.known_version),
    ensures
        wf(run_state(v, es)),
        run_state(v, es).known_version == v.known_version,
        count_chunk_requests(run_actions(v, es)) <= 1,
        v.in_flight is Some ==> count_chunk_requests(run_actions(v, es)) == 0,
        v.in_flight is None && v.applying is None && es.len() > 0 && next_peer(
            v.peers,
            None,
        ) is Some ==> count_chunk_requests(run_actions(v, es)) == 1,
    decreases es.len(),
{
    if es.len() == 0 {
        lemma_count_empty();
    } else if v.in_flight is Some {
        lemma_request_collapsing(v, es);
    } else {
        let e0 = es[0];
        let v1 = spec_step(v, e0).0;
        let acts0 = spec_step(v, e0).1;
        let tail = es.drop_first();
        lemma_step_preserves_wf(v, e0);
        match e0 {
            SyncEvent::Requested { target_version, header_valid, waiter_id } => {
                assert forall|i: int| #![trigger tail[i]] 0 <= i < tail.len() implies match tail[i] {
                    SyncEvent::Requested { target_version, header_valid, .. } => target_version
                        > v1.known_version && header_valid,
                    _ => false,
                } by {
                    assert(tail[i] == es[i + 1]);
                }
                if v.applying is None {
                    let vm = SyncView {
                        highest_target_seen: max_u64(v.highest_target_seen, target_version),
                        waiters: insert_waiter(
                            v.waiters,
                            Waiter { id: waiter_id, target_version },
                        ),
                        ..v
                    };
                    lemma_issue_counts(vm);
                    match next_peer(v.peers, None) {
                        Some(p) => {
                            lemma_request_collapsing(v1, tail);
                            lemma_count_concat(acts0, run_actions(v1, tail));
                        },
                        None => {
                            lemma_count_empty();
                            lemma_concurrent_requests_one_download(v1, tail);
                            lemma_count_concat(acts0, run_actions(v1, tail));
                        },
                    }
                } else {
                    lemma_count_empty();
                    lemma_concurrent_requests_one_download(v1, tail);
                    lemma_count_concat(acts0, run_actions(v1, tail));
                }
            },
            _ => {},
        }
    }
}

/// On peers sorted by ascending identity, `first_eligible` picks the
/// eligible peer with the smallest identity — ties in round-robin order
/// are broken by ascending peer identity — and returns `None` exactly
/// when no peer is eligible.
pub proof fn lemma_first_eligible_minimal(ps: Seq<PeerState>, favored_only: bool, after: Option<u64>)
    requires
        crate::types::peers_sorted(ps),
    ensures
        match first_eligible(ps, favored_only, after) {
            Some(id) => exists|i: int|
                0 <= i < ps.len() && ps[i].id == id && peer_eligible(ps[i], favored_only, after)
                    && forall|j: int|
                    0 <= j < ps.len() && peer_eligible(ps[j], favored_only, after) ==> id
                        <= ps[j].id,
            None => forall|j: int| 0 <= j < ps.len() ==> !peer_eligible(ps[j], favored_only, after),
        },
    decreases ps.len(),
{
    if ps.len() == 0 {
    } else if peer_eligible(ps[0], favored_only, after) {
        assert(forall|j: int|
            0 <= j < ps.len() && peer_eligible(ps[j], favored_only, after) ==> ps[0].id
                <= ps[j].id);
    } else {
        let tail = ps.drop_first();
        assert forall|a: int, b: int| 0 <= a < b < tail.len() implies tail[a].id < tail[b].id by {
            assert(tail[a] == ps[a + 1]);
            assert(tail[b] == ps[b + 1]);
        }
        lemma_first_eligible_minimal(tail, favored_only, after);
        match first_eligible(ps, favored_only, after) {
            Some(id) => {
                let i0 = choose|i: int|
                    0 <= i < tail.len() && tail[i].id == id && peer_eligible(
                        tail[i],
                        favored_only,
                        after,
                    ) && forall|j: int|
                        0 <= j < tail.len() && peer_eligible(tail[j], favored_only, after) ==> id
                            <= tail[j].id;
                assert(ps[i0 + 1] == tail[i0]);
                assert forall|j: int|
                    0 <= j < ps.len() && peer_eligible(ps[j], favored_only, after) implies id
                    <= ps[j].id by {
                    assert(j >= 1);
                    assert(tail[j - 1] == ps[j]);
                }
            },
            None => {
                assert forall|j: int| 0 <= j < ps.len() implies !peer_eligible(
                    ps[j],
                    favored_only,
                    after,
                ) by {
                    if j >= 1 {
                        assert(tail[j - 1] == ps[j]);
                    }
                }
            },
        }
    }
}

/// Once an external commit brings the committed version past a parked
/// waiter's target, that waiter is resolved with success.
pub proof fn lemma_waiters_resolved_by_commit(v: SyncView, version: u64)
    requires
        wf(v),
    ensures
        forall|i: int|
            0 <= i < v.waiters.len() && v.waiters[i].target_version <= version
                ==> spec_handle_commit(v, version).1.contains(
                SyncAction::ResolveWaiter { id: v.waiters[i].id, success: true },
            ),
{
    if version > v.known_version {
        lemma_prefix_le_char(v.waiters, version);
        let rc = prefix_le(v.waiters, version) as int;
        let acts = spec_handle_commit(v, version).1;
        assert forall|i: int|
            0 <= i < v.waiters.len() && v.waiters[i].target_version <= version implies acts.contains(
            SyncAction::ResolveWaiter { id: v.waiters[i].id, success: true },
        ) by {
            assert(v.waiters.take(rc)[i] == v.waiters[i]);
            assert(acts[i] == SyncAction::ResolveWaiter { id: v.waiters[i].id, success: true });
        }
    }
}

/// Once a chunk applies successfully and brings the committed version
/// past a parked waiter's target, that waiter is resolved with success.
pub proof fn lemma_waiters_resolved_by_apply(v: SyncView)
    requires
        wf(v),
        v.applying is Some,
    ensures
        forall|i: int|
            0 <= i < v.waiters.len() && v.waiters[i].target_version <= max_u64(
                v.known_version,
                v.applying->0.end_version,
            ) ==> spec_handle_apply_outcome(v, true).1.contains(
                SyncAction::ResolveWaiter { id: v.waiters[i].id, success: true },
            ),
{
    let known1 = max_u64(v.known_version, v.applying->0.end_version);
    lemma_prefix_le_char(v.waiters, known1);
    let rc = prefix_le(v.waiters, known1) as int;
    let resolved = resolve_actions(v.waiters.take(rc), true);
    let acts = spec_handle_apply_outcome(v, true).1;
    assert forall|i: int|
        0 <= i < v.waiters.len() && v.waiters[i].target_version <= known1 implies acts.contains(
        SyncAction::ResolveWaiter { id: v.waiters[i].id, success: true },
    ) by {
        assert(v.waiters.take(rc)[i] == v.waiters[i]);
        assert(resolved[i] == SyncAction::ResolveWaiter { id: v.waiters[i].id, success: true });
        assert(acts[i] == resolved[i]);
    }
}

} // verus!
