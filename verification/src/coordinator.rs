//! Executable sync coordinator. Every handler is proved to follow the
//! corresponding transition function of the model exactly, and to keep
//! the state well-formed.

use vstd::prelude::*;

use crate::model::{
    clear_disfavored, disfavor, first_eligible, insert_waiter, next_peer, peer_eligible, prefix_le,
    resolve_actions, spec_give_up, spec_handle_apply_outcome, spec_handle_chunk_failure,
    spec_handle_chunk_response, spec_handle_commit, spec_handle_get_state, spec_handle_request,
    spec_init, spec_issue, spec_retry, spec_step, spec_verify_chunk,
};
use crate::model::{
    lemma_insert_waiter_wf, lemma_peer_marks_sorted, lemma_prefix_le_unique, lemma_skip_prefix_wf,
};
use crate::types::{
    waiters_sorted, wf, ChunkInfo, InFlight, PeerState, PendingApply, SyncAction, SyncEvent,
    SyncView, Waiter,
};

verus! {

/// First peer in `peers` meeting the constraints; `None` if no peer does.
fn find_peer(peers: &Vec<PeerState>, favored_only: bool, after: Option<u64>) -> (r: Option<u64>)
    ensures
        r == first_eligible(peers@, favored_only, after),
{
    let mut i: usize = 0;
    proof {
        assert(peers@.skip(0) =~= peers@);
    }
    while i < peers.len()
        invariant
            0 <= i <= peers@.len(),
            first_eligible(peers@, favored_only, after) == first_eligible(
                peers@.skip(i as int),
                favored_only,
                after,
            ),
        decreases peers@.len() - i,
    {
        let p = peers[i];
        let pass_favor = !favored_only || !p.disfavored;
        let pass_after = match after {
            Some(a) => p.id > a,
            None => true,
        };
        proof {
            assert(peers@.skip(i as int)[0] == peers@[i as int]);
        }
        if pass_favor && pass_after {
            proof {
                assert(peer_eligible(peers@[i as int], favored_only, after));
            }
            return Some(p.id);
        }
        proof {
            assert(!peer_eligible(peers@[i as int], favored_only, after));
            assert(peers@.skip(i as int).drop_first() =~= peers@.skip(i as int + 1));
        }
        i = i + 1;
    }
    proof {
        assert(peers@.skip(i as int) =~= Seq::<PeerState>::empty());
    }
    None
}

/// Round-robin peer choice with disfavored peers deprioritized.
fn next_peer_exec(peers: &Vec<PeerState>, after: Option<u64>) -> (r: Option<u64>)
    ensures
        r == next_peer(peers@, after),
{
    let r1 = find_peer(peers, true, after);
    if r1.is_some() {
        return r1;
    }
    let r2 = find_peer(peers, true, None);
    if r2.is_some() {
        return r2;
    }
    let r3 = find_peer(peers, false, after);
    if r3.is_some() {
        return r3;
    }
    find_peer(peers, false, None)
}

/// Mark the given peer as disfavored.
fn disfavor_peers(peers: &mut Vec<PeerState>, peer: u64)
    ensures
        final(peers)@ == disfavor(old(peers)@, peer),
{
    let ghost ps0 = peers@;
    let mut out: Vec<PeerState> = Vec::new();
    let mut i: usize = 0;
    proof {
        assert(out@ =~= disfavor(ps0, peer).take(0));
    }
    while i < peers.len()
        invariant
            peers@ == ps0,
            0 <= i <= ps0.len(),
            out@ == disfavor(ps0, peer).take(i as int),
        decreases ps0.len() - i,
    {
        let p = peers[i];
        if p.id == peer {
            out.push(PeerState { id: p.id, disfavored: true });
        } else {
            out.push(p);
        }
        proof {
            assert(disfavor(ps0, peer).take(i as int + 1) =~= disfavor(ps0, peer).take(
                i as int,
            ).push(disfavor(ps0, peer)[i as int]));
        }
        i = i + 1;
    }
    proof {
        assert(disfavor(ps0, peer).take(ps0.len() as int) =~= disfavor(ps0, peer));
    }
    *peers = out;
}

/// Forget all disfavor marks.
fn refavor_peers(peers: &mut Vec<PeerState>)
    ensures
        final(peers)@ == clear_disfavored(old(peers)@),
{
    let ghost ps0 = peers@;
    let mut out: Vec<PeerState> = Vec::new();
    let mut i: usize = 0;
    proof {
        assert(out@ =~= clear_disfavored(ps0).take(0));
    }
    while i < peers.len()
        invariant
            peers@ == ps0,
            0 <= i <= ps0.len(),
            out@ == clear_disfavored(ps0).take(i as int),
        decreases ps0.len() - i,
    {
        let p = peers[i];
        out.push(PeerState { id: p.id, disfavored: false });
        proof {
            assert(clear_disfavored(ps0).take(i as int + 1) =~= clear_disfavored(ps0).take(
                i as int,
            ).push(clear_disfavored(ps0)[i as int]));
        }
        i = i + 1;
    }
    proof {
        assert(clear_disfavored(ps0).take(ps0.len() as int) =~= clear_disfavored(ps0));
    }
    *peers = out;
}

/// Remove every waiter whose target is at most `bound` and emit a
/// successful resolution for each, in order.
fn split_ready(waiters: &mut Vec<Waiter>, bound: u64, actions: &mut Vec<SyncAction>)
    requires
        waiters_sorted(old(waiters)@),
    ensures
        final(waiters)@ == old(waiters)@.skip(prefix_le(old(waiters)@, bound) as int),
        final(actions)@ == old(actions)@ + resolve_actions(
            old(waiters)@.take(prefix_le(old(waiters)@, bound) as int),
            true,
        ),
{
    let ghost ws0 = waiters@;
    let mut k: usize = 0;
    while k < waiters.len() && waiters[k].target_version <= bound
        invariant
            waiters@ == ws0,
            0 <= k <= ws0.len(),
            forall|j: int| 0 <= j < k ==> ws0[j].target_version <= bound,
        decreases ws0.len() - k,
    {
        k = k + 1;
    }
    proof {
        lemma_prefix_le_unique(ws0, bound, k as int);
        assert(ws0.take(0) =~= Seq::<Waiter>::empty());
        assert(actions@ =~= actions@ + resolve_actions(ws0.take(0), true));
    }
    let mut i: usize = 0;
    while i < k
        invariant
            waiters@ == ws0,
            0 <= i <= k <= ws0.len(),
            actions@ == old(actions)@ + resolve_actions(ws0.take(i as int), true),
        decreases k - i,
    {
        let w = waiters[i];
        actions.push(SyncAction::ResolveWaiter { id: w.id, success: true });
        proof {
            assert(resolve_actions(ws0.take(i as int + 1), true) =~= resolve_actions(
                ws0.take(i as int),
                true,
            ).push(SyncAction::ResolveWaiter { id: ws0[i as int].id, success: true }));
        }
        i = i + 1;
    }
    let mut rest: Vec<Waiter> = Vec::new();
    let mut j: usize = k;
    proof {
        assert(rest@ =~= ws0.subrange(k as int, k as int));
    }
    while j < waiters.len()
        invariant
            waiters@ == ws0,
            k <= j <= ws0.len(),
            rest@ == ws0.subrange(k as int, j as int),
        decreases ws0.len() - j,
    {
        let w = waiters[j];
        rest.push(w);
        proof {
            assert(ws0.subrange(k as int, j as int + 1) =~= ws0.subrange(k as int, j as int).push(
                ws0[j as int],
            ));
        }
        j = j + 1;
    }
    proof {
        assert(ws0.skip(k as int) =~= ws0.subrange(k as int, ws0.len() as int));
    }
    *waiters = rest;
}

/// Remove every waiter and emit a resolution with the given outcome for
/// each, in order.
fn resolve_all(waiters: &mut Vec<Waiter>, success: bool, actions: &mut Vec<SyncAction>)
    ensures
        final(waiters)@ == Seq::<Waiter>::empty(),
        final(actions)@ == old(actions)@ + resolve_actions(old(waiters)@, success),
{
    let ghost ws0 = waiters@;
    let mut i: usize = 0;
    proof {
        assert(ws0.take(0) =~= Seq::<Waiter>::empty());
        assert(actions@ =~= actions@ + resolve_actions(ws0.take(0), success));
    }
    while i < waiters.len()
        invariant
            waiters@ == ws0,
            0 <= i <= ws0.len(),
            actions@ == old(actions)@ + resolve_actions(ws0.take(i as int), success),
        decreases ws0.len() - i,
    {
        let w = waiters[i];
        actions.push(SyncAction::ResolveWaiter { id: w.id, success });
        proof {
            assert(resolve_actions(ws0.take(i as int + 1), success) =~= resolve_actions(
                ws0.take(i as int),
                success,
            ).push(SyncAction::ResolveWaiter { id: ws0[i as int].id, success }));
        }
        i = i + 1;
    }
    proof {
        assert(ws0.take(ws0.len() as int) =~= ws0);
    }
    waiters.clear();
}

/// Park a waiter at its ordered position.
fn insert_parked(waiters: &mut Vec<Waiter>, w: Waiter)
    requires
        waiters_sorted(old(waiters)@),
    ensures
        final(waiters)@ == insert_waiter(old(waiters)@, w),
{
    let ghost ws0 = waiters@;
    let mut k: usize = 0;
    while k < waiters.len() && waiters[k].target_version <= w.target_version
        invariant
            waiters@ == ws0,
            0 <= k <= ws0.len(),
            forall|j: int| 0 <= j < k ==> ws0[j].target_version <= w.target_version,
        decreases ws0.len() - k,
    {
        k = k + 1;
    }
    proof {
        lemma_prefix_le_unique(ws0, w.target_version, k as int);
    }
    waiters.insert(k, w);
}

/// The sync coordinator: the single owner of all synchronization state.
/// The surrounding process feeds it one event at a time and carries out
/// the actions each handler returns.
pub struct SyncCoordinator {
    /// Highest locally committed version.
    pub known_version: u64,
    /// Highest version proven by any valid target observed so far.
    pub highest_target_seen: u64,
    /// The at-most-one outstanding chunk request.
    pub in_flight: Option<InFlight>,
    /// A verified chunk currently being applied by the executor.
    pub applying: Option<PendingApply>,
    /// Parked callers, ordered by target version.
    pub waiters: Vec<Waiter>,
    /// Configured upstream peers, ordered by ascending identity.
    pub peers: Vec<PeerState>,
    /// How many peers may be asked for one range before giving up.
    pub retry_budget: u64,
}

impl View for SyncCoordinator {
    type V = SyncView;

    open spec fn view(&self) -> SyncView {
        SyncView {
            known_version: self.known_version,
            highest_target_seen: self.highest_target_seen,
            in_flight: self.in_flight,
            applying: self.applying,
            waiters: self.waiters@,
            peers: self.peers@,
            retry_budget: self.retry_budget,
        }
    }
}

impl SyncCoordinator {
    /// Start the coordinator at the committed version reported by the
    /// executor, with the configured upstream peers (identities strictly
    /// ascending) and the retry budget per chunk range.
    pub fn new(initial_version: u64, peer_ids: &Vec<u64>, retry_budget: u64) -> (c: SyncCoordinator)
        requires
            retry_budget >= 1,
            forall|i: int, j: int| 0 <= i < j < peer_ids@.len() ==> peer_ids@[i] < peer_ids@[j],
        ensures
            c@ == spec_init(initial_version, peer_ids@, retry_budget),
            wf(c@),
    {
        let ghost target_peers = spec_init(initial_version, peer_ids@, retry_budget).peers;
        let mut peers: Vec<PeerState> = Vec::new();
        let mut i: usize = 0;
        proof {
            assert(peers@ =~= target_peers.take(0));
        }
        while i < peer_ids.len()
            invariant
                target_peers == spec_init(initial_version, peer_ids@, retry_budget).peers,
                0 <= i <= peer_ids@.len(),
                peers@ == target_peers.take(i as int),
            decreases peer_ids@.len() - i,
        {
            peers.push(PeerState { id: peer_ids[i], disfavored: false });
            proof {
                assert(target_peers.take(i as int + 1) =~= target_peers.take(i as int).push(
                    target_peers[i as int],
                ));
            }
            i = i + 1;
        }
        proof {
            assert(target_peers.take(peer_ids@.len() as int) =~= target_peers);
        }
        let c = SyncCoordinator {
            known_version: initial_version,
            highest_target_seen: initial_version,
            in_flight: None,
            applying: None,
            waiters: Vec::new(),
            peers,
            retry_budget,
        };
        proof {
            assert forall|a: int, b: int| 0 <= a < b < c@.peers.len() implies c@.peers[a].id
                < c@.peers[b].id by {
                assert(c@.peers[a].id == peer_ids@[a]);
                assert(c@.peers[b].id == peer_ids@[b]);
            }
        }
        c
    }

    /// The current committed version, as reported to state queries.
    pub fn get_state(&self) -> (version: u64)
        ensures
            version == self@.known_version,
    {
        self.known_version
    }

    /// Whether a chunk response is acceptable in the current state:
    /// valid proof and quorum, contiguous with the committed version,
    /// non-empty, and proven by a target at most the highest observed.
    pub fn verify_chunk(&self, chunk: &ChunkInfo) -> (ok: bool)
        ensures
            ok == spec_verify_chunk(self@, *chunk),
    {
        chunk.proof_valid && chunk.start_version >= 1 && chunk.start_version - 1
            == self.known_version && chunk.start_version <= chunk.end_version && chunk.end_version
            <= chunk.proven_version && chunk.proven_version <= self.highest_target_seen
    }

    /// Issue a chunk request for the next contiguous range, if a peer is
    /// available.
    fn issue_request(&mut self, actions: &mut Vec<SyncAction>)
        requires
            wf(old(self)@),
            old(self)@.in_flight is None,
            old(self)@.applying is None,
            old(self)@.known_version < old(self)@.highest_target_seen,
        ensures
            wf(final(self)@),
            final(self)@ == spec_issue(old(self)@).0,
            final(actions)@ == old(actions)@ + spec_issue(old(self)@).1,
    {
        match next_peer_exec(&self.peers, None) {
            Some(p) => {
                let start = self.known_version + 1;
                self.in_flight = Some(InFlight { peer: p, start_version: start, attempts: 1 });
                actions.push(
                    SyncAction::SendChunkRequest {
                        peer: p,
                        start_version: start,
                        target_hint: self.highest_target_seen,
                    },
                );
                proof {
                    assert(actions@ =~= old(actions)@ + spec_issue(old(self)@).1);
                }
            },
            None => {
                proof {
                    assert(actions@ =~= old(actions)@ + spec_issue(old(self)@).1);
                }
            },
        }
    }

    /// Handle a sync request up to `target_version`, where `header_valid`
    /// is the outcome of verifying the target's signature quorum and
    /// `waiter_id` routes the resolution back to the caller.
    pub fn handle_request(
        &mut self,
        target_version: u64,
        header_valid: bool,
        waiter_id: u64,
    ) -> (actions: Vec<SyncAction>)
        requires
            wf(old(self)@),
        ensures
            wf(final(self)@),
            final(self)@.known_version == old(self)@.known_version,
            final(self)@ == spec_handle_request(
                old(self)@,
                target_version,
                header_valid,
                waiter_id,
            ).0,
            actions@ == spec_handle_request(old(self)@, target_version, header_valid, waiter_id).1,
    {
        let mut actions: Vec<SyncAction> = Vec::new();
        if !header_valid {
            actions.push(SyncAction::ResolveWaiter { id: waiter_id, success: false });
            return actions;
        }
        if target_version <= self.known_version {
            actions.push(SyncAction::ResolveWaiter { id: waiter_id, success: true });
            return actions;
        }
        if target_version > self.highest_target_seen {
            self.highest_target_seen = target_version;
        }
        proof {
            lemma_insert_waiter_wf(
                old(self)@.waiters,
                Waiter { id: waiter_id, target_version },
                old(self)@.known_version,
            );
        }
        insert_parked(&mut self.waiters, Waiter { id: waiter_id, target_version });
        if self.in_flight.is_none() && self.applying.is_none() {
            self.issue_request(&mut actions);
        }
        actions
    }

    /// Handle an external commit notification: progress to `version`
    /// verified elsewhere, needing no download.
    pub fn handle_commit(&mut self, version: u64) -> (actions: Vec<SyncAction>)
        requires
            wf(old(self)@),
        ensures
            wf(final(self)@),
            final(self)@.known_version == crate::model::max_u64(old(self)@.known_version, version),
            final(self)@ == spec_handle_commit(old(self)@, version).0,
            actions@ == spec_handle_commit(old(self)@, version).1,
    {
        let mut actions: Vec<SyncAction> = Vec::new();
        if version > self.known_version {
            self.known_version = version;
            if version > self.highest_target_seen {
                self.highest_target_seen = version;
            }
            proof {
                lemma_skip_prefix_wf(old(self)@.waiters, version);
            }
            split_ready(&mut self.waiters, version, &mut actions);
        }
        actions
    }

    /// Handle a state query.
    pub fn handle_get_state(&self, waiter_id: u64) -> (actions: Vec<SyncAction>)
        ensures
            actions@ == spec_handle_get_state(self@, waiter_id).1,
    {
        let mut actions: Vec<SyncAction> = Vec::new();
        actions.push(SyncAction::RespondState { id: waiter_id, version: self.known_version });
        actions
    }

    /// Abandon the current catch-up: resolve every parked waiter with
    /// failure and fall the highest target back to the committed version.
    fn give_up(&mut self, actions: &mut Vec<SyncAction>)
        ensures
            final(self)@ == spec_give_up(old(self)@).0,
            final(actions)@ == old(actions)@ + spec_give_up(old(self)@).1,
    {
        self.highest_target_seen = self.known_version;
        self.in_flight = None;
        resolve_all(&mut self.waiters, false, actions);
    }

    /// The in-flight request failed or returned an unacceptable chunk:
    /// disfavor the peer and reissue or give up.
    fn retry(&mut self, actions: &mut Vec<SyncAction>)
        requires
            wf(old(self)@),
            old(self)@.in_flight is Some,
        ensures
            wf(final(self)@),
            final(self)@ == spec_retry(old(self)@).0,
            final(actions)@ == old(actions)@ + spec_retry(old(self)@).1,
    {
        proof {
            lemma_peer_marks_sorted(old(self)@.peers, old(self)@.in_flight->0.peer);
        }
        if let Some(f) = self.in_flight {
            disfavor_peers(&mut self.peers, f.peer);
            if self.known_version >= self.highest_target_seen {
                self.in_flight = None;
                proof {
                    assert(actions@ =~= actions@ + spec_retry(old(self)@).1);
                }
            } else if f.attempts >= self.retry_budget {
                self.give_up(actions);
            } else {
                match next_peer_exec(&self.peers, Some(f.peer)) {
                    Some(p) => {
                        let start = self.known_version + 1;
                        self.in_flight = Some(
                            InFlight { peer: p, start_version: start, attempts: f.attempts + 1 },
                        );
                        actions.push(
                            SyncAction::SendChunkRequest {
                                peer: p,
                                start_version: start,
                                target_hint: self.highest_target_seen,
                            },
                        );
                        proof {
                            assert(actions@ =~= old(actions)@ + spec_retry(old(self)@).1);
                        }
                    },
                    None => {
                        self.in_flight = None;
                        self.give_up(actions);
                    },
                }
            }
        }
    }

    /// Handle a response to the in-flight chunk request. An acceptable
    /// chunk goes to the executor; an unacceptable one counts as a peer
    /// failure; a response with no request outstanding is ignored.
    pub fn handle_chunk_response(&mut self, chunk: ChunkInfo) -> (actions: Vec<SyncAction>)
        requires
            wf(old(self)@),
        ensures
            wf(final(self)@),
            final(self)@.known_version == old(self)@.known_version,
            final(self)@ == spec_handle_chunk_response(old(self)@, chunk).0,
            actions@ == spec_handle_chunk_response(old(self)@, chunk).1,
    {
        let mut actions: Vec<SyncAction> = Vec::new();
        if self.in_flight.is_none() {
            return actions;
        }
        if self.verify_chunk(&chunk) {
            self.in_flight = None;
            self.applying = Some(
                PendingApply {
                    start_version: chunk.start_version,
                    end_version: chunk.end_version,
                },
            );
            actions.push(
                SyncAction::ApplyChunk {
                    start_version: chunk.start_version,
                    end_version: chunk.end_version,
                },
            );
        } else {
            self.retry(&mut actions);
        }
        actions
    }

    /// Handle an outright failure of the in-flight chunk request: peer
    /// error, malformed response, or timeout.
    pub fn handle_chunk_failure(&mut self) -> (actions: Vec<SyncAction>)
        requires
            wf(old(self)@),
        ensures
            wf(final(self)@),
            final(self)@ == spec_handle_chunk_failure(old(self)@).0,
            actions@ == spec_handle_chunk_failure(old(self)@).1,
    {
        let mut actions: Vec<SyncAction> = Vec::new();
        if self.in_flight.is_some() {
            self.retry(&mut actions);
        }
        actions
    }

    /// Handle the executor's outcome for the chunk handed to it.
    pub fn handle_apply_outcome(&mut self, success: bool) -> (actions: Vec<SyncAction>)
        requires
            wf(old(self)@),
        ensures
            wf(final(self)@),
            old(self)@.applying is Some && success ==> final(self)@.known_version
                == crate::model::max_u64(
                old(self)@.known_version,
                old(self)@.applying->0.end_version,
            ),
            final(self)@ == spec_handle_apply_outcome(old(self)@, success).0,
            actions@ == spec_handle_apply_outcome(old(self)@, success).1,
    {
        let mut actions: Vec<SyncAction> = Vec::new();
        if let Some(a) = self.applying {
            self.applying = None;
            if success {
                if a.end_version > self.known_version {
                    self.known_version = a.end_version;
                }
                proof {
                    lemma_peer_marks_sorted(old(self)@.peers, 0);
                    lemma_skip_prefix_wf(old(self)@.waiters, self.known_version);
                }
                refavor_peers(&mut self.peers);
                split_ready(&mut self.waiters, self.known_version, &mut actions);
                if self.known_version < self.highest_target_seen {
                    self.issue_request(&mut actions);
                }
            } else {
                self.highest_target_seen = self.known_version;
                resolve_all(&mut self.waiters, false, &mut actions);
            }
        }
        actions
    }

    /// Process one inbound event: the coordinator's single entry point,
    /// following the model's transition function exactly.
    pub fn step(&mut self, event: SyncEvent) -> (actions: Vec<SyncAction>)
        requires
            wf(old(self)@),
        ensures
            wf(final(self)@),
            final(self)@.known_version >= old(self)@.known_version,
            final(self)@ == spec_step(old(self)@, event).0,
            actions@ == spec_step(old(self)@, event).1,
    {
        match event {
            SyncEvent::Requested { target_version, header_valid, waiter_id } => self.handle_request(
                target_version,
                header_valid,
                waiter_id,
            ),
            SyncEvent::Commit { version } => self.handle_commit(version),
            SyncEvent::GetState { waiter_id } => self.handle_get_state(waiter_id),
            SyncEvent::ChunkResponse { chunk } => self.handle_chunk_response(chunk),
            SyncEvent::ChunkFailure => self.handle_chunk_failure(),
            SyncEvent::ApplyOutcome { success } => self.handle_apply_outcome(success),
        }
    }
}

} // verus!
