use vstd::prelude::*;

use crate::base58::base58_decode;
use crate::base58::base58_decoded;
use crate::commitment::CommitmentLevel;
use crate::confirmation::ConfirmationStatus;
use crate::confirmation::ConfirmationTracker;
use crate::confirmation::TrackedHandle;
use crate::confirmation::wf_tracker;
use crate::errors::ForwardError;
use crate::errors::RpcError;
use crate::pool::busy_count;
use crate::pool::conn_index;
use crate::pool::ConnectionPool;
use crate::pool::fresh_conn;
use crate::pool::idle_index;
use crate::pool::lemma_busy_count_push;
use crate::pool::lemma_busy_count_remove;
use crate::pool::lemma_busy_count_update;
use crate::pool::lemma_conn_index;
use crate::pool::lemma_evict_retires;
use crate::pool::lemma_idle_index;
use crate::pool::mark_busy;
use crate::pool::mark_idle;
use crate::pool::PoolModel;
use crate::pool::spec_acquire;
use crate::pool::spec_evict;
use crate::pool::spec_release;
use crate::pool::wf_model;
use crate::transaction::SignedTransaction;
use crate::transaction::SubmissionHandle;

verus! {

/// Optional send configuration accompanying an inbound `SendTransaction`
/// request.
pub struct SendTransactionConfig {}

/// Method name of an inbound RPC request: a closed enumeration, matched
/// exhaustively by the gateway.
#[derive(Clone, Copy, Debug, PartialEq, Eq, Structural)]
pub enum RpcMethod {
    SendTransaction,
    RequestAirdrop,
}

/// What the transport observed while one payload was dispatched: whether
/// a new connection could be established (consulted only when no idle
/// connection was available) and whether the wire payload was accepted
/// for sending. Delivery itself is fire-and-forget: the transport gives
/// no acknowledgment, and only confirmation tracking tells whether a
/// transaction landed.
#[derive(Clone, Copy, Debug, PartialEq, Eq, Structural)]
pub struct TransportEvent {
    pub connect_ok: bool,
    pub send_ok: bool,
}

/// What forwarding one transaction does: acquire a connection to `addr`,
/// hand the payload to the transport, and release the connection — except
/// that a connection whose send failed is evicted, never returned to the
/// idle set. The submission handle is derived from `signature` before the
/// send, so a dispatched transaction always gets its handle.
pub open spec fn spec_forward(
    m: PoolModel,
    addr: u64,
    signature: u64,
    now: u64,
    ev: TransportEvent,
) -> (PoolModel, Result<SubmissionHandle, ForwardError>) {
    let (m1, ar) = spec_acquire(m, addr, now, ev.connect_ok);
    match ar {
        Err(e) => (m1, Err(e)),
        Ok(id) => if ev.send_ok {
            (spec_release(m1, id, now), Ok(SubmissionHandle { id: signature }))
        } else {
            (spec_evict(m1, id), Err(ForwardError::SendFailed))
        },
    }
}

/// What forwarding a batch does: each transaction is forwarded in input
/// order, one result per transaction, failures affecting no other
/// transaction of the batch.
pub open spec fn spec_forward_batch(
    m: PoolModel,
    addr: u64,
    txs: Seq<SignedTransaction>,
    evs: Seq<TransportEvent>,
    now: u64,
) -> (PoolModel, Seq<Result<SubmissionHandle, ForwardError>>)
    decreases txs.len(),
{
    if txs.len() == 0 {
        (m, Seq::empty())
    } else {
        let (m1, rs) = spec_forward_batch(m, addr, txs.drop_last(), evs.drop_last(), now);
        let (m2, r) = spec_forward(m1, addr, txs.last().signature, now, evs.last());
        (m2, rs.push(r))
    }
}

/// Connections are held only for the scope of one dispatch: whatever the
/// outcome, forwarding hands its connection back (releasing it, or
/// evicting it after a failed send), so the number of busy connections is
/// the same before and after, and the pool invariant is preserved.
pub proof fn lemma_forward_scoped_acquisition(
    m: PoolModel,
    addr: u64,
    signature: u64,
    now: u64,
    ev: TransportEvent,
)
    requires
        wf_model(m),
        m.next_id < u64::MAX as int,
    ensures
        ({
            let (m2, r) = spec_forward(m, addr, signature, now, ev);
            &&& wf_model(m2)
            &&& busy_count(m2.conns) == busy_count(m.conns)
            &&& m2.capacity == m.capacity
        }),
{
    lemma_idle_index(m.conns, addr);
    let (m1, ar) = spec_acquire(m, addr, now, ev.connect_ok);
    let i = idle_index(m.conns, addr);
    match ar {
        Err(_) => {},
        Ok(id) => {
            if i >= 0 {
                lemma_busy_count_update(m.conns, i, mark_busy(m.conns[i]));
                assert(forall|k: int|
                    0 <= k < m1.conns.len() ==> m1.conns[k].id == m.conns[k].id);
            } else {
                lemma_busy_count_push(m.conns, fresh_conn(m.next_id as u64, addr, now));
            }
            assert(wf_model(m1));
            lemma_conn_index(m1.conns, id);
            let j = conn_index(m1.conns, id);
            if i >= 0 {
                assert(m1.conns[i].id == id);
                assert(j >= 0);
                assert(j == i);
            } else {
                assert(m1.conns[m.conns.len() as int].id == id);
                assert(j >= 0);
                assert(j == m.conns.len());
            }
            assert(m1.conns[j].busy);
            if ev.send_ok {
                lemma_busy_count_update(m1.conns, j, mark_idle(m1.conns[j], now));
            } else {
                lemma_busy_count_remove(m1.conns, j);
                lemma_evict_retires(m1, id);
            }
        },
    }
}

/// The handles of the successfully dispatched transactions of a batch, in
/// batch order.
pub open spec fn ok_handles(rs: Seq<Result<SubmissionHandle, ForwardError>>) -> Seq<
    SubmissionHandle,
>
    decreases rs.len(),
{
    if rs.len() == 0 {
        Seq::empty()
    } else {
        let rest = ok_handles(rs.drop_last());
        match rs.last() {
            Ok(h) => rest.push(h),
            Err(_) => rest,
        }
    }
}

/// Forwarding a batch yields exactly one result per transaction.
pub proof fn lemma_forward_batch_len(
    m: PoolModel,
    addr: u64,
    txs: Seq<SignedTransaction>,
    evs: Seq<TransportEvent>,
    now: u64,
)
    ensures
        spec_forward_batch(m, addr, txs, evs, now).1.len() == txs.len(),
    decreases txs.len(),
{
    if txs.len() > 0 {
        lemma_forward_batch_len(m, addr, txs.drop_last(), evs.drop_last(), now);
    }
}

/// Forwarding a batch yields exactly one result per transaction, in input
/// order, and a successful result carries the handle derived from that
/// transaction's own signature.
pub proof fn lemma_forward_batch_pointwise(
    m: PoolModel,
    addr: u64,
    txs: Seq<SignedTransaction>,
    evs: Seq<TransportEvent>,
    now: u64,
    i: int,
)
    requires
        evs.len() == txs.len(),
        0 <= i < txs.len(),
    ensures
        ({
            let (m2, rs) = spec_forward_batch(m, addr, txs, evs, now);
            &&& rs.len() == txs.len()
            &&& (rs[i] matches Ok(h) ==> h == txs[i].handle_spec())
        }),
    decreases txs.len(),
{
    lemma_forward_batch_len(m, addr, txs.drop_last(), evs.drop_last(), now);
    if i < txs.len() - 1 {
        lemma_forward_batch_pointwise(m, addr, txs.drop_last(), evs.drop_last(), now, i);
        assert(txs.drop_last()[i] == txs[i]);
    }
}

/// Transactions with distinct signatures receive distinct submission
/// handles: a handle is never shared by two transactions of a batch.
pub proof fn lemma_forward_handles_unique(
    m: PoolModel,
    addr: u64,
    txs: Seq<SignedTransaction>,
    evs: Seq<TransportEvent>,
    now: u64,
    i: int,
    j: int,
)
    requires
        evs.len() == txs.len(),
        0 <= i < txs.len(),
        0 <= j < txs.len(),
        i != j,
        txs[i].signature != txs[j].signature,
    ensures
        ({
            let (m2, rs) = spec_forward_batch(m, addr, txs, evs, now);
            rs[i] matches Ok(hi) ==> (rs[j] matches Ok(hj) ==> hi != hj)
        }),
{
    lemma_forward_batch_pointwise(m, addr, txs, evs, now, i);
    lemma_forward_batch_pointwise(m, addr, txs, evs, now, j);
}

/// Decode the base-58 payload of an inbound `SendTransaction` request
/// into wire-format bytes. A malformed payload is rejected here, before
/// any network operation.
pub fn decode_transaction_payload(encoded: &String) -> (r: Result<Vec<u8>, RpcError>)
    ensures
        match r {
            Ok(v) => base58_decoded(encoded@) == Some(v@),
            Err(e) => e == RpcError::DecodeFailed && base58_decoded(encoded@) is None,
        },
{
    match base58_decode(encoded) {
        Some(v) => Ok(v),
        None => Err(RpcError::DecodeFailed),
    }
}

/// What serving a `SendTransaction` request does, given what base-58
/// decoding yields for its payload: a malformed payload is rejected with
/// `DecodeFailed` and the pool untouched; otherwise the wire bytes are
/// forwarded and the handle derived from `signature` is returned.
pub open spec fn spec_send_encoded(
    m: PoolModel,
    decoded: Option<Seq<u8>>,
    addr: u64,
    signature: u64,
    now: u64,
    ev: TransportEvent,
) -> (PoolModel, Result<SubmissionHandle, RpcError>) {
    match decoded {
        None => (m, Err(RpcError::DecodeFailed)),
        Some(wire) => {
            let (m2, r) = spec_forward(m, addr, signature, now, ev);
            (
                m2,
                match r {
                    Ok(h) => Ok(h),
                    Err(e) => Err(RpcError::Forward(e)),
                },
            )
        },
    }
}

/// Composes the connection pool, the forwarding engine and the
/// confirmation tracker behind one request/response surface: the only
/// entry point an RPC framing layer needs. Pooled connections and polling
/// state never cross this boundary.
pub struct Gateway {
    /// The single shared mutable resource; constructor-injected, never
    /// ambient process-wide state.
    pub pool: ConnectionPool,
    /// Destination address transactions are submitted to; immutable once
    /// configured.
    pub endpoint: u64,
}

impl Gateway {
    pub open spec fn wf(self) -> bool {
        wf_model(self.pool@)
    }

    /// A gateway whose pool will never hold more than `pool_capacity`
    /// connections at once.
    pub fn new(endpoint: u64, pool_capacity: usize) -> (g: Gateway)
        ensures
            g.wf(),
            g.endpoint == endpoint,
            g.pool@.capacity == pool_capacity as int,
            g.pool@.next_id == 0,
            g.pool@.conns.len() == 0,
    {
        Gateway { pool: ConnectionPool::new(pool_capacity), endpoint }
    }

    /// Dispatch one wire payload: acquire a connection to the configured
    /// endpoint, hand the payload to the transport, release the
    /// connection (evicting it when the send failed), and return the
    /// handle `signature`. `ev` reports what the transport observed.
    fn dispatch(&mut self, signature: u64, now: u64, ev: TransportEvent) -> (r: Result<
        SubmissionHandle,
        ForwardError,
    >)
        requires
            old(self).wf(),
            old(self).pool@.next_id < u64::MAX as int,
        ensures
            final(self).wf(),
            final(self).endpoint == old(self).endpoint,
            ({
                let (m2, r2) = spec_forward(old(self).pool@, old(self).endpoint, signature, now, ev);
                final(self).pool@ == m2 && r == r2
            }),
    {
        let endpoint = self.endpoint;
        match self.pool.acquire(endpoint, now, ev.connect_ok) {
            Err(e) => Err(e),
            Ok(id) => {
                if ev.send_ok {
                    self.pool.release(id, now);
                    Ok(SubmissionHandle { id: signature })
                } else {
                    self.pool.evict(id);
                    Err(ForwardError::SendFailed)
                }
            },
        }
    }

    /// Forward one signed transaction. The submission handle is derived
    /// from the transaction's signature before the send, independent of
    /// delivery success; `ConnectFailed`, `SendFailed` and `PoolExhausted`
    /// report the dispatch failures, none retried internally.
    pub fn forward_transaction(&mut self, tx: &SignedTransaction, now: u64, ev: TransportEvent) -> (r:
        Result<SubmissionHandle, ForwardError>)
        requires
            old(self).wf(),
            old(self).pool@.next_id < u64::MAX as int,
        ensures
            final(self).wf(),
            final(self).endpoint == old(self).endpoint,
            ({
                let (m2, r2) = spec_forward(
                    old(self).pool@,
                    old(self).endpoint,
                    tx.signature,
                    now,
                    ev,
                );
                final(self).pool@ == m2 && r == r2
            }),
    {
        self.dispatch(tx.signature, now, ev)
    }

    /// Forward a batch of signed transactions: exactly one result per
    /// transaction, in input order, each either the transaction's own
    /// submission handle or a `ForwardError`; a failed dispatch affects
    /// no other transaction of the batch. `evs[i]` reports what the
    /// transport observed for `txs[i]`.
    pub fn forward_transactions(
        &mut self,
        txs: &Vec<SignedTransaction>,
        evs: &Vec<TransportEvent>,
        now: u64,
    ) -> (rs: Vec<Result<SubmissionHandle, ForwardError>>)
        requires
            old(self).wf(),
            evs@.len() == txs@.len(),
            old(self).pool@.next_id + txs@.len() <= u64::MAX as int,
        ensures
            final(self).wf(),
            final(self).endpoint == old(self).endpoint,
            rs@.len() == txs@.len(),
            ({
                let (m2, rs2) = spec_forward_batch(
                    old(self).pool@,
                    old(self).endpoint,
                    txs@,
                    evs@,
                    now,
                );
                final(self).pool@ == m2 && rs@ == rs2
            }),
    {
        let n = txs.len();
        let mut rs: Vec<Result<SubmissionHandle, ForwardError>> = Vec::new();
        let mut i: usize = 0;
        while i < n
            invariant
                wf_model(self.pool@),
                self.endpoint == old(self).endpoint,
                n == txs@.len(),
                evs@.len() == txs@.len(),
                i <= n,
                rs@.len() == i as int,
                old(self).pool@.next_id + txs@.len() <= u64::MAX as int,
                self.pool@.next_id <= old(self).pool@.next_id + i,
                ({
                    let (m1, rs1) = spec_forward_batch(
                        old(self).pool@,
                        old(self).endpoint,
                        txs@.take(i as int),
                        evs@.take(i as int),
                        now,
                    );
                    self.pool@ == m1 && rs@ == rs1
                }),
            decreases n - i,
        {
            let ghost prev = self.pool@;
            let r = self.forward_transaction(&txs[i], now, evs[i]);
            rs.push(r);
            i += 1;
            proof {
                assert(txs@.take(i as int).drop_last() =~= txs@.take(i as int - 1));
                assert(evs@.take(i as int).drop_last() =~= evs@.take(i as int - 1));
                assert(txs@.take(i as int).last() == txs@[i as int - 1]);
                assert(evs@.take(i as int).last() == evs@[i as int - 1]);
                let (m2, r2) = spec_forward(
                    prev,
                    old(self).endpoint,
                    txs@[i as int - 1].signature,
                    now,
                    evs@[i as int - 1],
                );
                assert(self.pool@ == m2 && r == r2);
                let (ma, ar) = spec_acquire(
                    prev,
                    old(self).endpoint,
                    now,
                    evs@[i as int - 1].connect_ok,
                );
                assert(ma.next_id <= prev.next_id + 1);
                assert(m2.next_id <= prev.next_id + 1);
            }
        }
        proof {
            assert(txs@.take(n as int) =~= txs@);
            assert(evs@.take(n as int) =~= evs@);
        }
        rs
    }

    /// Forward the batch, then begin confirmation tracking at `commitment`
    /// for every handle that was produced. Failed forwards are reported
    /// separately in the per-transaction results, never merged into the
    /// tracker's outcomes. The caller drives the polling loop (performing
    /// the batched queries and the mandatory inter-round delay) through
    /// `record_round`, at most `max_attempts` times.
    pub fn submit_and_track(
        &mut self,
        txs: &Vec<SignedTransaction>,
        evs: &Vec<TransportEvent>,
        now: u64,
        commitment: CommitmentLevel,
        max_attempts: u64,
    ) -> (r: (Vec<Result<SubmissionHandle, ForwardError>>, ConfirmationTracker))
        requires
            old(self).wf(),
            evs@.len() == txs@.len(),
            old(self).pool@.next_id + txs@.len() <= u64::MAX as int,
            forall|i: int, j: int|
                0 <= i < j < txs@.len() ==> txs@[i].signature != txs@[j].signature,
        ensures
            final(self).wf(),
            final(self).endpoint == old(self).endpoint,
            ({
                let (m2, rs2) = spec_forward_batch(
                    old(self).pool@,
                    old(self).endpoint,
                    txs@,
                    evs@,
                    now,
                );
                &&& final(self).pool@ == m2
                &&& r.0@ == rs2
                &&& wf_tracker(r.1@)
                &&& r.1@.requested == commitment
                &&& r.1@.max_attempts == max_attempts as int
                &&& r.1@.attempts_used == 0
                &&& r.1@.entries.len() == ok_handles(rs2).len()
                &&& forall|i: int|
                    0 <= i < ok_handles(rs2).len() ==> r.1@.entries[i] == (TrackedHandle {
                        handle: ok_handles(rs2)[i],
                        status: ConfirmationStatus::Pending,
                    })
            }),
    {
        let rs = self.forward_transactions(txs, evs, now);
        let n = rs.len();
        let mut handles: Vec<SubmissionHandle> = Vec::new();
        let mut i: usize = 0;
        while i < n
            invariant
                n == rs@.len(),
                n == txs@.len(),
                i <= n,
                evs@.len() == txs@.len(),
                rs@ == spec_forward_batch(
                    old(self).pool@,
                    old(self).endpoint,
                    txs@,
                    evs@,
                    now,
                ).1,
                forall|p: int, q: int|
                    0 <= p < q < txs@.len() ==> txs@[p].signature != txs@[q].signature,
                handles@ == ok_handles(rs@.take(i as int)),
                forall|k: int|
                    0 <= k < handles@.len() ==> exists|j: int|
                        0 <= j < i && rs@[j] == Ok::<SubmissionHandle, ForwardError>(
                            #[trigger] handles@[k],
                        ),
                forall|k1: int, k2: int|
                    0 <= k1 < k2 < handles@.len() ==> handles@[k1] != handles@[k2],
            decreases n - i,
        {
            proof {
                assert(rs@.take(i as int + 1).drop_last() =~= rs@.take(i as int));
                assert(rs@.take(i as int + 1).last() == rs@[i as int]);
            }
            let cur = rs[i];
            match cur {
                Ok(h) => {
                    proof {
                        lemma_forward_batch_pointwise(
                            old(self).pool@,
                            old(self).endpoint,
                            txs@,
                            evs@,
                            now,
                            i as int,
                        );
                        assert(h == txs@[i as int].handle_spec());
                        assert forall|k: int| 0 <= k < handles@.len() implies handles@[k] != h by {
                            let j = choose|j: int|
                                0 <= j < i && rs@[j] == Ok::<SubmissionHandle, ForwardError>(
                                    handles@[k],
                                );
                            lemma_forward_batch_pointwise(
                                old(self).pool@,
                                old(self).endpoint,
                                txs@,
                                evs@,
                                now,
                                j,
                            );
                            assert(handles@[k] == txs@[j].handle_spec());
                            assert(txs@[j].signature != txs@[i as int].signature);
                        }
                    }
                    handles.push(h);
                },
                Err(_) => {},
            }
            i += 1;
        }
        proof {
            assert(rs@.take(n as int) =~= rs@);
        }
        let tracker = ConfirmationTracker::new(&handles, commitment, max_attempts);
        (rs, tracker)
    }

    /// Serve a `SendTransaction` request: decode the base-58 payload
    /// (rejecting a malformed one with `DecodeFailed` before any network
    /// operation), forward the wire bytes, and answer with the submission
    /// handle derived from `fresh_signature`.
    pub fn send_encoded_transaction(
        &mut self,
        encoded: &String,
        fresh_signature: u64,
        now: u64,
        ev: TransportEvent,
    ) -> (r: Result<SubmissionHandle, RpcError>)
        requires
            old(self).wf(),
            old(self).pool@.next_id < u64::MAX as int,
        ensures
            final(self).wf(),
            final(self).endpoint == old(self).endpoint,
            ({
                let (m2, r2) = spec_send_encoded(
                    old(self).pool@,
                    base58_decoded(encoded@),
                    old(self).endpoint,
                    fresh_signature,
                    now,
                    ev,
                );
                final(self).pool@ == m2 && r == r2
            }),
    {
        match decode_transaction_payload(encoded) {
            Err(e) => Err(e),
            Ok(_wire) => match self.dispatch(fresh_signature, now, ev) {
                Ok(h) => Ok(h),
                Err(e) => Err(RpcError::Forward(e)),
            },
        }
    }

    /// Execute one inbound RPC request. `SendTransaction` decodes and
    /// forwards the carried payload; `RequestAirdrop` is recognised but
    /// not implemented, answered with an explicit `Unsupported` error
    /// rather than a crash, and touches nothing.
    pub fn execute_rpc_request(
        &mut self,
        method: RpcMethod,
        encoded: &String,
        fresh_signature: u64,
        now: u64,
        ev: TransportEvent,
    ) -> (r: Result<SubmissionHandle, RpcError>)
        requires
            old(self).wf(),
            old(self).pool@.next_id < u64::MAX as int,
        ensures
            final(self).wf(),
            final(self).endpoint == old(self).endpoint,
            match method {
                RpcMethod::SendTransaction => ({
                    let (m2, r2) = spec_send_encoded(
                        old(self).pool@,
                        base58_decoded(encoded@),
                        old(self).endpoint,
                        fresh_signature,
                        now,
                        ev,
                    );
                    final(self).pool@ == m2 && r == r2
                }),
                RpcMethod::RequestAirdrop => final(self).pool@ == old(self).pool@ && r == Err::<
                    SubmissionHandle,
                    RpcError,
                >(RpcError::Unsupported),
            },
    {
        match method {
            RpcMethod::SendTransaction => self.send_encoded_transaction(
                encoded,
                fresh_signature,
                now,
                ev,
            ),
            RpcMethod::RequestAirdrop => Err(RpcError::Unsupported),
        }
    }
}

} // verus!
