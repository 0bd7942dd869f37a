use vstd::prelude::*;

use crate::errors::ForwardError;

verus! {

/// A reusable transport connection slot, bound to one endpoint address and
/// owned exclusively by the pool. It carries a last-used timestamp and a
/// busy/idle flag; an idle slot may be handed out again to any caller
/// targeting the same address.
#[derive(Clone, Copy, Debug, PartialEq, Eq, Structural)]
pub struct PooledConnection {
    /// Identifier of this connection; never reused after eviction.
    pub id: u64,
    /// Endpoint address this connection is bound to.
    pub addr: u64,
    /// Whether the connection is currently handed out to a caller.
    pub busy: bool,
    /// Timestamp of the most recent release (or of establishment).
    pub last_used: u64,
}

/// Mathematical state of a connection pool.
#[verifier::ext_equal]
pub struct PoolModel {
    pub capacity: int,
    pub next_id: int,
    pub conns: Seq<PooledConnection>,
}

/// The connection is idle and bound to `addr`, so it may be reused for a
/// send to `addr`.
pub open spec fn is_idle_for(c: PooledConnection, addr: u64) -> bool {
    !c.busy && c.addr == addr
}

/// Index of the first connection that is idle and bound to `addr`, or -1
/// when every connection is busy or bound elsewhere.
pub open spec fn idle_index(s: Seq<PooledConnection>, addr: u64) -> int
    decreases s.len(),
{
    if s.len() == 0 {
        -1
    } else if is_idle_for(s[0], addr) {
        0
    } else {
        let rest = idle_index(s.skip(1), addr);
        if rest < 0 {
            -1
        } else {
            1 + rest
        }
    }
}

/// Index of the connection carrying identifier `id`, or -1 when no
/// connection does.
pub open spec fn conn_index(s: Seq<PooledConnection>, id: u64) -> int
    decreases s.len(),
{
    if s.len() == 0 {
        -1
    } else if s[0].id == id {
        0
    } else {
        let rest = conn_index(s.skip(1), id);
        if rest < 0 {
            -1
        } else {
            1 + rest
        }
    }
}

/// `idle_index` finds the first idle connection for `addr`, if any.
pub proof fn lemma_idle_index(s: Seq<PooledConnection>, addr: u64)
    ensures
        ({
            let i = idle_index(s, addr);
            &&& -1 <= i < s.len()
            &&& i >= 0 ==> is_idle_for(s[i], addr)
            &&& i >= 0 ==> (forall|j: int| 0 <= j < i ==> !is_idle_for(s[j], addr))
            &&& i == -1 ==> (forall|j: int| 0 <= j < s.len() ==> !is_idle_for(s[j], addr))
        }),
    decreases s.len(),
{
    if s.len() == 0 {
    } else if is_idle_for(s[0], addr) {
    } else {
        lemma_idle_index(s.skip(1), addr);
        let rest = idle_index(s.skip(1), addr);
        if rest >= 0 {
            assert(s[1 + rest] == s.skip(1)[rest]);
            assert forall|j: int| 0 <= j < 1 + rest implies !is_idle_for(s[j], addr) by {
                if j > 0 {
                    assert(s[j] == s.skip(1)[j - 1]);
                }
            }
        } else {
            assert forall|j: int| 0 <= j < s.len() implies !is_idle_for(s[j], addr) by {
                if j > 0 {
                    assert(s[j] == s.skip(1)[j - 1]);
                }
            }
        }
    }
}

/// `conn_index` finds the first connection carrying `id`, if any.
pub proof fn lemma_conn_index(s: Seq<PooledConnection>, id: u64)
    ensures
        ({
            let i = conn_index(s, id);
            &&& -1 <= i < s.len()
            &&& i >= 0 ==> s[i].id == id
            &&& i >= 0 ==> (forall|j: int| 0 <= j < i ==> s[j].id != id)
            &&& i == -1 ==> (forall|j: int| 0 <= j < s.len() ==> s[j].id != id)
        }),
    decreases s.len(),
{
    if s.len() == 0 {
    } else if s[0].id == id {
    } else {
        lemma_conn_index(s.skip(1), id);
        let rest = conn_index(s.skip(1), id);
        if rest >= 0 {
            assert(s[1 + rest] == s.skip(1)[rest]);
            assert forall|j: int| 0 <= j < 1 + rest implies s[j].id != id by {
                if j > 0 {
                    assert(s[j] == s.skip(1)[j - 1]);
                }
            }
        } else {
            assert forall|j: int| 0 <= j < s.len() implies s[j].id != id by {
                if j > 0 {
                    assert(s[j] == s.skip(1)[j - 1]);
                }
            }
        }
    }
}

/// Pool invariant: the pool never holds more than `capacity` connections,
/// identifiers are unique, and every identifier was drawn from the
/// strictly increasing counter `next_id`.
pub open spec fn wf_model(m: PoolModel) -> bool {
    &&& 0 <= m.capacity
    &&& 0 <= m.next_id <= u64::MAX as int
    &&& m.conns.len() <= m.capacity
    &&& forall|i: int, j: int|
        0 <= i < j < m.conns.len() ==> m.conns[i].id != m.conns[j].id
    &&& forall|i: int| 0 <= i < m.conns.len() ==> (m.conns[i].id as int) < m.next_id
}

/// The identifier belongs to no current connection and can never be handed
/// out again (the counter has moved past it).
pub open spec fn retired(m: PoolModel, id: u64) -> bool {
    &&& (id as int) < m.next_id
    &&& forall|i: int| 0 <= i < m.conns.len() ==> m.conns[i].id != id
}

pub open spec fn mark_busy(c: PooledConnection) -> PooledConnection {
    PooledConnection { id: c.id, addr: c.addr, busy: true, last_used: c.last_used }
}

pub open spec fn mark_idle(c: PooledConnection, now: u64) -> PooledConnection {
    PooledConnection { id: c.id, addr: c.addr, busy: false, last_used: now }
}

pub open spec fn fresh_conn(id: u64, addr: u64, now: u64) -> PooledConnection {
    PooledConnection { id, addr, busy: true, last_used: now }
}

/// What `acquire` does: reuse the first idle connection bound to `addr`;
/// else establish a new one if a slot is free and the transport could
/// connect; else fail fast with `ConnectFailed` or `PoolExhausted`.
pub open spec fn spec_acquire(m: PoolModel, addr: u64, now: u64, connect_ok: bool) -> (
    PoolModel,
    Result<u64, ForwardError>,
) {
    let i = idle_index(m.conns, addr);
    if i >= 0 {
        (
            PoolModel {
                capacity: m.capacity,
                next_id: m.next_id,
                conns: m.conns.update(i, mark_busy(m.conns[i])),
            },
            Ok(m.conns[i].id),
        )
    } else if m.conns.len() < m.capacity {
        if connect_ok {
            (
                PoolModel {
                    capacity: m.capacity,
                    next_id: m.next_id + 1,
                    conns: m.conns.push(fresh_conn(m.next_id as u64, addr, now)),
                },
                Ok(m.next_id as u64),
            )
        } else {
            (m, Err(ForwardError::ConnectFailed))
        }
    } else {
        (m, Err(ForwardError::PoolExhausted))
    }
}

/// Whether `release` finds a busy connection carrying `id`.
pub open spec fn spec_release_ok(m: PoolModel, id: u64) -> bool {
    let i = conn_index(m.conns, id);
    i >= 0 && m.conns[i].busy
}

/// What `release` does: return the connection to the idle set, stamped
/// with the current time; a pool without a busy connection `id` is left
/// unchanged.
pub open spec fn spec_release(m: PoolModel, id: u64, now: u64) -> PoolModel {
    let i = conn_index(m.conns, id);
    if i >= 0 && m.conns[i].busy {
        PoolModel {
            capacity: m.capacity,
            next_id: m.next_id,
            conns: m.conns.update(i, mark_idle(m.conns[i], now)),
        }
    } else {
        m
    }
}

/// Whether `evict` finds a connection carrying `id`.
pub open spec fn spec_evict_ok(m: PoolModel, id: u64) -> bool {
    conn_index(m.conns, id) >= 0
}

/// What `evict` does: drop the connection entirely, so that it can never
/// be handed out again.
pub open spec fn spec_evict(m: PoolModel, id: u64) -> PoolModel {
    let i = conn_index(m.conns, id);
    if i >= 0 {
        PoolModel { capacity: m.capacity, next_id: m.next_id, conns: m.conns.remove(i) }
    } else {
        m
    }
}

/// Number of connections currently handed out.
pub open spec fn busy_count(s: Seq<PooledConnection>) -> int
    decreases s.len(),
{
    if s.len() == 0 {
        0
    } else {
        busy_count(s.drop_last()) + if s.last().busy {
            1int
        } else {
            0int
        }
    }
}

pub proof fn lemma_busy_count_le_len(s: Seq<PooledConnection>)
    ensures
        0 <= busy_count(s) <= s.len(),
    decreases s.len(),
{
    if s.len() > 0 {
        lemma_busy_count_le_len(s.drop_last());
    }
}

pub proof fn lemma_busy_count_update(s: Seq<PooledConnection>, i: int, c: PooledConnection)
    requires
        0 <= i < s.len(),
    ensures
        busy_count(s.update(i, c)) == busy_count(s) - (if s[i].busy {
            1int
        } else {
            0int
        }) + (if c.busy {
            1int
        } else {
            0int
        }),
    decreases s.len(),
{
    let s2 = s.update(i, c);
    if i == s.len() - 1 {
        assert(s2.drop_last() =~= s.drop_last());
        assert(s2.last() == c);
    } else {
        assert(s2.drop_last() =~= s.drop_last().update(i, c));
        assert(s2.last() == s.last());
        lemma_busy_count_update(s.drop_last(), i, c);
    }
}

pub proof fn lemma_busy_count_push(s: Seq<PooledConnection>, c: PooledConnection)
    ensures
        busy_count(s.push(c)) == busy_count(s) + (if c.busy {
            1int
        } else {
            0int
        }),
{
    assert(s.push(c).drop_last() =~= s);
    assert(s.push(c).last() == c);
}

pub proof fn lemma_busy_count_remove(s: Seq<PooledConnection>, i: int)
    requires
        0 <= i < s.len(),
    ensures
        busy_count(s.remove(i)) == busy_count(s) - (if s[i].busy {
            1int
        } else {
            0int
        }),
    decreases s.len(),
{
    let s2 = s.remove(i);
    s.remove_ensures(i);
    if i == s.len() - 1 {
        assert(s2 =~= s.drop_last());
    } else {
        s.drop_last().remove_ensures(i);
        assert(s2.drop_last() =~= s.drop_last().remove(i));
        assert(s2.last() == s.last());
        lemma_busy_count_remove(s.drop_last(), i);
    }
}

/// The pool never holds more than its configured capacity of
/// simultaneously busy connections.
pub proof fn lemma_busy_bounded_by_capacity(m: PoolModel)
    requires
        wf_model(m),
    ensures
        busy_count(m.conns) <= m.capacity,
{
    lemma_busy_count_le_len(m.conns);
}

/// Evicting a connection retires its identifier: the connection is gone
/// from the pool and the identifier counter has already moved past it.
pub proof fn lemma_evict_retires(m: PoolModel, id: u64)
    requires
        wf_model(m),
        spec_evict_ok(m, id),
    ensures
        retired(spec_evict(m, id), id),
        wf_model(spec_evict(m, id)),
{
    let i = conn_index(m.conns, id);
    lemma_conn_index(m.conns, id);
    m.conns.remove_ensures(i);
    let s2 = spec_evict(m, id).conns;
    assert forall|k: int| 0 <= k < s2.len() implies s2[k].id != id by {
        if k < i {
            assert(s2[k] == m.conns[k]);
        } else {
            assert(s2[k] == m.conns[k + 1]);
        }
    }
    assert forall|k: int, l: int| 0 <= k < l < s2.len() implies s2[k].id != s2[l].id by {
        let k0 = if k < i { k } else { k + 1 };
        let l0 = if l < i { l } else { l + 1 };
        assert(s2[k] == m.conns[k0]);
        assert(s2[l] == m.conns[l0]);
    }
    assert forall|k: int| 0 <= k < s2.len() implies (s2[k].id as int) < m.next_id by {
        let k0 = if k < i { k } else { k + 1 };
        assert(s2[k] == m.conns[k0]);
    }
}

/// A retired identifier stays retired across `acquire`, and `acquire`
/// never hands it out again: a connection that failed mid-use is never
/// yielded by a later `acquire`.
pub proof fn lemma_acquire_never_yields_retired(
    m: PoolModel,
    addr: u64,
    now: u64,
    connect_ok: bool,
    x: u64,
)
    requires
        wf_model(m),
        retired(m, x),
    ensures
        ({
            let (m2, r) = spec_acquire(m, addr, now, connect_ok);
            &&& retired(m2, x)
            &&& (r matches Ok(id) ==> id != x)
        }),
{
    lemma_idle_index(m.conns, addr);
}

/// A retired identifier stays retired across `release`.
pub proof fn lemma_release_preserves_retired(m: PoolModel, id: u64, now: u64, x: u64)
    requires
        retired(m, x),
    ensures
        retired(spec_release(m, id, now), x),
{
    lemma_conn_index(m.conns, id);
}

/// A retired identifier stays retired across `evict`.
pub proof fn lemma_evict_preserves_retired(m: PoolModel, id: u64, x: u64)
    requires
        retired(m, x),
    ensures
        retired(spec_evict(m, id), x),
{
    let i = conn_index(m.conns, id);
    lemma_conn_index(m.conns, id);
    if i >= 0 {
        m.conns.remove_ensures(i);
        let s2 = spec_evict(m, id).conns;
        assert forall|k: int| 0 <= k < s2.len() implies s2[k].id != x by {
            if k < i {
                assert(s2[k] == m.conns[k]);
            } else {
                assert(s2[k] == m.conns[k + 1]);
            }
        }
    }
}

/// Owns and lazily creates reusable connections keyed by destination
/// address, bounding how many exist at once. The bound is enforced with a
/// fail-fast policy: an `acquire` that finds every slot busy returns
/// `PoolExhausted` instead of blocking.
pub struct ConnectionPool {
    pub capacity: usize,
    pub next_id: u64,
    pub conns: Vec<PooledConnection>,
}

impl View for ConnectionPool {
    type V = PoolModel;

    open spec fn view(&self) -> PoolModel {
        PoolModel {
            capacity: self.capacity as int,
            next_id: self.next_id as int,
            conns: self.conns@,
        }
    }
}

impl ConnectionPool {
    /// An empty pool that will never hold more than `capacity`
    /// connections at once.
    pub fn new(capacity: usize) -> (p: ConnectionPool)
        ensures
            wf_model(p@),
            p@.capacity == capacity as int,
            p@.next_id == 0,
            p@.conns == Seq::<PooledConnection>::empty(),
    {
        let p = ConnectionPool { capacity, next_id: 0, conns: Vec::new() };
        proof {
            assert(p@.conns =~= Seq::<PooledConnection>::empty());
        }
        p
    }

    /// Hand out a connection bound to `addr`: the first idle one if any
    /// exists, else a newly established one if a slot is free (the caller
    /// reports in `connect_ok` whether the transport could establish it),
    /// else fail fast. Establishment failure and exhaustion leave the
    /// pool unchanged.
    pub fn acquire(&mut self, addr: u64, now: u64, connect_ok: bool) -> (r: Result<
        u64,
        ForwardError,
    >)
        requires
            wf_model(old(self)@),
            old(self)@.next_id < u64::MAX as int,
        ensures
            wf_model(final(self)@),
            ({
                let (m2, r2) = spec_acquire(old(self)@, addr, now, connect_ok);
                final(self)@ == m2 && r == r2
            }),
    {
        let n = self.conns.len();
        let mut i: usize = 0;
        while i < n
            invariant
                wf_model(old(self)@),
                n == self.conns.len(),
                self.capacity == old(self).capacity,
                self.next_id == old(self).next_id,
                self.conns@ == old(self).conns@,
                i <= n,
                forall|j: int| 0 <= j < i ==> !is_idle_for(self.conns@[j], addr),
            decreases n - i,
        {
            let c = self.conns[i];
            if !c.busy && c.addr == addr {
                proof {
                    lemma_idle_index(self.conns@, addr);
                    let k = idle_index(self.conns@, addr);
                    assert(k == i);
                }
                let mut updated = c;
                updated.busy = true;
                self.conns[i] = updated;
                proof {
                    let (m2, r2) = spec_acquire(old(self)@, addr, now, connect_ok);
                    assert(updated == mark_busy(old(self)@.conns[i as int]));
                    assert(self@ =~= m2);
                }
                return Ok(c.id);
            }
            i += 1;
        }
        proof {
            lemma_idle_index(self.conns@, addr);
            assert(idle_index(self.conns@, addr) == -1);
        }
        if self.conns.len() < self.capacity {
            if connect_ok {
                let id = self.next_id;
                self.conns.push(PooledConnection { id, addr, busy: true, last_used: now });
                self.next_id = id + 1;
                proof {
                    let (m2, r2) = spec_acquire(old(self)@, addr, now, connect_ok);
                    assert(self@ =~= m2);
                }
                Ok(id)
            } else {
                Err(ForwardError::ConnectFailed)
            }
        } else {
            Err(ForwardError::PoolExhausted)
        }
    }

    /// Return connection `id` to the idle set, stamped with the current
    /// time. Reports whether a busy connection carrying `id` was found;
    /// otherwise the pool is unchanged.
    pub fn release(&mut self, id: u64, now: u64) -> (r: bool)
        requires
            wf_model(old(self)@),
        ensures
            wf_model(final(self)@),
            final(self)@ == spec_release(old(self)@, id, now),
            r == spec_release_ok(old(self)@, id),
    {
        let n = self.conns.len();
        let mut i: usize = 0;
        while i < n
            invariant
                wf_model(old(self)@),
                n == self.conns.len(),
                self.capacity == old(self).capacity,
                self.next_id == old(self).next_id,
                self.conns@ == old(self).conns@,
                i <= n,
                forall|j: int| 0 <= j < i ==> self.conns@[j].id != id,
            decreases n - i,
        {
            let c = self.conns[i];
            if c.id == id {
                proof {
                    lemma_conn_index(self.conns@, id);
                    assert(conn_index(self.conns@, id) == i);
                }
                if c.busy {
                    let mut updated = c;
                    updated.busy = false;
                    updated.last_used = now;
                    self.conns[i] = updated;
                    proof {
                        assert(updated == mark_idle(old(self)@.conns[i as int], now));
                        assert(self@ =~= spec_release(old(self)@, id, now));
                    }
                    return true;
                } else {
                    return false;
                }
            }
            i += 1;
        }
        proof {
            lemma_conn_index(self.conns@, id);
            assert(conn_index(self.conns@, id) == -1);
        }
        false
    }

    /// Drop connection `id` entirely: a connection that failed during use
    /// is never returned to the idle set and is never handed out again.
    /// Reports whether a connection carrying `id` was found; otherwise
    /// the pool is unchanged.
    pub fn evict(&mut self, id: u64) -> (r: bool)
        requires
            wf_model(old(self)@),
        ensures
            wf_model(final(self)@),
            final(self)@ == spec_evict(old(self)@, id),
            r == spec_evict_ok(old(self)@, id),
            r ==> retired(final(self)@, id),
    {
        let n = self.conns.len();
        let mut i: usize = 0;
        while i < n
            invariant
                wf_model(old(self)@),
                n == self.conns.len(),
                self.capacity == old(self).capacity,
                self.next_id == old(self).next_id,
                self.conns@ == old(self).conns@,
                i <= n,
                forall|j: int| 0 <= j < i ==> self.conns@[j].id != id,
            decreases n - i,
        {
            let c = self.conns[i];
            if c.id == id {
                proof {
                    lemma_conn_index(self.conns@, id);
                    assert(conn_index(self.conns@, id) == i);
                }
                self.conns.remove(i);
                proof {
                    assert(self@ =~= spec_evict(old(self)@, id));
                    lemma_evict_retires(old(self)@, id);
                }
                return true;
            }
            i += 1;
        }
        proof {
            lemma_conn_index(self.conns@, id);
            assert(conn_index(self.conns@, id) == -1);
        }
        false
    }

    /// How many connections are currently handed out.
    pub fn busy_connections(&self) -> (r: usize)
        ensures
            r as int == busy_count(self@.conns),
    {
        let n = self.conns.len();
        let mut i: usize = 0;
        let mut count: usize = 0;
        proof {
            lemma_busy_count_le_len(self.conns@);
        }
        while i < n
            invariant
                n == self.conns.len(),
                i <= n,
                count as int == busy_count(self.conns@.take(i as int)),
                count <= i,
            decreases n - i,
        {
            proof {
                assert(self.conns@.take(i as int + 1).drop_last() =~= self.conns@.take(i as int));
                assert(self.conns@.take(i as int + 1).last() == self.conns@[i as int]);
                lemma_busy_count_le_len(self.conns@.take(i as int));
            }
            if self.conns[i].busy {
                count = count + 1;
            }
            i += 1;
        }
        proof {
            assert(self.conns@.take(n as int) =~= self.conns@);
        }
        count
    }
}

} // verus!
