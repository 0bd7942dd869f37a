use vstd::prelude::*;

use crate::commitment::CommitmentLevel;
use crate::transaction::SubmissionHandle;

verus! {

/// Per-handle outcome of confirmation tracking. Produced only by the
/// tracker and never mutated once terminal (`Confirmed` or `TimedOut`).
#[derive(Clone, Copy, Debug, PartialEq, Eq, Structural)]
pub enum ConfirmationStatus {
    /// Not yet observed at the requested level; polling continues.
    Pending,
    /// Observed at the carried commitment level, which is at least the
    /// requested one.
    Confirmed(CommitmentLevel),
    /// Not observed within the polling budget; a legitimate terminal
    /// state, left to the caller to act on.
    TimedOut,
}

/// One tracked submission: the handle and its current outcome.
#[derive(Clone, Copy, Debug, PartialEq, Eq, Structural)]
pub struct TrackedHandle {
    pub handle: SubmissionHandle,
    pub status: ConfirmationStatus,
}

/// Mathematical state of a confirmation tracker.
#[verifier::ext_equal]
pub struct TrackerModel {
    pub requested: CommitmentLevel,
    pub max_attempts: int,
    pub attempts_used: int,
    pub entries: Seq<TrackedHandle>,
}

pub open spec fn is_pending(e: TrackedHandle) -> bool {
    e.status is Pending
}

/// An observation resolves a pending handle when it reports the requested
/// commitment level or a more durable one.
pub open spec fn meets_threshold(obs: Option<CommitmentLevel>, requested: CommitmentLevel) -> bool {
    obs matches Some(l) && l.at_least(requested)
}

/// How many handles are still awaiting resolution.
pub open spec fn pending_count(s: Seq<TrackedHandle>) -> int
    decreases s.len(),
{
    if s.len() == 0 {
        0
    } else {
        pending_count(s.drop_last()) + if is_pending(s.last()) {
            1int
        } else {
            0int
        }
    }
}

/// The handles still awaiting resolution, in tracking order.
pub open spec fn pending_handles(s: Seq<TrackedHandle>) -> Seq<SubmissionHandle>
    decreases s.len(),
{
    if s.len() == 0 {
        Seq::empty()
    } else {
        let rest = pending_handles(s.drop_last());
        if is_pending(s.last()) {
            rest.push(s.last().handle)
        } else {
            rest
        }
    }
}

pub proof fn lemma_pending_handles_count(s: Seq<TrackedHandle>)
    ensures
        pending_handles(s).len() == pending_count(s),
    decreases s.len(),
{
    if s.len() > 0 {
        lemma_pending_handles_count(s.drop_last());
    }
}

pub proof fn lemma_pending_count_bounds(s: Seq<TrackedHandle>)
    ensures
        0 <= pending_count(s) <= s.len(),
        pending_count(s) == 0 <==> (forall|i: int| 0 <= i < s.len() ==> !is_pending(s[i])),
    decreases s.len(),
{
    if s.len() > 0 {
        let d = s.drop_last();
        lemma_pending_count_bounds(d);
        assert(forall|i: int| 0 <= i < d.len() ==> d[i] == s[i]);
        assert(s.last() == s[s.len() - 1]);
    }
}

/// Status of one entry after a polling round in which `obs` was observed
/// for it and `new_attempts` of `max_attempts` rounds have then been
/// used: a terminal status never changes; a pending handle observed at or
/// above the requested level resolves to `Confirmed`; a pending handle
/// still unresolved when the budget is exhausted resolves to `TimedOut`.
pub open spec fn entry_step(
    e: TrackedHandle,
    obs: Option<CommitmentLevel>,
    requested: CommitmentLevel,
    new_attempts: int,
    max_attempts: int,
) -> TrackedHandle {
    if !is_pending(e) {
        e
    } else if meets_threshold(obs, requested) {
        TrackedHandle { handle: e.handle, status: ConfirmationStatus::Confirmed(obs.unwrap()) }
    } else if new_attempts >= max_attempts {
        TrackedHandle { handle: e.handle, status: ConfirmationStatus::TimedOut }
    } else {
        e
    }
}

/// What recording one polling round does: one more attempt is used and
/// every entry steps under the observation made for it.
pub open spec fn spec_round(t: TrackerModel, obs: Seq<Option<CommitmentLevel>>) -> TrackerModel {
    TrackerModel {
        requested: t.requested,
        max_attempts: t.max_attempts,
        attempts_used: t.attempts_used + 1,
        entries: Seq::new(
            t.entries.len(),
            |i: int|
                entry_step(t.entries[i], obs[i], t.requested, t.attempts_used + 1, t.max_attempts),
        ),
    }
}

/// Tracking is finished when the polling budget is used up or no handle
/// is still pending.
pub open spec fn finished(t: TrackerModel) -> bool {
    t.attempts_used >= t.max_attempts || pending_count(t.entries) == 0
}

/// Index of the entry tracking `h`, or -1 when `h` is not tracked.
pub open spec fn handle_index(s: Seq<TrackedHandle>, h: SubmissionHandle) -> int
    decreases s.len(),
{
    if s.len() == 0 {
        -1
    } else if s[0].handle == h {
        0
    } else {
        let rest = handle_index(s.skip(1), h);
        if rest < 0 {
            -1
        } else {
            1 + rest
        }
    }
}

/// Current outcome recorded for `h`, or nothing when `h` is not tracked.
pub open spec fn spec_status_of(t: TrackerModel, h: SubmissionHandle) -> Option<ConfirmationStatus> {
    let i = handle_index(t.entries, h);
    if i >= 0 {
        Some(t.entries[i].status)
    } else {
        None
    }
}

/// `handle_index` finds the first entry tracking `h`, if any.
pub proof fn lemma_handle_index(s: Seq<TrackedHandle>, h: SubmissionHandle)
    ensures
        ({
            let i = handle_index(s, h);
            &&& -1 <= i < s.len()
            &&& i >= 0 ==> s[i].handle == h
            &&& i >= 0 ==> (forall|j: int| 0 <= j < i ==> s[j].handle != h)
            &&& i == -1 ==> (forall|j: int| 0 <= j < s.len() ==> s[j].handle != h)
        }),
    decreases s.len(),
{
    if s.len() == 0 {
    } else if s[0].handle == h {
    } else {
        lemma_handle_index(s.skip(1), h);
        let rest = handle_index(s.skip(1), h);
        if rest >= 0 {
            assert(s[1 + rest] == s.skip(1)[rest]);
            assert forall|j: int| 0 <= j < 1 + rest implies s[j].handle != h by {
                if j > 0 {
                    assert(s[j] == s.skip(1)[j - 1]);
                }
            }
        } else {
            assert forall|j: int| 0 <= j < s.len() implies s[j].handle != h by {
                if j > 0 {
                    assert(s[j] == s.skip(1)[j - 1]);
                }
            }
        }
    }
}

/// Two entry sequences tracking the same handles at each position index
/// any handle identically.
proof fn lemma_handle_index_same_handles(
    s1: Seq<TrackedHandle>,
    s2: Seq<TrackedHandle>,
    h: SubmissionHandle,
)
    requires
        s1.len() == s2.len(),
        forall|i: int| 0 <= i < s1.len() ==> s1[i].handle == s2[i].handle,
    ensures
        handle_index(s1, h) == handle_index(s2, h),
    decreases s1.len(),
{
    if s1.len() > 0 {
        assert(s1[0].handle == s2[0].handle);
        if s1[0].handle != h {
            assert forall|i: int|
                0 <= i < s1.skip(1).len() implies s1.skip(1)[i].handle == s2.skip(1)[i].handle by {
                assert(s1.skip(1)[i] == s1[i + 1]);
                assert(s2.skip(1)[i] == s2[i + 1]);
            }
            lemma_handle_index_same_handles(s1.skip(1), s2.skip(1), h);
        }
    }
}

/// Tracker invariant: the polling budget is respected, no handle is
/// tracked twice, and a `Confirmed` outcome always carries at least the
/// requested commitment level.
pub open spec fn wf_tracker(t: TrackerModel) -> bool {
    &&& 0 <= t.attempts_used <= t.max_attempts
    &&& forall|i: int, j: int|
        0 <= i < j < t.entries.len() ==> t.entries[i].handle != t.entries[j].handle
    &&& forall|i: int|
        0 <= i < t.entries.len() ==> ((#[trigger] t.entries[i].status)
            matches ConfirmationStatus::Confirmed(l) ==> l.at_least(t.requested))
}

/// Polling is bounded: a tracker never uses more rounds than its budget,
/// and it is finished as soon as every handle is resolved, however many
/// rounds of the budget remain. Together with `record_round` demanding an
/// unfinished tracker, at most `max_attempts` rounds can ever be recorded.
pub proof fn lemma_polling_bounded(t: TrackerModel)
    requires
        wf_tracker(t),
    ensures
        t.attempts_used <= t.max_attempts,
        pending_count(t.entries) == 0 ==> finished(t),
        t.attempts_used == t.max_attempts ==> finished(t),
{
}

/// A round that exhausts the polling budget leaves no handle pending:
/// the tracker always finishes within its budget.
pub proof fn lemma_exhaustion_resolves(t: TrackerModel, obs: Seq<Option<CommitmentLevel>>)
    requires
        wf_tracker(t),
        !finished(t),
        obs.len() == t.entries.len(),
        t.attempts_used + 1 == t.max_attempts,
    ensures
        finished(spec_round(t, obs)),
        pending_count(spec_round(t, obs).entries) == 0,
{
    let t2 = spec_round(t, obs);
    assert forall|i: int| 0 <= i < t2.entries.len() implies !is_pending(t2.entries[i]) by {
        assert(t2.entries[i] == entry_step(
            t.entries[i],
            obs[i],
            t.requested,
            t.attempts_used + 1,
            t.max_attempts,
        ));
    }
    lemma_pending_count_bounds(t2.entries);
}

/// A terminal outcome never changes: recording a further round returns
/// the same result for an already-`Confirmed` (or already-timed-out)
/// handle, and no polling is needed to read it back.
pub proof fn lemma_terminal_stable(
    t: TrackerModel,
    obs: Seq<Option<CommitmentLevel>>,
    h: SubmissionHandle,
)
    requires
        obs.len() == t.entries.len(),
        spec_status_of(t, h) matches Some(st) && !(st is Pending),
    ensures
        spec_status_of(spec_round(t, obs), h) == spec_status_of(t, h),
{
    let t2 = spec_round(t, obs);
    assert forall|i: int| 0 <= i < t.entries.len() implies t.entries[i].handle
        == t2.entries[i].handle by {
        assert(t2.entries[i] == entry_step(
            t.entries[i],
            obs[i],
            t.requested,
            t.attempts_used + 1,
            t.max_attempts,
        ));
    }
    lemma_handle_index_same_handles(t.entries, t2.entries, h);
    lemma_handle_index(t.entries, h);
}

/// In one round, a handle that is not observed at or above the requested
/// level is never marked `Confirmed`: it stays pending or times out.
pub proof fn lemma_unobserved_never_confirmed(
    t: TrackerModel,
    obs: Seq<Option<CommitmentLevel>>,
    i: int,
)
    requires
        obs.len() == t.entries.len(),
        0 <= i < t.entries.len(),
        !(t.entries[i].status is Confirmed),
        !meets_threshold(obs[i], t.requested),
    ensures
        !(spec_round(t, obs).entries[i].status is Confirmed),
{
    assert(spec_round(t, obs).entries[i] == entry_step(
        t.entries[i],
        obs[i],
        t.requested,
        t.attempts_used + 1,
        t.max_attempts,
    ));
}

/// The trackers reached by recording a sequence of polling rounds.
pub open spec fn run_rounds(t: TrackerModel, rounds: Seq<Seq<Option<CommitmentLevel>>>) -> TrackerModel
    decreases rounds.len(),
{
    if rounds.len() == 0 {
        t
    } else {
        run_rounds(spec_round(t, rounds[0]), rounds.skip(1))
    }
}

/// Across any number of rounds, a handle that the ledger never reports at
/// or above the requested level — such as a transaction whose reference
/// blockhash expired before it could land — is never `Confirmed`; it can
/// only stay pending or time out.
pub proof fn lemma_never_observed_never_confirmed(
    t: TrackerModel,
    rounds: Seq<Seq<Option<CommitmentLevel>>>,
    i: int,
)
    requires
        0 <= i < t.entries.len(),
        !(t.entries[i].status is Confirmed),
        forall|r: int| 0 <= r < rounds.len() ==> (#[trigger] rounds[r]).len() == t.entries.len(),
        forall|r: int| 0 <= r < rounds.len() ==> !meets_threshold(rounds[r][i], t.requested),
    ensures
        !(run_rounds(t, rounds).entries[i].status is Confirmed),
    decreases rounds.len(),
{
    if rounds.len() > 0 {
        let t1 = spec_round(t, rounds[0]);
        lemma_unobserved_never_confirmed(t, rounds[0], i);
        assert(t1.entries[i] == entry_step(
            t.entries[i],
            rounds[0][i],
            t.requested,
            t.attempts_used + 1,
            t.max_attempts,
        ));
        assert forall|r: int| 0 <= r < rounds.skip(1).len() implies (#[trigger] rounds.skip(1)[
            r
        ]).len() == t1.entries.len() && !meets_threshold(rounds.skip(1)[r][i], t1.requested) by {
            assert(rounds.skip(1)[r] == rounds[r + 1]);
        }
        lemma_never_observed_never_confirmed(t1, rounds.skip(1), i);
    }
}

/// Given a set of submission handles and a requested commitment level,
/// repeatedly records batched polling rounds until every handle is
/// resolved or `max_attempts` rounds have elapsed, reporting a per-handle
/// outcome. The caller runs the polling loop (performing the queries and
/// the mandatory inter-round delay) and hands each round's observations
/// to `record_round`; partial success is a first-class outcome.
pub struct ConfirmationTracker {
    pub requested: CommitmentLevel,
    pub max_attempts: u64,
    pub attempts_used: u64,
    pub entries: Vec<TrackedHandle>,
}

impl View for ConfirmationTracker {
    type V = TrackerModel;

    open spec fn view(&self) -> TrackerModel {
        TrackerModel {
            requested: self.requested,
            max_attempts: self.max_attempts as int,
            attempts_used: self.attempts_used as int,
            entries: self.entries@,
        }
    }
}

impl ConfirmationTracker {
    /// Start tracking a set of handles, all initially `Pending`. The
    /// handles form a set: no handle is tracked twice.
    pub fn new(
        handles: &Vec<SubmissionHandle>,
        requested: CommitmentLevel,
        max_attempts: u64,
    ) -> (t: ConfirmationTracker)
        requires
            forall|i: int, j: int| 0 <= i < j < handles@.len() ==> handles@[i] != handles@[j],
        ensures
            wf_tracker(t@),
            t@.requested == requested,
            t@.max_attempts == max_attempts as int,
            t@.attempts_used == 0,
            t@.entries.len() == handles@.len(),
            forall|i: int|
                0 <= i < handles@.len() ==> t@.entries[i] == (TrackedHandle {
                    handle: handles@[i],
                    status: ConfirmationStatus::Pending,
                }),
    {
        let n = handles.len();
        let mut entries: Vec<TrackedHandle> = Vec::new();
        let mut i: usize = 0;
        while i < n
            invariant
                n == handles@.len(),
                i <= n,
                entries@.len() == i as int,
                forall|k: int|
                    0 <= k < i ==> entries@[k] == (TrackedHandle {
                        handle: handles@[k],
                        status: ConfirmationStatus::Pending,
                    }),
            decreases n - i,
        {
            entries.push(TrackedHandle { handle: handles[i], status: ConfirmationStatus::Pending });
            i += 1;
        }
        ConfirmationTracker { requested, max_attempts, attempts_used: 0, entries }
    }

    /// Record one batched polling round. `observations[i]` is what the
    /// ledger query reported for `entries[i]` this round: the commitment
    /// level at which the handle was observed, or `None` when it was not
    /// observed (entries already terminal need not be queried; their
    /// observation is ignored). Requires an unfinished tracker, so at
    /// most `max_attempts` rounds can ever be recorded.
    pub fn record_round(&mut self, observations: &Vec<Option<CommitmentLevel>>)
        requires
            wf_tracker(old(self)@),
            !finished(old(self)@),
            observations@.len() == old(self)@.entries.len(),
        ensures
            wf_tracker(final(self)@),
            final(self)@ == spec_round(old(self)@, observations@),
    {
        self.attempts_used = self.attempts_used + 1;
        let n = self.entries.len();
        let mut i: usize = 0;
        while i < n
            invariant
                wf_tracker(old(self)@),
                observations@.len() == old(self)@.entries.len(),
                n == old(self)@.entries.len(),
                self.entries@.len() == n,
                i <= n,
                self.requested == old(self).requested,
                self.max_attempts == old(self).max_attempts,
                self.attempts_used as int == old(self)@.attempts_used + 1,
                old(self)@.attempts_used < old(self)@.max_attempts,
                forall|k: int|
                    0 <= k < i ==> self.entries@[k] == entry_step(
                        old(self)@.entries[k],
                        observations@[k],
                        old(self)@.requested,
                        old(self)@.attempts_used + 1,
                        old(self)@.max_attempts,
                    ),
                forall|k: int| i <= k < n ==> self.entries@[k] == old(self)@.entries[k],
            decreases n - i,
        {
            let e = self.entries[i];
            match e.status {
                ConfirmationStatus::Pending => {
                    let resolved = match observations[i] {
                        Some(l) => {
                            if l.meets(&self.requested) {
                                self.entries[i] = TrackedHandle {
                                    handle: e.handle,
                                    status: ConfirmationStatus::Confirmed(l),
                                };
                                true
                            } else {
                                false
                            }
                        },
                        None => false,
                    };
                    if !resolved && self.attempts_used >= self.max_attempts {
                        self.entries[i] = TrackedHandle {
                            handle: e.handle,
                            status: ConfirmationStatus::TimedOut,
                        };
                    }
                },
                _ => {},
            }
            i += 1;
        }
        proof {
            let t2 = spec_round(old(self)@, observations@);
            assert(self@.entries =~= t2.entries);
            assert(self@ =~= t2);
            assert forall|k: int|
                0 <= k < t2.entries.len() implies t2.entries[k].handle
                == old(self)@.entries[k].handle && (t2.entries[k].status
                matches ConfirmationStatus::Confirmed(l) ==> l.at_least(t2.requested)) by {
                assert(t2.entries[k] == entry_step(
                    old(self)@.entries[k],
                    observations@[k],
                    old(self)@.requested,
                    old(self)@.attempts_used + 1,
                    old(self)@.max_attempts,
                ));
            }
        }
    }

    /// The handles still awaiting resolution, in tracking order: the set
    /// one polling round queries, batched, so that the number of query
    /// round trips is bounded by the polling budget alone.
    pub fn outstanding(&self) -> (r: Vec<SubmissionHandle>)
        ensures
            r@ == pending_handles(self@.entries),
            r@.len() == pending_count(self@.entries),
    {
        let n = self.entries.len();
        let mut r: Vec<SubmissionHandle> = Vec::new();
        let mut i: usize = 0;
        while i < n
            invariant
                i <= n,
                n == self.entries@.len(),
                r@ == pending_handles(self.entries@.take(i as int)),
                r@.len() <= i,
            decreases n - i,
        {
            proof {
                assert(self.entries@.take(i as int + 1).drop_last() =~= self.entries@.take(
                    i as int,
                ));
                assert(self.entries@.take(i as int + 1).last() == self.entries@[i as int]);
            }
            let e = self.entries[i];
            match e.status {
                ConfirmationStatus::Pending => {
                    r.push(e.handle);
                },
                _ => {},
            }
            i += 1;
        }
        proof {
            assert(self.entries@.take(n as int) =~= self.entries@);
            lemma_pending_handles_count(self.entries@);
        }
        r
    }

    /// Whether the polling budget is used up or every handle is resolved.
    pub fn is_finished(&self) -> (r: bool)
        ensures
            r == finished(self@),
    {
        if self.attempts_used >= self.max_attempts {
            return true;
        }
        let n = self.entries.len();
        let mut i: usize = 0;
        while i < n
            invariant
                i <= n,
                n == self.entries@.len(),
                (self.attempts_used as int) < (self.max_attempts as int),
                forall|k: int| 0 <= k < i ==> !is_pending(self.entries@[k]),
            decreases n - i,
        {
            let e = self.entries[i];
            match e.status {
                ConfirmationStatus::Pending => {
                    proof {
                        lemma_pending_count_bounds(self.entries@);
                    }
                    return false;
                },
                _ => {},
            }
            i += 1;
        }
        proof {
            lemma_pending_count_bounds(self.entries@);
        }
        true
    }

    /// Current outcome for `h`: a pure lookup that performs no polling,
    /// so re-querying an already-resolved handle returns the same result.
    pub fn status_of(&self, h: SubmissionHandle) -> (r: Option<ConfirmationStatus>)
        ensures
            r == spec_status_of(self@, h),
    {
        let n = self.entries.len();
        let mut i: usize = 0;
        while i < n
            invariant
                i <= n,
                n == self.entries@.len(),
                forall|j: int| 0 <= j < i ==> self.entries@[j].handle != h,
            decreases n - i,
        {
            let e = self.entries[i];
            if e.handle.id == h.id {
                proof {
                    assert(e.handle == h);
                    lemma_handle_index(self.entries@, h);
                    assert(handle_index(self.entries@, h) == i);
                }
                return Some(e.status);
            }
            i += 1;
        }
        proof {
            lemma_handle_index(self.entries@, h);
            assert(handle_index(self.entries@, h) == -1);
        }
        None
    }
}

} // verus!
