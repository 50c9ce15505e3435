//! Per-record locks with FIFO waiter queues.
//!
//! One `Lock` governs one stored record position. Its state is either
//! `ReadRetained(n)` — `n` concurrent shared holders — or
//! `WriteRetained(n)` — one exclusive holder plus `n` shared grants
//! made under it — or `Blocked` — one non-preemptible exclusive
//! holder. A request that is not immediately compatible joins the
//! FIFO `waiting` queue under the requester's waiter handle; when a
//! release frees the lock, the head of the queue is granted, and
//! further queued requests compatible with the new state are granted
//! with it. The caller delivers the grant notifications to the
//! returned waiter handles.
use vstd::prelude::*;

verus! {

/// The kinds of lock a caller may request.
#[derive(Clone, Copy, Debug, PartialEq, Eq, Structural)]
pub enum LockType {
    /// A shared lock: compatible with other reads and with a single
    /// writer.
    Read,
    /// An exclusive lock that still admits shared grants under it.
    Write,
    /// A fully blocking exclusive lock: never granted while anything
    /// else holds the lock, and compatible with nothing.
    BlockingWrite,
}

/// The holder state of one lock.
#[derive(Clone, Copy, Debug, PartialEq, Eq, Structural)]
pub enum LockState {
    /// `n` concurrent shared holders (zero means the lock is idle).
    ReadRetained(u64),
    /// One exclusive holder plus `n` shared grants made under it.
    WriteRetained(u64),
    /// One non-preemptible exclusive holder.
    Blocked,
}

/// One lock: its holder state and its FIFO queue of waiting
/// requests, each a waiter handle paired with the requested kind.
pub struct Lock {
    /// The holder state.
    pub state: LockState,
    /// The waiting requests, oldest first.
    pub waiting: Vec<(u64, LockType)>,
}

/// Whether a request of kind `lock` is immediately compatible with
/// `state`: a `BlockingWrite` request never is; nothing is compatible
/// with a `Blocked` state; a `Write` request is incompatible with an
/// existing writer; all other combinations are granted at once.
pub open spec fn compatible(state: LockState, lock: LockType) -> bool {
    match lock {
        LockType::BlockingWrite => false,
        LockType::Read => !(state is Blocked),
        LockType::Write => state is ReadRetained,
    }
}

/// The state after a compatible request of kind `lock` is granted on
/// `state`: a shared grant increments the shared count; a write grant
/// on readers takes write ownership over them.
pub open spec fn spec_grant(state: LockState, lock: LockType) -> LockState
    recommends
        compatible(state, lock),
{
    match (state, lock) {
        (LockState::ReadRetained(n), LockType::Read) => LockState::ReadRetained((n + 1) as u64),
        (LockState::WriteRetained(n), LockType::Read) => LockState::WriteRetained((n + 1) as u64),
        (LockState::ReadRetained(n), LockType::Write) => LockState::WriteRetained(n),
        _ => state,
    }
}

/// The state a fresh grant of `lock` creates on an idle lock.
pub open spec fn spec_initial_state(lock: LockType) -> LockState {
    match lock {
        LockType::Read => LockState::ReadRetained(1),
        LockType::Write => LockState::WriteRetained(0),
        LockType::BlockingWrite => LockState::Blocked,
    }
}

/// Grants every queued request compatible with the running state, in
/// FIFO order, until the head is incompatible or the queue empties.
///
/// Returns the final state, the granted waiter handles in order, and
/// the requests left waiting.
pub open spec fn spec_poll(state: LockState, waiting: Seq<(u64, LockType)>) -> (
    LockState,
    Seq<u64>,
    Seq<(u64, LockType)>,
)
    decreases waiting.len(),
{
    if waiting.len() > 0 && compatible(state, waiting[0].1) {
        let r = spec_poll(spec_grant(state, waiting[0].1), waiting.drop_first());
        (r.0, seq![waiting[0].0] + r.1, r.2)
    } else {
        (state, seq![], waiting)
    }
}

/// When the last holder leaves: the head of the queue, if any, is
/// granted unconditionally, and further compatible requests are
/// granted behind it; an empty queue leaves an idle lock.
pub open spec fn spec_drain(waiting: Seq<(u64, LockType)>) -> (
    LockState,
    Seq<u64>,
    Seq<(u64, LockType)>,
) {
    if waiting.len() == 0 {
        (LockState::ReadRetained(0), seq![], waiting)
    } else {
        let r = spec_poll(spec_initial_state(waiting[0].1), waiting.drop_first());
        (r.0, seq![waiting[0].0] + r.1, r.2)
    }
}

/// Whether a release of kind `lock` is legal on `state`: only a kind
/// someone actually holds may be released.
pub open spec fn can_release(state: LockState, lock: LockType) -> bool {
    match state {
        LockState::ReadRetained(n) => lock is Read && n >= 1,
        LockState::WriteRetained(n) => lock is Write || (lock is Read && n >= 1),
        LockState::Blocked => lock is BlockingWrite,
    }
}

/// The outcome of a release: the new state, the granted waiter
/// handles, and the remaining queue.
pub open spec fn spec_release(
    state: LockState,
    waiting: Seq<(u64, LockType)>,
    lock: LockType,
) -> (LockState, Seq<u64>, Seq<(u64, LockType)>)
    recommends
        can_release(state, lock),
{
    match state {
        LockState::ReadRetained(n) => if n == 1 {
            spec_drain(waiting)
        } else {
            (LockState::ReadRetained((n - 1) as u64), seq![], waiting)
        },
        LockState::WriteRetained(n) => if lock is Read {
            (LockState::WriteRetained((n - 1) as u64), seq![], waiting)
        } else if n == 0 {
            spec_drain(waiting)
        } else {
            (LockState::ReadRetained(n), seq![], waiting)
        },
        LockState::Blocked => spec_drain(waiting),
    }
}

/// The shared or under-write count of a state; a `Blocked` state
/// counts as one.
pub open spec fn state_count(state: LockState) -> int {
    match state {
        LockState::ReadRetained(n) => n as int,
        LockState::WriteRetained(n) => n as int,
        LockState::Blocked => 1,
    }
}

/// The waiter handles of the first `m` queued requests, in order.
pub open spec fn queue_handles(waiting: Seq<(u64, LockType)>, m: int) -> Seq<u64>
    decreases m,
{
    if m <= 0 || waiting.len() == 0 {
        seq![]
    } else {
        seq![waiting[0].0] + queue_handles(waiting.drop_first(), m - 1)
    }
}

/// Waiters are granted strictly first in, first out: whatever a
/// release grants is exactly the handles of a prefix of the waiting
/// queue, in order, and the rest of the queue survives unchanged
/// behind it.
pub proof fn lemma_release_grants_fifo(
    state: LockState,
    waiting: Seq<(u64, LockType)>,
    lock: LockType,
)
    requires
        can_release(state, lock),
    ensures
        ({
            let outcome = spec_release(state, waiting, lock);
            &&& outcome.1.len() <= waiting.len()
            &&& outcome.1 == queue_handles(waiting, outcome.1.len() as int)
            &&& outcome.2 == waiting.skip(outcome.1.len() as int)
        }),
{
    let outcome = spec_release(state, waiting, lock);
    match state {
        LockState::ReadRetained(n) => {
            if n == 1 {
                lemma_drain_grants_fifo(waiting);
            } else {
                assert(outcome.1 =~= queue_handles(waiting, 0));
                assert(outcome.2 =~= waiting.skip(0));
            }
        },
        LockState::WriteRetained(n) => {
            if lock is Read || n != 0 {
                assert(outcome.1 =~= queue_handles(waiting, 0));
                assert(outcome.2 =~= waiting.skip(0));
            } else {
                lemma_drain_grants_fifo(waiting);
            }
        },
        LockState::Blocked => {
            lemma_drain_grants_fifo(waiting);
        },
    }
}

proof fn lemma_drain_grants_fifo(waiting: Seq<(u64, LockType)>)
    ensures
        ({
            let outcome = spec_drain(waiting);
            &&& outcome.1.len() <= waiting.len()
            &&& outcome.1 == queue_handles(waiting, outcome.1.len() as int)
            &&& outcome.2 == waiting.skip(outcome.1.len() as int)
        }),
{
    let outcome = spec_drain(waiting);
    if waiting.len() == 0 {
        assert(outcome.1 =~= queue_handles(waiting, 0));
        assert(outcome.2 =~= waiting.skip(0));
    } else {
        lemma_poll_grants_fifo(spec_initial_state(waiting[0].1), waiting.drop_first());
        let inner = spec_poll(spec_initial_state(waiting[0].1), waiting.drop_first());
        assert(outcome.1 =~= seq![waiting[0].0] + inner.1);
        assert(outcome.1 =~= queue_handles(waiting, outcome.1.len() as int));
        assert(outcome.2 =~= waiting.skip(outcome.1.len() as int)) by {
            assert(waiting.drop_first().skip(inner.1.len() as int) =~= waiting.skip(
                inner.1.len() as int + 1,
            ));
        }
    }
}

proof fn lemma_poll_grants_fifo(state: LockState, waiting: Seq<(u64, LockType)>)
    ensures
        ({
            let outcome = spec_poll(state, waiting);
            &&& outcome.1.len() <= waiting.len()
            &&& outcome.1 == queue_handles(waiting, outcome.1.len() as int)
            &&& outcome.2 == waiting.skip(outcome.1.len() as int)
        }),
    decreases waiting.len(),
{
    let outcome = spec_poll(state, waiting);
    if waiting.len() > 0 && compatible(state, waiting[0].1) {
        lemma_poll_grants_fifo(spec_grant(state, waiting[0].1), waiting.drop_first());
        let inner = spec_poll(spec_grant(state, waiting[0].1), waiting.drop_first());
        assert(outcome.1 =~= seq![waiting[0].0] + inner.1);
        assert(outcome.1 =~= queue_handles(waiting, outcome.1.len() as int));
        assert(outcome.2 =~= waiting.skip(outcome.1.len() as int)) by {
            assert(waiting.drop_first().skip(inner.1.len() as int) =~= waiting.skip(
                inner.1.len() as int + 1,
            ));
        }
    } else {
        assert(outcome.1 =~= queue_handles(waiting, 0));
        assert(outcome.2 =~= waiting.skip(0));
    }
}

impl Lock {
    /// Creates a lock whose first acquisition, of kind `lock`, is
    /// granted immediately.
    pub fn new(lock: LockType) -> (r: Self)
        ensures
            r.state == spec_initial_state(lock),
            r.waiting@ == Seq::<(u64, LockType)>::empty(),
    {
        let state = match lock {
            LockType::Read => LockState::ReadRetained(1),
            LockType::Write => LockState::WriteRetained(0),
            LockType::BlockingWrite => LockState::Blocked,
        };
        let r = Lock { state, waiting: Vec::new() };
        proof {
            assert(r.waiting@ =~= Seq::<(u64, LockType)>::empty());
        }
        r
    }

    /// Requests the lock in kind `lock` for `waiter`.
    ///
    /// Returns whether the request was granted immediately; when it
    /// was not, the request waits in FIFO order and the caller must
    /// suspend the waiter until a release grants it.
    pub fn queue(&mut self, waiter: u64, lock: LockType) -> (granted: bool)
        requires
            state_count(old(self).state) < u64::MAX,
        ensures
            granted == compatible(old(self).state, lock),
            granted ==> final(self).state == spec_grant(old(self).state, lock)
                && final(self).waiting == old(self).waiting,
            !granted ==> final(self).state == old(self).state
                && final(self).waiting@ == old(self).waiting@.push((waiter, lock)),
    {
        let compat = match lock {
            LockType::BlockingWrite => false,
            LockType::Read => !matches!(self.state, LockState::Blocked),
            LockType::Write => matches!(self.state, LockState::ReadRetained(_)),
        };
        if compat {
            self.state = match (self.state, lock) {
                (LockState::ReadRetained(n), LockType::Read) => LockState::ReadRetained(n + 1),
                (LockState::WriteRetained(n), LockType::Read) => LockState::WriteRetained(n + 1),
                (LockState::ReadRetained(n), LockType::Write) => LockState::WriteRetained(n),
                (s, _) => s,
            };
            true
        } else {
            self.waiting.push((waiter, lock));
            false
        }
    }

    /// Releases one holder of kind `lock`.
    ///
    /// When the release frees the lock — the last shared holder
    /// leaves, a fully drained writer leaves, or a blocking holder
    /// leaves — the head of the waiting queue is granted, then every
    /// further queued request compatible with the new state, strictly
    /// in FIFO order. Returns the granted waiter handles; the caller
    /// delivers their notifications.
    #[verifier::loop_isolation(false)]
    pub fn release(&mut self, lock: &LockType) -> (granted: Vec<u64>)
        requires
            can_release(old(self).state, *lock),
            old(self).waiting@.len() + 2 <= u64::MAX,
        ensures
            final(self).state == spec_release(old(self).state, old(self).waiting@, *lock).0,
            granted@ == spec_release(old(self).state, old(self).waiting@, *lock).1,
            final(self).waiting@ == spec_release(old(self).state, old(self).waiting@, *lock).2,
    {
        match self.state {
            LockState::ReadRetained(n) => {
                if n > 1 {
                    self.state = LockState::ReadRetained(n - 1);
                    Vec::new()
                } else {
                    self.drain()
                }
            },
            LockState::WriteRetained(n) => {
                if matches!(lock, LockType::Read) {
                    self.state = LockState::WriteRetained(n - 1);
                    Vec::new()
                } else if n == 0 {
                    self.drain()
                } else {
                    self.state = LockState::ReadRetained(n);
                    Vec::new()
                }
            },
            LockState::Blocked => self.drain(),
        }
    }

    /// Grants the head of the queue and then every further compatible
    /// request, leaving the lock idle when the queue is empty.
    fn drain(&mut self) -> (granted: Vec<u64>)
        requires
            old(self).waiting@.len() + 2 <= u64::MAX,
        ensures
            final(self).state == spec_drain(old(self).waiting@).0,
            granted@ == spec_drain(old(self).waiting@).1,
            final(self).waiting@ == spec_drain(old(self).waiting@).2,
    {
        let ghost w0 = self.waiting@;
        let mut granted: Vec<u64> = Vec::new();
        if self.waiting.len() == 0 {
            self.state = LockState::ReadRetained(0);
            proof {
                assert(granted@ =~= spec_drain(w0).1);
            }
            return granted;
        }
        let head = self.waiting.remove(0);
        self.state = match head.1 {
            LockType::Read => LockState::ReadRetained(1),
            LockType::Write => LockState::WriteRetained(0),
            LockType::BlockingWrite => LockState::Blocked,
        };
        granted.push(head.0);
        proof {
            assert(self.waiting@ =~= w0.drop_first());
            assert(granted@ =~= seq![w0[0].0]);
        }
        let ghost target = spec_poll(spec_initial_state(w0[0].1), w0.drop_first());
        loop
            invariant
                state_count(self.state) <= 1 + granted@.len(),
                granted@.len() >= 1,
                granted@[0] == w0[0].0,
                granted@.len() + self.waiting@.len() + 1 <= u64::MAX,
                granted@.len() + self.waiting@.len() == 1 + w0.drop_first().len(),
                target == ({
                    let r = spec_poll(self.state, self.waiting@);
                    (r.0, granted@.subrange(1, granted@.len() as int) + r.1, r.2)
                }),
            ensures
                granted@.len() >= 1,
                granted@[0] == w0[0].0,
                self.waiting@.len() == 0 || !compatible(self.state, self.waiting@[0].1),
                target == ({
                    let r = spec_poll(self.state, self.waiting@);
                    (r.0, granted@.subrange(1, granted@.len() as int) + r.1, r.2)
                }),
            decreases self.waiting@.len(),
        {
            if self.waiting.len() == 0 {
                break;
            }
            let head_kind = self.waiting[0].1;
            let compat = match (self.state, head_kind) {
                (_, LockType::BlockingWrite) => false,
                (LockState::Blocked, _) => false,
                (LockState::WriteRetained(_), LockType::Write) => false,
                _ => true,
            };
            if !compat {
                break;
            }
            let ghost prev = self.waiting@;
            let next = self.waiting.remove(0);
            self.state = match (self.state, next.1) {
                (LockState::ReadRetained(n), LockType::Read) => LockState::ReadRetained(n + 1),
                (LockState::WriteRetained(n), LockType::Read) => LockState::WriteRetained(n + 1),
                (LockState::ReadRetained(n), LockType::Write) => LockState::WriteRetained(n),
                (s, _) => s,
            };
            granted.push(next.0);
            proof {
                assert(self.waiting@ =~= prev.drop_first());
                assert(granted@.subrange(1, granted@.len() as int) =~= granted@.subrange(
                    1,
                    granted@.len() - 1,
                ).push(next.0));
                let r = spec_poll(self.state, self.waiting@);
                assert(granted@.subrange(1, granted@.len() - 1).push(next.0) + r.1
                    =~= granted@.subrange(1, granted@.len() - 1) + (seq![next.0] + r.1));
            }
        }
        proof {
            let r = spec_poll(self.state, self.waiting@);
            assert(r.1 =~= Seq::<u64>::empty());
            assert(granted@.subrange(1, granted@.len() as int) + Seq::<u64>::empty()
                =~= granted@.subrange(1, granted@.len() as int));
            assert(seq![w0[0].0] + granted@.subrange(1, granted@.len() as int) =~= granted@);
        }
        granted
    }
}

} // verus!
