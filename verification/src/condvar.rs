use vstd::prelude::*;
use std::collections::VecDeque;

verus! {

/// The waker of the task that holds it, taken when the task last ran.
pub struct WakerGuard<W>(pub W);

impl<W> WakerGuard<W> {
    /// Keeps the waker of the running task.
    pub fn new(waker: W) -> (r: Self)
        ensures
            r.0 == waker,
    {
        WakerGuard(waker)
    }
}

/// A wake-up chosen by `notify_one`, to be delivered after the lock is released.
pub struct Notifier<W>(pub Option<W>);

impl<W> Notifier<W> {
    /// Hands over the waker to wake, if a waiter was chosen.
    pub fn notify(self) -> (r: Option<W>)
        ensures
            r == self.0,
    {
        self.0
    }
}

/// The bookkeeping of an asynchronous condition variable: the mutex it is
/// tied to, and the queue of waiting tasks. Every waiter has a ticket; the
/// ticket of the front slot is `start`, and a cancelled waiter leaves an
/// empty slot behind.
pub struct CondvarState<W> {
    pub mutex: usize,
    pub start: u64,
    pub waiters: VecDeque<Option<W>>,
}

/// How many times `notify(count)` advances `start` on a queue `q`.
pub open spec fn notify_bumps<W>(q: Seq<Option<W>>, count: nat) -> nat
    decreases q.len(),
{
    if count == 0 {
        0
    } else if q.len() == 0 {
        1
    } else if q[0] is None {
        1 + notify_bumps(q.drop_first(), count)
    } else {
        1 + notify_bumps(q.drop_first(), (count - 1) as nat)
    }
}

/// How many slots `notify(count)` removes from the front of `q`.
pub open spec fn notify_pops<W>(q: Seq<Option<W>>, count: nat) -> nat
    decreases q.len(),
{
    if count == 0 || q.len() == 0 {
        0
    } else if q[0] is None {
        1 + notify_pops(q.drop_first(), count)
    } else {
        1 + notify_pops(q.drop_first(), (count - 1) as nat)
    }
}

/// The wakers of the occupied slots of `q`, in order.
pub open spec fn occupied<W>(q: Seq<Option<W>>) -> Seq<W>
    decreases q.len(),
{
    if q.len() == 0 {
        Seq::empty()
    } else {
        match q[0] {
            Some(w) => seq![w] + occupied(q.drop_first()),
            None => occupied(q.drop_first()),
        }
    }
}

/// The number of leading empty slots of `q`.
pub open spec fn empty_prefix<W>(q: Seq<Option<W>>) -> nat
    decreases q.len(),
{
    if q.len() > 0 && q[0] is None {
        1 + empty_prefix(q.drop_first())
    } else {
        0
    }
}

proof fn lemma_notify_counts<W>(q: Seq<Option<W>>, count: nat)
    ensures
        notify_pops(q, count) <= q.len(),
        notify_pops(q, count) <= notify_bumps(q, count) <= notify_pops(q, count) + 1,
        occupied(q.take(notify_pops(q, count) as int)).len() <= count,
        occupied(q.take(notify_pops(q, count) as int)).len() == count || notify_pops(q, count)
            == q.len(),
    decreases q.len(),
{
    if count == 0 || q.len() == 0 {
        assert(q.take(0) =~= Seq::<Option<W>>::empty());
    } else {
        let c2: nat = if q[0] is None { count } else { (count - 1) as nat };
        lemma_notify_counts(q.drop_first(), c2);
        let k = notify_pops(q.drop_first(), c2) as int;
        assert(q.take(k + 1).drop_first() =~= q.drop_first().take(k));
        assert(q.take(k + 1)[0] == q[0]);
    }
}

proof fn lemma_empty_prefix<W>(q: Seq<Option<W>>)
    ensures
        empty_prefix(q) <= q.len(),
        forall|i: int| 0 <= i < empty_prefix(q) ==> q[i] is None,
        empty_prefix(q) < q.len() ==> q[empty_prefix(q) as int] is Some,
    decreases q.len(),
{
    if q.len() > 0 && q[0] is None {
        lemma_empty_prefix(q.drop_first());
        assert forall|i: int| 0 <= i < empty_prefix(q) implies q[i] is None by {
            if i > 0 {
                assert(q[i] == q.drop_first()[i - 1]);
            }
        }
    }
}

impl<W> CondvarState<W> {
    pub fn new() -> (r: Self)
        ensures
            r.mutex == 0,
            r.start == 0,
            r.waiters@ == Seq::<Option<W>>::empty(),
    {
        CondvarState { mutex: 0, start: 0, waiters: VecDeque::new() }
    }

    /// Ties the condition variable to the first mutex used with it. Using
    /// another mutex later is a caller error.
    pub fn check_mutex(&mut self, mutex: usize)
        requires
            mutex != 0,
            old(self).mutex == 0 || old(self).mutex == mutex,
        ensures
            final(self).mutex == mutex,
            final(self).start == old(self).start,
            final(self).waiters@ == old(self).waiters@,
    {
        if self.mutex == 0 {
            self.mutex = mutex;
        }
    }

    /// Queues a waiter and returns its ticket.
    pub fn push_waiter(&mut self, waker: W) -> (index: u64)
        requires
            old(self).start + old(self).waiters@.len() <= u64::MAX,
        ensures
            index == old(self).start + old(self).waiters@.len(),
            final(self).mutex == old(self).mutex,
            final(self).start == old(self).start,
            final(self).waiters@ == old(self).waiters@.push(Some(waker)),
    {
        let index = self.start + self.waiters.len() as u64;
        self.waiters.push_back(Some(waker));
        index
    }

    /// Wakes up to `count` waiters, front first, skipping empty slots.
    /// Each slot looked at, and a look at an empty queue, advances `start`.
    /// Returns the wakers to wake.
    pub fn notify(&mut self, count: usize) -> (woken: Vec<W>)
        requires
            old(self).start + old(self).waiters@.len() < u64::MAX,
        ensures
            ({
                let q = old(self).waiters@;
                let k = notify_pops(q, count as nat);
                &&& final(self).waiters@ == q.skip(k as int)
                &&& final(self).start == old(self).start + notify_bumps(q, count as nat)
                &&& final(self).mutex == old(self).mutex
                &&& woken@ == occupied(q.take(k as int))
                &&& woken@.len() <= count
                &&& (woken@.len() == count || k == q.len())
            }),
    {
        let ghost q0 = self.waiters@;
        let ghost s0 = self.start;
        proof {
            lemma_notify_counts(q0, count as nat);
        }
        let mut count = count;
        let mut woken: Vec<W> = Vec::new();
        let ghost mut i: int = 0;
        let ghost c0 = count as nat;
        assert(q0.skip(0) =~= q0);
        assert(q0.take(0) =~= Seq::<Option<W>>::empty());
        while count > 0
            invariant_except_break
                self.start == s0 + i,
            invariant
                0 <= i <= q0.len(),
                self.waiters@ == q0.skip(i),
                self.mutex == old(self).mutex,
                s0 == old(self).start,
                q0 == old(self).waiters@,
                s0 + q0.len() < u64::MAX,
                woken@ == occupied(q0.take(i)),
                notify_pops(q0, c0) == i + notify_pops(q0.skip(i), count as nat),
                notify_bumps(q0, c0) == i + notify_bumps(q0.skip(i), count as nat),
                woken@.len() + count == c0,
            ensures
                self.waiters@ == q0.skip(notify_pops(q0, c0) as int),
                self.start == s0 + notify_bumps(q0, c0),
                self.mutex == old(self).mutex,
                woken@ == occupied(q0.take(notify_pops(q0, c0) as int)),
            decreases q0.len() - i + count,
        {
            let ghost rest = q0.skip(i);
            self.start = self.start + 1;
            match self.waiters.pop_front() {
                None => {
                    break;
                },
                Some(None) => {
                    proof {
                        lemma_occupied_push(q0, i);
                        assert(rest.drop_first() =~= q0.skip(i + 1));
                        i = i + 1;
                    }
                    continue;
                },
                Some(Some(x)) => {
                    woken.push(x);
                    count = count - 1;
                    proof {
                        lemma_occupied_push(q0, i);
                        assert(rest.drop_first() =~= q0.skip(i + 1));
                        i = i + 1;
                    }
                },
            }
        }
        woken
    }

    /// Chooses the first waiting task, dropping the empty slots before it.
    /// Advances `start` once.
    pub fn notify_one(&mut self) -> (r: Notifier<W>)
        requires
            old(self).start < u64::MAX,
        ensures
            ({
                let q = old(self).waiters@;
                let e = empty_prefix(q);
                &&& final(self).start == old(self).start + 1
                &&& final(self).mutex == old(self).mutex
                &&& if e < q.len() {
                    &&& r.0 == q[e as int]
                    &&& final(self).waiters@ == q.skip(e + 1int)
                } else {
                    &&& r.0 is None
                    &&& final(self).waiters@ == Seq::<Option<W>>::empty()
                }
            }),
    {
        let ghost q0 = self.waiters@;
        proof {
            lemma_empty_prefix(q0);
        }
        self.start = self.start + 1;
        let ghost mut i: int = 0;
        assert(q0.skip(0) =~= q0);
        loop
            invariant
                0 <= i <= empty_prefix(q0),
                self.waiters@ == q0.skip(i),
                self.start == old(self).start + 1,
                self.mutex == old(self).mutex,
                q0 == old(self).waiters@,
                empty_prefix(q0) <= q0.len(),
                forall|j: int| 0 <= j < empty_prefix(q0) ==> q0[j] is None,
                empty_prefix(q0) < q0.len() ==> q0[empty_prefix(q0) as int] is Some,
            decreases q0.len() - i,
        {
            let ghost rest = q0.skip(i);
            match self.waiters.pop_front() {
                None => {
                    return Notifier(None);
                },
                Some(x) => {
                    if let Some(x) = x {
                        return Notifier(Some(x));
                    }
                    proof {
                        assert(rest.drop_first() =~= q0.skip(i + 1));
                        i = i + 1;
                    }
                },
            }
        }
    }

    /// A poll of a waiting task with ticket `index`: still waiting while its
    /// ticket is not below `start`, in which case the newer waker is stored.
    /// Returns whether the wait is over.
    pub fn poll_waiter(&mut self, index: u64, waker: W) -> (done: bool)
        requires
            old(self).start <= index ==> index - old(self).start < old(self).waiters@.len(),
        ensures
            done == (old(self).start > index),
            final(self).start == old(self).start,
            final(self).mutex == old(self).mutex,
            done ==> final(self).waiters@ == old(self).waiters@,
            !done ==> final(self).waiters@ == old(self).waiters@.update(
                index - old(self).start,
                Some(waker),
            ),
    {
        if self.start <= index {
            assert(self.waiters.len() == self.waiters@.len());
            let i = (index - self.start) as usize;
            self.waiters.remove(i);
            self.waiters.insert(i, Some(waker));
            assert(self.waiters@ =~= old(self).waiters@.update(i as int, Some(waker)));
            false
        } else {
            true
        }
    }

    /// A waiting task with ticket `index` gives up. If its ticket is still
    /// above `start` its slot is emptied; otherwise a wake-up may already be
    /// on its way to it, and is passed on to the next waiter.
    pub fn cancel_waiter(&mut self, index: u64) -> (woken: Vec<W>)
        requires
            old(self).start < index ==> index - old(self).start < old(self).waiters@.len(),
            old(self).start + old(self).waiters@.len() < u64::MAX,
        ensures
            final(self).mutex == old(self).mutex,
            old(self).start < index ==> {
                &&& woken@ == Seq::<W>::empty()
                &&& final(self).start == old(self).start
                &&& final(self).waiters@ == old(self).waiters@.update(
                    index - old(self).start,
                    None,
                )
            },
            old(self).start >= index ==> {
                let q = old(self).waiters@;
                let k = notify_pops(q, 1);
                &&& final(self).waiters@ == q.skip(k as int)
                &&& final(self).start == old(self).start + notify_bumps(q, 1)
                &&& woken@ == occupied(q.take(k as int))
            },
    {
        if self.start < index {
            assert(self.waiters.len() == self.waiters@.len());
            let i = (index - self.start) as usize;
            self.waiters.remove(i);
            self.waiters.insert(i, None);
            assert(self.waiters@ =~= old(self).waiters@.update(i as int, None));
            Vec::new()
        } else {
            self.notify(1)
        }
    }
}

proof fn lemma_occupied_push<W>(q: Seq<Option<W>>, i: int)
    requires
        0 <= i < q.len(),
    ensures
        occupied(q.take(i + 1)) == occupied(q.take(i)) + (match q[i] {
            Some(w) => seq![w],
            None => Seq::<W>::empty(),
        }),
    decreases i,
{
    if i == 0 {
        assert(q.take(1).drop_first() =~= Seq::<Option<W>>::empty());
        assert(q.take(0) =~= Seq::<Option<W>>::empty());
        assert(occupied(q.take(1).drop_first()) == Seq::<W>::empty());
        match q[0] {
            Some(w) => {
                assert(seq![w] + Seq::<W>::empty() =~= seq![w]);
            },
            None => {},
        }
        assert(occupied(q.take(0)) == Seq::<W>::empty());
    } else {
        let t = q.drop_first();
        lemma_occupied_push(t, i - 1);
        assert(q.take(i + 1).drop_first() =~= t.take(i));
        assert(q.take(i).drop_first() =~= t.take(i - 1));
        assert(q.take(i + 1)[0] == q[0]);
        assert(q.take(i)[0] == q[0]);
        assert(q[i] == t[i - 1]);
        match q[0] {
            Some(w) => {
                assert(seq![w] + (occupied(t.take(i - 1)) + (match q[i] {
                    Some(w) => seq![w],
                    None => Seq::<W>::empty(),
                })) =~= (seq![w] + occupied(t.take(i - 1))) + (match q[i] {
                    Some(w) => seq![w],
                    None => Seq::<W>::empty(),
                }));
            },
            None => {},
        }
    }
}

/// How far a notify moves `start` against how many slots it removes: the
/// same, or one more when it looked at the emptied queue.
proof fn lemma_bumps_pops<W>(q: Seq<Option<W>>, count: nat)
    ensures
        notify_pops(q, count) <= q.len(),
        notify_bumps(q, count) == notify_pops(q, count) || (notify_bumps(q, count) == notify_pops(q, count) + 1
            && notify_pops(q, count) == q.len()),
    decreases q.len(),
{
    if count > 0 && q.len() > 0 {
        if q[0] is None {
            lemma_bumps_pops(q.drop_first(), count);
        } else {
            lemma_bumps_pops(q.drop_first(), (count - 1) as nat);
        }
    }
}

/// A waiter's ticket stays valid across a notify: with the waiter at
/// position `p` holding ticket `start + p`, every waiter a notify leaves
/// queued sits at its ticket minus the new start, every waiter it removes
/// holds a ticket below the new start, and the start does not decrease.
pub proof fn tickets_stay<W>(q: Seq<Option<W>>, start: int, count: nat)
    ensures
        ({
            let k = notify_pops(q, count);
            let new_start = start + notify_bumps(q, count);
            &&& new_start >= start
            &&& forall|p: int| k <= p < q.len() ==> #[trigger] q.skip(k as int)[p - k] == q[p] && new_start + (p - k) == start + p
            &&& forall|p: int| #![trigger q[p]] 0 <= p < k ==> start + p < new_start
        }),
{
    lemma_bumps_pops(q, count);
}

} // verus!
