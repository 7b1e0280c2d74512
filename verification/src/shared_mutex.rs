use vstd::prelude::*;
use crate::queue::{Queue, QueueKey};
use crate::WouldBlock;

verus! {

/// A queued request: how much it waits for, and how to wake it.
pub struct Waiter<W> {
    pub waker: W,
    pub amount: usize,
}

/// The state a fair, weighted semaphore keeps under its lock: the free
/// amount and the queue of requests that could not be granted at once.
///
/// Requests are granted strictly in arrival order: a new request never
/// overtakes a queued one, and a release grants queued requests from the
/// front for as long as the free amount covers them.
pub struct SemaphoreInner<W> {
    available: usize,
    waiting: Queue<Waiter<W>>,
}

/// Where one `acquire` call stands.
#[derive(Clone, Copy)]
pub enum AcquireMode {
    /// Not yet polled.
    Enter,
    /// Queued under this key.
    Waiting(QueueKey),
    /// Granted; the request is finished.
    Poison,
}

/// The state of one `acquire` call: the amount asked for and its progress.
pub struct AcquireImpl {
    pub amount: usize,
    pub mode: AcquireMode,
}

/// What a poll of a pending acquire reports.
#[derive(PartialEq, Eq, Structural, Debug, Clone, Copy)]
pub enum AcquirePoll {
    Ready,
    Pending,
}

/// How many queued requests, taken from the front, `available` covers,
/// each paid for before the next is looked at.
pub open spec fn grant_count<W>(queue: Seq<Waiter<W>>, available: int) -> nat
    decreases queue.len(),
{
    if queue.len() == 0 || queue[0].amount > available {
        0
    } else {
        1 + grant_count(queue.drop_first(), available - queue[0].amount)
    }
}

/// What is left of `available` after the requests `grant_count` counts are paid.
pub open spec fn grant_rest<W>(queue: Seq<Waiter<W>>, available: int) -> int
    decreases queue.len(),
{
    if queue.len() == 0 || queue[0].amount > available {
        available
    } else {
        grant_rest(queue.drop_first(), available - queue[0].amount)
    }
}

/// The total amount the given requests ask for.
pub open spec fn total_amount<W>(queue: Seq<Waiter<W>>) -> int
    decreases queue.len(),
{
    if queue.len() == 0 {
        0
    } else {
        queue[0].amount + total_amount(queue.drop_first())
    }
}

/// The wakers of the given requests, in order.
pub open spec fn wakers_of<W>(queue: Seq<Waiter<W>>) -> Seq<W> {
    queue.map_values(|w: Waiter<W>| w.waker)
}

proof fn lemma_grant_bounds<W>(queue: Seq<Waiter<W>>, available: int)
    requires
        available >= 0,
    ensures
        grant_count(queue, available) <= queue.len(),
        0 <= grant_rest(queue, available) <= available,
        grant_rest(queue, available) + total_amount(queue.take(grant_count(queue, available) as int))
            == available,
        grant_count(queue, available) < queue.len() ==> queue[grant_count(queue, available) as int].amount
            > grant_rest(queue, available),
    decreases queue.len(),
{
    if queue.len() == 0 || queue[0].amount > available {
        assert(queue.take(0) =~= Seq::<Waiter<W>>::empty());
    } else {
        let rest = queue.drop_first();
        let a = available - queue[0].amount;
        lemma_grant_bounds(rest, a);
        let k = grant_count(rest, a) as int;
        assert(queue.take(k + 1).drop_first() =~= rest.take(k));
        assert(queue.take(k + 1)[0] == queue[0]);
    }
}

impl<W> SemaphoreInner<W> {
    pub closed spec fn available_spec(&self) -> nat {
        self.available as nat
    }

    /// The queued requests, front first.
    pub closed spec fn queue_spec(&self) -> Seq<Waiter<W>> {
        self.waiting.items()
    }

    /// The key of the front request.
    pub closed spec fn front_key_spec(&self) -> nat {
        self.waiting.front_spec()
    }

    /// The key the next queued request gets.
    pub open spec fn next_key_spec(&self) -> nat {
        self.front_key_spec() + self.queue_spec().len()
    }

    pub closed spec fn wf(&self) -> bool {
        self.waiting.wf()
    }

    /// `acq` belongs to this semaphore: a queued request has a key that was handed out.
    pub open spec fn owns(&self, acq: AcquireImpl) -> bool {
        acq.mode matches AcquireMode::Waiting(k) ==> k.0 < self.next_key_spec()
    }

    pub fn new(initial: usize) -> (r: Self)
        ensures
            r.wf(),
            r.available_spec() == initial,
            r.queue_spec() == Seq::<Waiter<W>>::empty(),
            r.front_key_spec() == 0,
    {
        SemaphoreInner { available: initial, waiting: Queue::new() }
    }

    pub fn available(&self) -> (r: usize)
        ensures
            r == self.available_spec(),
    {
        self.available
    }

    /// The key the next queued request gets.
    pub fn next_key(&self) -> (r: u64)
        requires
            self.wf(),
        ensures
            r == self.next_key_spec(),
    {
        self.waiting.back_key().0
    }

    /// Takes `amount` at once if it is free and nobody is queued.
    pub fn try_acquire(&mut self, amount: usize) -> (r: Result<(), WouldBlock>)
        requires
            old(self).wf(),
        ensures
            final(self).wf(),
            final(self).queue_spec() == old(self).queue_spec(),
            final(self).front_key_spec() == old(self).front_key_spec(),
            r is Ok <==> (amount <= old(self).available_spec() && old(self).queue_spec().len() == 0),
            r is Ok ==> final(self).available_spec() == old(self).available_spec() - amount,
            r is Err ==> final(self).available_spec() == old(self).available_spec(),
            permit_step(*old(self), *final(self), if r is Ok { amount as int } else { 0 }, 0),
    {
        if amount <= self.available && self.waiting.front().is_none() {
            self.available = self.available - amount;
            Ok(())
        } else {
            Err(WouldBlock)
        }
    }

    /// Adds `amount` to the free amount, then grants queued requests from
    /// the front while the free amount covers them. Returns the wakers of
    /// the granted requests, in order, for the caller to wake.
    pub fn release(&mut self, amount: usize) -> (woken: Vec<W>)
        requires
            old(self).wf(),
            old(self).available_spec() + amount <= usize::MAX,
        ensures
            final(self).wf(),
            ({
                let total = old(self).available_spec() + amount;
                let k = grant_count(old(self).queue_spec(), total);
                &&& final(self).queue_spec() == old(self).queue_spec().skip(k as int)
                &&& final(self).front_key_spec() == old(self).front_key_spec() + k
                &&& permit_step(*old(self), *final(self), total_amount(old(self).queue_spec().take(k as int)), amount as int)
                &&& final(self).available_spec() == grant_rest(old(self).queue_spec(), total)
                &&& woken@ == wakers_of(old(self).queue_spec().take(k as int))
            }),
    {
        let ghost q0 = self.waiting.items();
        let ghost total: int = self.available + amount;
        let ghost f0 = self.waiting.front_spec();
        self.available = self.available + amount;
        let mut woken: Vec<W> = Vec::new();
        let ghost mut i: int = 0;
        assert(q0.skip(0) =~= q0);
        assert(q0.take(0) =~= Seq::<Waiter<W>>::empty());
        assert(wakers_of(q0.take(0)) =~= Seq::<W>::empty());
        loop
            invariant
                self.waiting.wf(),
                0 <= i <= q0.len(),
                self.waiting.items() == q0.skip(i),
                self.waiting.front_spec() == f0 + i,
                woken@ == wakers_of(q0.take(i)),
                grant_count(q0, total) == i + grant_count(q0.skip(i), self.available as int),
                grant_rest(q0, total) == grant_rest(q0.skip(i), self.available as int),
            ensures
                self.waiting.wf(),
                0 <= i <= q0.len(),
                self.waiting.items() == q0.skip(i),
                self.waiting.front_spec() == f0 + i,
                woken@ == wakers_of(q0.take(i)),
                grant_count(q0, total) == i,
                grant_rest(q0, total) == self.available,
            decreases q0.len() - i,
        {
            let ghost rest = q0.skip(i);
            let fits = match self.waiting.front() {
                None => false,
                Some(front) => front.amount <= self.available,
            };
            if !fits {
                break;
            }
            let waiter = self.waiting.pop_front().unwrap();
            self.available = self.available - waiter.amount;
            woken.push(waiter.waker);
            proof {
                assert(rest.drop_first() =~= q0.skip(i + 1));
                assert(q0.take(i + 1) =~= q0.take(i).push(rest[0]));
                assert(wakers_of(q0.take(i + 1)) =~= wakers_of(q0.take(i)).push(rest[0].waker));
                i = i + 1;
            }
        }
        proof {
            lemma_grant_bounds(q0, total);
        }
        woken
    }

    /// Starts or continues an acquire. A first poll takes the amount at
    /// once when it is free and nobody is queued, and otherwise queues the
    /// request. A later poll reports whether a release granted it, and
    /// otherwise stores the newer waker.
    pub fn acquire_poll(&mut self, acq: &mut AcquireImpl, waker: W) -> (r: AcquirePoll)
        requires
            old(self).wf(),
            old(self).owns(*old(acq)),
            !(old(acq).mode is Poison),
            old(self).next_key_spec() < u64::MAX,
        ensures
            final(self).wf(),
            final(self).owns(*final(acq)),
            final(acq).amount == old(acq).amount,
            final(self).front_key_spec() == old(self).front_key_spec(),
            (r == AcquirePoll::Ready) <==> (final(acq).mode is Poison),
            permit_step(*old(self), *final(self), if old(acq).mode is Enter && r == AcquirePoll::Ready {
                old(acq).amount as int
            } else {
                0
            }, 0),
            match old(acq).mode {
                AcquireMode::Enter => if old(acq).amount <= old(self).available_spec()
                    && old(self).queue_spec().len() == 0 {
                    &&& r == AcquirePoll::Ready
                    &&& final(self).available_spec() == old(self).available_spec() - old(acq).amount
                    &&& final(self).queue_spec() == old(self).queue_spec()
                } else {
                    &&& r == AcquirePoll::Pending
                    &&& final(acq).mode == AcquireMode::Waiting(QueueKey(old(self).next_key_spec() as u64))
                    &&& final(self).available_spec() == old(self).available_spec()
                    &&& final(self).queue_spec() == old(self).queue_spec().push(
                        Waiter { waker, amount: old(acq).amount })
                },
                AcquireMode::Waiting(k) => if k.0 < old(self).front_key_spec() {
                    &&& r == AcquirePoll::Ready
                    &&& final(self).available_spec() == old(self).available_spec()
                    &&& final(self).queue_spec() == old(self).queue_spec()
                } else {
                    let i = k.0 - old(self).front_key_spec();
                    &&& r == AcquirePoll::Pending
                    &&& final(acq).mode == old(acq).mode
                    &&& final(self).available_spec() == old(self).available_spec()
                    &&& final(self).queue_spec() == old(self).queue_spec().update(i,
                        Waiter { waker, amount: old(self).queue_spec()[i].amount })
                },
                AcquireMode::Poison => false,
            },
    {
        match acq.mode {
            AcquireMode::Enter => {
                if acq.amount <= self.available && self.waiting.front().is_none() {
                    self.available = self.available - acq.amount;
                    acq.mode = AcquireMode::Poison;
                    return AcquirePoll::Ready;
                }
                let id = self.waiting.push_back(Waiter { waker, amount: acq.amount });
                acq.mode = AcquireMode::Waiting(id);
                AcquirePoll::Pending
            }
            AcquireMode::Waiting(id) => {
                if id.0 < self.waiting.front_key().0 {
                    acq.mode = AcquireMode::Poison;
                    AcquirePoll::Ready
                } else {
                    let call = self.waiting.get_mut(id).unwrap();
                    call.waker = waker;
                    AcquirePoll::Pending
                }
            }
            AcquireMode::Poison => {
                proof {
                    assert(false);
                }
                AcquirePoll::Ready
            }
        }
    }

    /// Abandons an acquire. A queued request that a release already granted
    /// gives its amount back (granting others in turn, whose wakers are
    /// returned); one still queued keeps its place but now asks for nothing.
    pub fn acquire_drop(&mut self, acq: &AcquireImpl) -> (woken: Vec<W>)
        requires
            old(self).wf(),
            old(self).owns(*acq),
            acq.mode matches AcquireMode::Waiting(k) && k.0 < old(self).front_key_spec()
                ==> old(self).available_spec() + acq.amount <= usize::MAX,
        ensures
            final(self).wf(),
            match acq.mode {
                AcquireMode::Waiting(k) => if k.0 < old(self).front_key_spec() {
                    let total = old(self).available_spec() + acq.amount;
                    let n = grant_count(old(self).queue_spec(), total);
                    &&& final(self).queue_spec() == old(self).queue_spec().skip(n as int)
                    &&& final(self).front_key_spec() == old(self).front_key_spec() + n
                    &&& final(self).available_spec() == grant_rest(old(self).queue_spec(), total)
                    &&& permit_step(*old(self), *final(self), total_amount(old(self).queue_spec().take(n as int)), acq.amount as int)
                    &&& woken@ == wakers_of(old(self).queue_spec().take(n as int))
                } else {
                    let i = k.0 - old(self).front_key_spec();
                    &&& woken@ == Seq::<W>::empty()
                    &&& final(self).front_key_spec() == old(self).front_key_spec()
                    &&& final(self).available_spec() == old(self).available_spec()
                    &&& permit_step(*old(self), *final(self), 0, 0)
                    &&& final(self).queue_spec() == old(self).queue_spec().update(i,
                        Waiter { waker: old(self).queue_spec()[i].waker, amount: 0 })
                },
                _ => {
                    &&& woken@ == Seq::<W>::empty()
                    &&& *final(self) == *old(self)
                },
            },
    {
        match acq.mode {
            AcquireMode::Waiting(id) => {
                if id.0 < self.waiting.front_key().0 {
                    self.release(acq.amount)
                } else {
                    let call = self.waiting.get_mut(id).unwrap();
                    call.amount = 0;
                    Vec::new()
                }
            }
            _ => Vec::new(),
        }
    }
}

impl AcquireImpl {
    /// A fresh, not yet polled request for `amount`.
    pub fn new(amount: usize) -> (r: Self)
        ensures
            r.amount == amount,
            r.mode is Enter,
    {
        AcquireImpl { amount, mode: AcquireMode::Enter }
    }
}

/// A release hands out exactly what it adds: what the granted requests
/// take plus what stays free equals the free amount before plus the amount
/// released; and it stops only where the next request needs more than is
/// left.
pub proof fn release_conserves<W>(queue: Seq<Waiter<W>>, available: nat, amount: nat)
    ensures
        ({
            let k = grant_count(queue, (available + amount) as int);
            let rest = grant_rest(queue, (available + amount) as int);
            &&& k <= queue.len()
            &&& rest + total_amount(queue.take(k as int)) == available + amount
            &&& k < queue.len() ==> queue[k as int].amount > rest
        }),
{
    lemma_grant_bounds(queue, (available + amount) as int);
}

/// Giving back what was just taken at once undoes the taking: when nobody
/// waits, a release of the amount a `try_acquire` took restores the free
/// amount and grants nobody.
pub proof fn release_undoes_try_acquire<W>(available: nat, amount: nat)
    requires
        amount <= available,
    ensures
        ({
            let queue = Seq::<Waiter<W>>::empty();
            let total = (available - amount) + amount;
            &&& grant_count(queue, total) == 0
            &&& grant_rest(queue, total) == available
            &&& queue.skip(grant_count(queue, total) as int) == queue
        }),
{
    let queue = Seq::<Waiter<W>>::empty();
    assert(queue.skip(0) =~= queue);
}

/// `b` is `a` after a step that hands out `granted` permits and takes back
/// `returned`: the free amount moves by exactly that.
pub open spec fn permit_step<W>(a: SemaphoreInner<W>, b: SemaphoreInner<W>, granted: int, returned: int) -> bool {
    b.available_spec() + granted == a.available_spec() + returned
}

/// The sum of `s`.
pub open spec fn sum(s: Seq<int>) -> int
    decreases s.len(),
{
    if s.len() == 0 {
        0
    } else {
        sum(s.drop_last()) + s.last()
    }
}

/// Permits are neither made nor lost: over any run of steps, the free
/// amount plus what was handed out and not given back stays what the run
/// started with; so what is held never exceeds the free amount at the start.
pub proof fn permits_conserved<W>(run: Seq<SemaphoreInner<W>>, granted: Seq<int>, returned: Seq<int>)
    requires
        run.len() == granted.len() + 1,
        granted.len() == returned.len(),
        forall|t: int| 0 <= t < granted.len() ==> permit_step(#[trigger] run[t], run[t + 1], granted[t], returned[t]),
    ensures
        run.last().available_spec() + sum(granted) - sum(returned) == run[0].available_spec(),
        sum(granted) - sum(returned) <= run[0].available_spec(),
    decreases granted.len(),
{
    if granted.len() > 0 {
        let n = granted.len() - 1;
        let shorter = run.drop_last();
        assert forall|t: int| 0 <= t < granted.drop_last().len() implies permit_step(
            #[trigger] shorter[t],
            shorter[t + 1],
            granted.drop_last()[t],
            returned.drop_last()[t],
        ) by {
            assert(shorter[t] == run[t] && shorter[t + 1] == run[t + 1]);
        }
        permits_conserved(shorter, granted.drop_last(), returned.drop_last());
        assert(permit_step(run[n], run[n + 1], granted[n], returned[n]));
        assert(shorter.last() == run[n]);
    }
}

proof fn lemma_prefix_conserved<W>(run: Seq<SemaphoreInner<W>>, granted: Seq<int>, returned: Seq<int>, t: int)
    requires
        run.len() == granted.len() + 1,
        granted.len() == returned.len(),
        0 <= t <= granted.len(),
        forall|u: int| 0 <= u < granted.len() ==> permit_step(#[trigger] run[u], run[u + 1], granted[u], returned[u]),
    ensures
        run[t].available_spec() + sum(granted.take(t)) - sum(returned.take(t)) == run[0].available_spec(),
{
    let prefix = run.take(t + 1);
    let g = granted.take(t);
    let r = returned.take(t);
    assert forall|u: int| 0 <= u < g.len() implies permit_step(#[trigger] prefix[u], prefix[u + 1], g[u], r[u]) by {
        assert(prefix[u] == run[u] && prefix[u + 1] == run[u + 1]);
        assert(permit_step(run[u], run[u + 1], granted[u], returned[u]));
    }
    permits_conserved(prefix, g, r);
    assert(prefix.last() == run[t]);
    assert(prefix[0] == run[0]);
}

/// Permit safety at every moment: on a semaphore made with `capacity`
/// free permits, after any prefix of a run of steps the permits handed out
/// and not given back are exactly what left the free amount, so they never
/// exceed `capacity`.
pub proof fn permits_held_bounded<W>(
    run: Seq<SemaphoreInner<W>>,
    granted: Seq<int>,
    returned: Seq<int>,
    capacity: nat,
)
    requires
        run.len() == granted.len() + 1,
        granted.len() == returned.len(),
        run[0].available_spec() == capacity,
        forall|t: int| 0 <= t < granted.len() ==> permit_step(#[trigger] run[t], run[t + 1], granted[t], returned[t]),
    ensures
        forall|t: int|
            0 <= t <= granted.len() ==> sum(#[trigger] granted.take(t)) - sum(returned.take(t)) == capacity
                - run[t].available_spec() <= capacity,
{
    assert forall|t: int| 0 <= t <= granted.len() implies sum(#[trigger] granted.take(t)) - sum(returned.take(t))
        == capacity - run[t].available_spec() <= capacity by {
        lemma_prefix_conserved(run, granted, returned, t);
    }
}

} // verus!
