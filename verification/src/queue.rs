use vstd::prelude::*;
use std::collections::VecDeque;

verus! {

/// A position in a `Queue`: the number of items pushed before the one it names.
#[derive(Clone, Copy, PartialEq, Eq, Structural, PartialOrd, Ord, Debug)]
pub struct QueueKey(pub u64);

/// A FIFO queue that hands out a stable key for every pushed item.
///
/// Keys count pushes from the start of the queue's life, so an item keeps
/// its key while the items before it are popped, and a key below
/// `front_key()` names an item that has already left the queue.
pub struct Queue<T> {
    front: QueueKey,
    queue: VecDeque<T>,
}

/// `VecDeque::get_mut` gives a mutable reference to the item at an index in range.
#[verifier::external_body]
fn deque_get_mut<T>(queue: &mut VecDeque<T>, index: usize) -> (r: &mut T)
    requires
        index < old(queue)@.len(),
    ensures
        *r == old(queue)@[index as int],
        final(queue)@ == old(queue)@.update(index as int, *final(r)),
{
    queue.get_mut(index).unwrap()
}

impl<T> Queue<T> {
    /// The key of the front item (or of the next pushed item, if empty).
    pub closed spec fn front_spec(&self) -> nat {
        self.front.0 as nat
    }

    /// The items, front first.
    pub closed spec fn items(&self) -> Seq<T> {
        self.queue@
    }

    /// The key the next `push_back` hands out.
    pub open spec fn next_key(&self) -> nat {
        self.front_spec() + self.items().len()
    }

    /// Keys stay within `u64`.
    pub closed spec fn wf(&self) -> bool {
        self.front.0 + self.queue@.len() <= u64::MAX
    }

    /// Whether `index` gives `key` an offset: from the front key up to
    /// one past the back.
    pub open spec fn indexable(&self, key: QueueKey) -> bool {
        self.front_spec() <= key.0 && key.0 - self.front_spec() <= self.items().len()
    }

    /// The item that `key` names, if it is still queued.
    pub open spec fn lookup(&self, key: QueueKey) -> Option<T> {
        if self.front_spec() <= key.0 && key.0 < self.next_key() {
            Some(self.items()[key.0 - self.front_spec()])
        } else {
            None
        }
    }

    pub fn new() -> (r: Self)
        ensures
            r.wf(),
            r.front_spec() == 0,
            r.items() == Seq::<T>::empty(),
    {
        Queue { front: QueueKey(0), queue: VecDeque::new() }
    }

    /// The offset of `key` from the front. The key one past the back also
    /// gets an offset, though no item stands there.
    pub fn index(&self, key: QueueKey) -> (r: Option<usize>)
        requires
            self.wf(),
        ensures
            r is Some <==> self.indexable(key),
            r matches Some(i) ==> i == key.0 - self.front_spec(),
    {
        let len = self.queue.len() as u64;
        if self.front.0 <= key.0 && key.0 - self.front.0 <= len {
            Some((key.0 - self.front.0) as usize)
        } else {
            None
        }
    }

    /// The item `key` names. A key one past the back is refused, since
    /// there is no item to read there.
    pub fn get(&self, key: QueueKey) -> (r: Option<&T>)
        requires
            self.wf(),
            key.0 != self.next_key(),
        ensures
            r == (match self.lookup(key) {
                Some(v) => Some(&v),
                None => None,
            }),
    {
        if let Some(index) = self.index(key) {
            Some(&self.queue[index])
        } else {
            None
        }
    }

    /// A mutable reference to the item `key` names. A key one past the
    /// back is refused, since there is no item there.
    pub fn get_mut(&mut self, key: QueueKey) -> (r: Option<&mut T>)
        requires
            old(self).wf(),
            key.0 != old(self).next_key(),
        ensures
            final(self).wf(),
            final(self).front_spec() == old(self).front_spec(),
            match old(self).lookup(key) {
                None => r is None && final(self).items() == old(self).items(),
                Some(v) => r matches Some(m) && *m == v && final(self).items()
                    == old(self).items().update(key.0 - old(self).front_spec(), *final(m)),
            },
    {
        if let Some(index) = self.index(key) {
            Some(deque_get_mut(&mut self.queue, index))
        } else {
            None
        }
    }

    /// Appends `value` and returns its key.
    pub fn push_back(&mut self, value: T) -> (key: QueueKey)
        requires
            old(self).next_key() < u64::MAX,
        ensures
            final(self).wf(),
            key.0 == old(self).next_key(),
            final(self).front_spec() == old(self).front_spec(),
            final(self).items() == old(self).items().push(value),
            final(self).lookup(key) == Some(value),
            queue_step(*old(self), *final(self)),
            forall|k: QueueKey| k != key ==> #[trigger] final(self).lookup(k) == old(self).lookup(k),
    {
        let key = self.front.0 + self.queue.len() as u64;
        let ghost before = self.queue@;
        self.queue.push_back(value);
        assert(self.queue@.take(before.len() as int) =~= before);
        QueueKey(key)
    }

    pub fn front(&self) -> (r: Option<&T>)
        ensures
            r == (if self.items().len() == 0 { None } else { Some(&self.items()[0]) }),
    {
        if self.queue.len() == 0 {
            None
        } else {
            Some(&self.queue[0])
        }
    }

    /// The key the next `push_back` hands out.
    pub fn back_key(&self) -> (r: QueueKey)
        requires
            self.wf(),
        ensures
            r.0 == self.next_key(),
    {
        QueueKey(self.front.0 + self.queue.len() as u64)
    }

    pub fn front_key(&self) -> (r: QueueKey)
        ensures
            r.0 == self.front_spec(),
    {
        self.front
    }

    /// Removes the front item; its key falls below `front_key()`.
    pub fn pop_front(&mut self) -> (r: Option<T>)
        requires
            old(self).wf(),
        ensures
            final(self).wf(),
            queue_step(*old(self), *final(self)),
            match r {
                Some(v) => {
                    &&& old(self).items().len() > 0
                    &&& v == old(self).items()[0]
                    &&& final(self).items() == old(self).items().drop_first()
                    &&& final(self).front_spec() == old(self).front_spec() + 1
                    &&& old(self).lookup(QueueKey(old(self).front_spec() as u64)) == Some(v)
                    &&& final(self).lookup(QueueKey(old(self).front_spec() as u64)) is None
                    &&& forall|k: QueueKey|
                        k.0 != old(self).front_spec() ==> #[trigger] final(self).lookup(k) == old(self).lookup(k)
                },
                None => {
                    &&& old(self).items().len() == 0
                    &&& final(self).items() == old(self).items()
                    &&& final(self).front_spec() == old(self).front_spec()
                },
            },
    {
        if let Some(value) = self.queue.pop_front() {
            self.front.0 = self.front.0 + 1;
            Some(value)
        } else {
            None
        }
    }
}

/// `b` is `a` after one `push_back` (of any item) or one `pop_front`, as
/// their contracts state it.
pub open spec fn queue_step<T>(a: Queue<T>, b: Queue<T>) -> bool {
    ||| {
        &&& b.front_spec() == a.front_spec()
        &&& b.items().len() == a.items().len() + 1
        &&& b.items().take(a.items().len() as int) == a.items()
    }
    ||| {
        &&& a.items().len() > 0
        &&& b.items() == a.items().drop_first()
        &&& b.front_spec() == a.front_spec() + 1
    }
    ||| {
        &&& a.items().len() == 0
        &&& b.items() == a.items()
        &&& b.front_spec() == a.front_spec()
    }
}

/// One push or pop keeps a key's item until the pop that takes it.
proof fn lemma_step_keeps_key<T>(a: Queue<T>, b: Queue<T>, k: QueueKey, x: T)
    requires
        queue_step(a, b),
        k.0 >= a.front_spec() ==> a.lookup(k) == Some(x),
    ensures
        a.front_spec() <= b.front_spec(),
        k.0 >= b.front_spec() ==> b.lookup(k) == Some(x),
        k.0 < b.front_spec() ==> b.lookup(k) is None,
        a.front_spec() <= k.0 < b.front_spec() ==> a.items()[0] == x,
{
    if b.front_spec() == a.front_spec() && b.items().len() == a.items().len() + 1
        && b.items().take(a.items().len() as int) == a.items() {
        if k.0 >= a.front_spec() && k.0 < a.next_key() {
            let i = k.0 - a.front_spec();
            assert(b.items().take(a.items().len() as int)[i] == b.items()[i]);
        }
    }
}

/// A key keeps naming its item until a pop takes it: over any run of
/// pushes and pops that starts with `k` naming `x`, the front key never
/// decreases and grows by one per pop of an item; while `k` is at or above
/// the front key it names `x`, and once below it names nothing, the pop
/// that passed it having taken `x`.
pub proof fn keys_stay<T>(run: Seq<Queue<T>>, k: QueueKey, x: T)
    requires
        run.len() > 0,
        forall|t: int| 0 <= t < run.len() - 1 ==> queue_step(#[trigger] run[t], run[t + 1]),
        run[0].lookup(k) == Some(x),
    ensures
        forall|t: int|
            0 <= t < run.len() ==> {
                &&& run[0].front_spec() <= #[trigger] run[t].front_spec()
                &&& (k.0 >= run[t].front_spec() ==> run[t].lookup(k) == Some(x))
                &&& (k.0 < run[t].front_spec() ==> run[t].lookup(k) is None)
            },
        forall|t: int|
            0 <= t < run.len() - 1 && run[t].front_spec() <= k.0 < #[trigger] run[t + 1].front_spec()
                ==> run[t].items()[0] == x,
    decreases run.len(),
{
    if run.len() > 1 {
        let shorter = run.drop_last();
        assert forall|t: int| 0 <= t < shorter.len() - 1 implies queue_step(#[trigger] shorter[t], shorter[t + 1]) by {
            assert(shorter[t] == run[t] && shorter[t + 1] == run[t + 1]);
        }
        keys_stay(shorter, k, x);
        let last = run.len() - 1;
        assert(shorter[last - 1] == run[last - 1]);
        assert(queue_step(run[last - 1], run[last]));
        lemma_step_keeps_key(run[last - 1], run[last], k, x);
        assert forall|t: int| 0 <= t < run.len() implies {
            &&& run[0].front_spec() <= #[trigger] run[t].front_spec()
            &&& (k.0 >= run[t].front_spec() ==> run[t].lookup(k) == Some(x))
            &&& (k.0 < run[t].front_spec() ==> run[t].lookup(k) is None)
        } by {
            if t < last {
                assert(shorter[t] == run[t]);
            }
        }
        assert forall|t: int|
            0 <= t < run.len() - 1 && run[t].front_spec() <= k.0 < #[trigger] run[t + 1].front_spec()
                implies run[t].items()[0] == x by {
            if t < last - 1 {
                assert(shorter[t] == run[t] && shorter[t + 1] == run[t + 1]);
            }
        }
    }
}

} // verus!
