use vstd::prelude::*;
use std::sync::Arc;
use std::sync::atomic::AtomicI64;
use std::sync::atomic::Ordering;

verus! {

/// The acquiring side of the semaphore is gone: its releaser was dropped.
#[derive(Clone, Copy, PartialEq, Eq, Structural, PartialOrd, Ord, Hash, Debug)]
pub struct AcquireError;

/// The most permits the semaphore can count.
pub const SEMAPHORE_MAX: u64 = 0x7fff_ffff_ffff_ffff;

/// The shared count of free permits, `i64::MIN` once the releaser is gone.
/// Waking the acquirer when the count changes is left to the caller.
struct Inner {
    available: AtomicI64,
}

/// The one side that takes permits.
pub struct Acquirer(Arc<Inner>);

/// The one side that gives permits.
pub struct Releaser(Arc<Inner>);

/// The count as a signed number; every count up to `SEMAPHORE_MAX` fits.
fn signed(count: u64) -> (r: i64)
    requires
        count <= SEMAPHORE_MAX,
    ensures
        r == count,
{
    count as i64
}

impl Acquirer {
    /// `self` and `releaser` are the two sides of one semaphore: they hold
    /// the same shared count (the same value, as Verus sees shared state).
    pub closed spec fn pairs_with(&self, releaser: &Releaser) -> bool {
        self.0 == releaser.0
    }

    /// The shared count this side reads and takes from.
    pub closed spec fn count(&self) -> AtomicI64 {
        self.0.available
    }
}

impl Releaser {
    /// The shared count this side gives to.
    pub closed spec fn count(&self) -> AtomicI64 {
        self.0.available
    }
}

/// A single-acquirer, single-releaser semaphore with `initial` permits: its
/// acquiring and its releasing side, which share one count made by
/// `AtomicI64::new` from `initial`.
pub fn semaphore(initial: u64) -> (r: (Acquirer, Releaser))
    requires
        initial <= SEMAPHORE_MAX,
    ensures
        r.0.pairs_with(&r.1),
        r.0.count() == r.1.count(),
        exists|v: i64| v == initial && #[trigger] call_ensures(AtomicI64::new, (v,), r.0.count()),
{
    let v = signed(initial);
    let count = AtomicI64::new(v);
    assert(call_ensures(AtomicI64::new, (v,), count));
    let inner = Arc::new(Inner { available: count });
    assert(inner.available == count);
    let r = (Acquirer(inner.clone()), Releaser(inner));
    assert(r.0.count() == count);
    r
}

/// The ordering with which the acquirer reads the count.
pub open spec fn load_order() -> Ordering {
    Ordering::Acquire
}

/// The ordering with which either side changes the count by an amount.
pub open spec fn update_order() -> Ordering {
    Ordering::AcqRel
}

/// The ordering with which the releaser marks the count as closed.
pub open spec fn close_order() -> Ordering {
    Ordering::Release
}

/// What `acquire_outcome` decides: take the permits if they suffice; fail
/// if the releaser is gone; else wait.
pub open spec fn outcome(available: i64, acquire: i64) -> Result<bool, AcquireError> {
    if acquire <= available {
        Ok(true)
    } else if available == i64::MIN {
        Err(AcquireError)
    } else {
        Ok(false)
    }
}

/// Whether a release of `release` permits onto a count that was `previous`
/// stays within `i64`.
pub open spec fn stays_in_range(previous: i64, release: i64) -> bool {
    i64::MIN <= previous + release <= i64::MAX
}

/// What a release of `release` permits decides on finding `previous`:
/// whether the count stays within `i64`.
pub fn release_in_range(previous: i64, release: i64) -> (r: bool)
    ensures
        r == stays_in_range(previous, release),
{
    match previous.checked_add(release) {
        Some(_) => true,
        None => false,
    }
}

/// What an acquire of `acquire` permits decides on finding `available`:
/// take them if they suffice; fail if the releaser is gone; else wait.
pub fn acquire_outcome(available: i64, acquire: i64) -> (r: Result<bool, AcquireError>)
    requires
        acquire >= 0,
    ensures
        acquire <= available ==> r == Ok::<bool, AcquireError>(true),
        acquire > available && available == i64::MIN ==> r == Err::<bool, AcquireError>(AcquireError),
        acquire > available && available != i64::MIN ==> r == Ok::<bool, AcquireError>(false),
        r == outcome(available, acquire),
{
    if acquire <= available {
        Ok(true)
    } else if available == i64::MIN {
        Err(AcquireError)
    } else {
        Ok(false)
    }
}

impl Acquirer {
    /// Takes `acquire` permits if they are free now (`Ok(true)`), reports
    /// that they are not (`Ok(false)`), or that the releaser is gone. The
    /// count read depends on the releasing thread, so which comes out is
    /// not stated; `acquire_outcome` states how it is decided.
    pub fn try_acquire(&mut self, acquire: u64) -> (r: Result<bool, AcquireError>)
        requires
            acquire <= SEMAPHORE_MAX,
        ensures
            final(self).count() == old(self).count(),
            exists|a: i64, s: i64|
                #![trigger call_ensures(AtomicI64::load, (&old(self).count(), load_order()), a), outcome(a, s)]
                s == acquire && call_ensures(AtomicI64::load, (&old(self).count(), load_order()), a)
                    && r == outcome(a, s) && (r == Ok::<bool, AcquireError>(true) ==> exists|p: i64|
                    #[trigger] call_ensures(AtomicI64::fetch_sub, (&old(self).count(), s, update_order()), p)),
    {
        let acquire = signed(acquire);
        let available = self.0.available.load(Ordering::Acquire);
        let outcome = acquire_outcome(available, acquire);
        match outcome {
            Ok(true) => {
                self.0.available.fetch_sub(acquire, Ordering::AcqRel);
            },
            _ => {},
        }
        outcome
    }
}

impl Releaser {
    /// Gives back `release` permits. Returns `false` if the count went past
    /// `i64::MAX`; otherwise the acquirer is to be woken.
    pub fn release(&self, release: u64) -> (in_range: bool)
        requires
            release <= SEMAPHORE_MAX,
        ensures
            release == 0 ==> in_range,
            exists|s: i64, p: i64|
                #![trigger call_ensures(AtomicI64::fetch_add, (&self.count(), s, update_order()), p)]
                s == release && call_ensures(AtomicI64::fetch_add, (&self.count(), s, update_order()), p)
                    && in_range == stays_in_range(p, s),
    {
        let release = signed(release);
        let previous = self.0.available.fetch_add(release, Ordering::AcqRel);
        assert(call_ensures(AtomicI64::fetch_add, (&self.count(), release, update_order()), previous));
        release_in_range(previous, release)
    }

    /// Marks the semaphore as closed, so that every later acquire fails;
    /// the acquirer is then to be woken. This is what dropping the releaser does.
    pub fn close(&self)
        ensures
            call_ensures(AtomicI64::store, (&self.count(), i64::MIN, close_order()), ()),
    {
        self.0.available.store(i64::MIN, Ordering::Release);
    }
}

} // verus!
