use vstd::prelude::*;
use std::sync::Arc;
use std::sync::Weak;
use crate::{Disconnected, TryAcquireError, WouldBlock};

verus! {

/// A counting semaphore's state, shared between threads: how permits are
/// taken without waiting and given back. Implementations decide how
/// waiting acquires are queued.
pub trait AcquireRelease: Sized {
    type Acq;

    fn new(initial: usize) -> Self;

    /// Takes `amount` permits if that is possible without waiting.
    fn try_acquire(&self, amount: usize) -> Result<(), WouldBlock>;

    /// Gives back `amount` permits.
    fn release(&self, amount: usize);
}

/// Permits taken from a semaphore, to be given back by `release` unless
/// the guard is forgotten.
pub struct ReleaseGuard<R: AcquireRelease> {
    releaser: Option<Arc<R>>,
    amount: usize,
}

impl<R: AcquireRelease> ReleaseGuard<R> {
    pub closed spec fn releaser(&self) -> Option<Arc<R>> {
        self.releaser
    }

    pub closed spec fn amount(&self) -> usize {
        self.amount
    }

    /// A guard that gives `amount` permits back to `releaser`.
    pub fn new(releaser: Arc<R>, amount: usize) -> (r: Self)
        ensures
            r.releaser() == Some(releaser),
            r.amount() == amount,
    {
        ReleaseGuard { releaser: Some(releaser), amount }
    }

    /// Keeps the permits: the guard is consumed and gives nothing back.
    pub fn forget(self) {
        let mut this = self;
        this.releaser = None;
    }

    /// Gives the permits back, unless the guard no longer holds a releaser:
    /// the releaser's own `release` is handed the guard's amount. This is
    /// what dropping a guard does.
    pub fn release(self)
        ensures
            self.releaser() matches Some(a) ==> call_ensures(R::release, (&*a, self.amount()), ()),
    {
        match &self.releaser {
            Some(releaser) => R::release(releaser, self.amount),
            None => {},
        }
    }
}

/// A counting semaphore: shared ownership of its state.
pub struct Semaphore<T: AcquireRelease>(Arc<T>);

impl<T: AcquireRelease> Semaphore<T> {
    pub closed spec fn state(&self) -> Arc<T> {
        self.0
    }

    /// The shared state.
    pub fn shared(&self) -> (r: &Arc<T>)
        ensures
            *r == self.state(),
    {
        &self.0
    }

    /// A semaphore with `initial` free permits: its state is what the
    /// implementation's `new` makes of `initial`.
    pub fn new(initial: usize) -> (r: Self)
        ensures
            call_ensures(T::new, (initial,), *r.state()),
    {
        Semaphore(Arc::new(T::new(initial)))
    }

    /// Takes `amount` permits if that is possible without waiting; the
    /// guard gives them back to this semaphore.
    /// Whether the permits are taken is what the implementation's
    /// `try_acquire` of `amount` on this semaphore's state answers.
    pub fn try_acquire(&self, amount: usize) -> (r: Result<ReleaseGuard<T>, WouldBlock>)
        ensures
            r matches Ok(g) ==> g.amount() == amount && g.releaser() == Some(self.state()),
            exists|res: Result<(), WouldBlock>|
                #[trigger] call_ensures(T::try_acquire, (&*self.state(), amount), res) && (res is Ok <==> r is Ok),
    {
        match self.0.try_acquire(amount) {
            Ok(()) => Ok(ReleaseGuard::new(self.0.clone(), amount)),
            Err(e) => Err(e),
        }
    }

    /// Gives back `amount` permits, by the implementation's `release` on
    /// this semaphore's state.
    pub fn release(&self, amount: usize)
        ensures
            call_ensures(T::release, (&*self.state(), amount), ()),
    {
        self.0.release(amount)
    }

    /// A handle on this semaphore that does not keep it alive.
    pub fn downgrade(&self) -> (r: WeakSemaphore<T>)
        ensures
            r.target() == self.state(),
    {
        downgrade(&self.0)
    }
}

impl<T: AcquireRelease> Clone for Semaphore<T> {
    /// Another owner of the same semaphore.
    fn clone(&self) -> (r: Self)
        ensures
            r.state() == self.state(),
    {
        Semaphore(self.0.clone())
    }
}

/// A `Weak` pointer to a semaphore's state, held where Verus does not look.
#[verifier::external_body]
#[verifier::reject_recursive_types(T)]
struct WeakHandle<T: AcquireRelease> {
    weak: Weak<T>,
}

/// A handle on a semaphore that does not keep it alive: it points at the
/// state `target()` of the semaphore it was made from. Whether that
/// semaphore still lives is only known by upgrading.
#[verifier::reject_recursive_types(T)]
pub struct WeakSemaphore<T: AcquireRelease> {
    handle: WeakHandle<T>,
    target: Ghost<Arc<T>>,
}

impl<T: AcquireRelease> WeakSemaphore<T> {
    /// The state of the semaphore the handle was made from.
    pub closed spec fn target(&self) -> Arc<T> {
        self.target@
    }

    /// `u` is an answer that `Weak::upgrade` gave on this handle.
    pub closed spec fn upgrade_gave(&self, u: Option<Arc<T>>) -> bool {
        call_ensures(upgrade::<T>, (self,), u)
    }
}

/// `Arc::downgrade`: a handle that points at the state `arc` points at.
#[verifier::external_body]
fn downgrade<T: AcquireRelease>(arc: &Arc<T>) -> (r: WeakSemaphore<T>)
    ensures
        r.target() == *arc,
{
    WeakSemaphore { handle: WeakHandle { weak: Arc::downgrade(arc) }, target: Ghost(*arc) }
}

/// `Weak::upgrade`: if some strong owner still holds the state, an owner
/// of that same state, else `None`. Which of the two other threads decide,
/// so that is left unsaid.
#[verifier::external_body]
fn upgrade<T: AcquireRelease>(weak: &WeakSemaphore<T>) -> (r: Option<Arc<T>>)
    ensures
        r matches Some(a) ==> a == weak.target(),
{
    weak.handle.weak.upgrade()
}

/// `Weak::clone`: another handle on the same state.
#[verifier::external_body]
fn clone_weak<T: AcquireRelease>(weak: &WeakSemaphore<T>) -> (r: WeakSemaphore<T>)
    ensures
        r.target() == weak.target(),
{
    WeakSemaphore { handle: WeakHandle { weak: weak.handle.weak.clone() }, target: Ghost(weak.target@) }
}

impl<T: AcquireRelease> Clone for WeakSemaphore<T> {
    /// Another handle on the same semaphore.
    fn clone(&self) -> (r: Self)
        ensures
            r.target() == self.target(),
    {
        clone_weak(self)
    }
}

/// What a non-blocking acquire through a handle gives once the handle was
/// upgraded to `upgraded`: a semaphore that is gone gives `Disconnected`; on
/// a live one, the implementation's `try_acquire` of `amount` on its state
/// decides between a guard on it for `amount` permits and `WouldBlock`.
pub open spec fn upgraded_outcome<T: AcquireRelease>(
    upgraded: Option<Arc<T>>,
    amount: usize,
    r: Result<ReleaseGuard<T>, TryAcquireError>,
) -> bool {
    match upgraded {
        None => r == Err::<ReleaseGuard<T>, TryAcquireError>(TryAcquireError::Disconnected),
        Some(a) => {
            &&& exists|res: Result<(), WouldBlock>|
                #[trigger] call_ensures(T::try_acquire, (&*a, amount), res) && (res is Ok <==> r is Ok)
            &&& match r {
                Ok(g) => g.releaser() == Some(a) && g.amount() == amount,
                Err(e) => e == TryAcquireError::WouldBlock,
            }
        },
    }
}

impl<T: AcquireRelease> WeakSemaphore<T> {
    /// The semaphore the handle was made from, if some owner still keeps
    /// it alive. Whether one does other threads decide: the answer is what
    /// `Weak::upgrade` gave, and a semaphore it gives is this handle's.
    pub fn upgrade(&self) -> (r: Option<Semaphore<T>>)
        ensures
            r matches Some(s) ==> s.state() == self.target(),
            exists|u: Option<Arc<T>>|
                #[trigger] self.upgrade_gave(u) && (r is Some <==> u is Some) && (r matches Some(s) ==> u
                    == Some(s.state())),
    {
        let u = upgrade(self);
        assert(self.upgrade_gave(u));
        match u {
            Some(arc) => Some(Semaphore(arc)),
            None => None,
        }
    }

    /// Takes `amount` permits through a handle, if the semaphore still
    /// lives and the permits can be taken without waiting.
    /// Whether the semaphore lives is what upgrading the handle finds; on a
    /// live one, the permits are taken exactly when the implementation's
    /// `try_acquire` of `amount` on its state answers so.
    pub fn try_acquire(&self, amount: usize) -> (r: Result<ReleaseGuard<T>, TryAcquireError>)
        ensures
            r matches Ok(g) ==> g.amount() == amount && g.releaser() == Some(self.target()),
            exists|u: Option<Semaphore<T>>|
                #[trigger] call_ensures(WeakSemaphore::<T>::upgrade, (self,), u) && upgraded_outcome(
                    match u {
                        Some(s) => Some(s.state()),
                        None => None,
                    },
                    amount,
                    r,
                ),
    {
        let upgraded = self.upgrade();
        let arc = match upgraded {
            Some(s) => Some(s.0),
            None => None,
        };
        Self::try_acquire_upgraded(arc, amount)
    }

    /// What `try_acquire` does once the handle was upgraded: a semaphore
    /// that is gone gives `Disconnected`; a live one gives a guard on itself
    /// for `amount` permits, or `WouldBlock` if they cannot be taken now.
    pub fn try_acquire_upgraded(upgraded: Option<Arc<T>>, amount: usize) -> (r: Result<ReleaseGuard<T>, TryAcquireError>)
        ensures
            upgraded_outcome(upgraded, amount, r),
    {
        match upgraded {
            None => Err(TryAcquireError::Disconnected),
            Some(this) => match this.try_acquire(amount) {
                Ok(()) => Ok(ReleaseGuard::new(this, amount)),
                Err(_) => Err(TryAcquireError::WouldBlock),
            },
        }
    }
}

} // verus!
