use asynckit::freelist::Malloc;
use asynckit::mrsa::{acquire_outcome, release_in_range, semaphore, AcquireError, SEMAPHORE_MAX};
use asynckit::semaphore::{AcquireRelease, ReleaseGuard, Semaphore, WeakSemaphore};
use asynckit::shared_swcas::waker::{AtomicWaker, CancelledError, FinishedError, PendingError, PollBegin};
use asynckit::{TryAcquireError, WouldBlock};
use std::sync::Arc;
use std::sync::Mutex;

struct Counter(Mutex<usize>);

impl AcquireRelease for Counter {
    type Acq = ();
    fn new(initial: usize) -> Self {
        Counter(Mutex::new(initial))
    }
    fn try_acquire(&self, amount: usize) -> Result<(), WouldBlock> {
        let mut free = self.0.lock().unwrap();
        if amount <= *free {
            *free -= amount;
            Ok(())
        } else {
            Err(WouldBlock)
        }
    }
    fn release(&self, amount: usize) {
        *self.0.lock().unwrap() += amount;
    }
}

#[test]
fn guards_give_permits_back() {
    let s: Semaphore<Counter> = Semaphore::new(2);
    let g = s.try_acquire(2).unwrap();
    assert!(matches!(s.try_acquire(1), Err(WouldBlock)));
    g.release();
    let g = s.try_acquire(1).unwrap();
    g.forget();
    assert!(s.try_acquire(1).is_ok());
    assert!(matches!(s.try_acquire(1), Err(WouldBlock)));
    s.release(1);
    assert!(s.try_acquire(1).is_ok());
}

#[test]
fn weak_handles_see_the_semaphore_go() {
    let s: Semaphore<Counter> = Semaphore::new(1);
    let w: WeakSemaphore<Counter> = s.downgrade();
    assert!(w.try_acquire(1).is_ok());
    assert!(matches!(w.try_acquire(5), Err(TryAcquireError::WouldBlock)));
    drop(s);
    assert!(matches!(w.try_acquire(1), Err(TryAcquireError::Disconnected)));
}

#[test]
fn upgraded_handles_decide_by_what_they_got() {
    let state = Arc::new(Counter::new(3));
    let guard = WeakSemaphore::try_acquire_upgraded(Some(state.clone()), 2).unwrap();
    assert!(matches!(WeakSemaphore::try_acquire_upgraded(Some(state.clone()), 2), Err(TryAcquireError::WouldBlock)));
    assert!(matches!(WeakSemaphore::<Counter>::try_acquire_upgraded(None, 0), Err(TryAcquireError::Disconnected)));
    guard.release();
    let direct = ReleaseGuard::new(state.clone(), 3);
    direct.release();
    assert_eq!(*state.0.lock().unwrap(), 6);
}

#[test]
fn single_acquirer_semaphore() {
    let (mut acquirer, releaser) = semaphore(1);
    assert_eq!(acquirer.try_acquire(1), Ok(true));
    assert_eq!(acquirer.try_acquire(1), Ok(false));
    assert!(releaser.release(2));
    assert_eq!(acquirer.try_acquire(2), Ok(true));
    releaser.close();
    assert_eq!(acquirer.try_acquire(1), Err(AcquireError));
}

#[test]
fn acquire_outcomes() {
    assert_eq!(acquire_outcome(3, 2), Ok(true));
    assert_eq!(acquire_outcome(1, 2), Ok(false));
    assert_eq!(acquire_outcome(i64::MIN, 0), Err(AcquireError));
    assert_eq!(SEMAPHORE_MAX, i64::MAX as u64);
}

#[test]
fn malloc_boxes() {
    let m: Malloc<u8> = Malloc::new();
    let b = m.allocate(9);
    assert_eq!(m.free(b), 9);
}

#[test]
fn atomic_waker_finish_wins_over_cancel() {
    let mut w = AtomicWaker::new(1u32);
    assert!(!w.is_cancelled());
    assert_eq!(w.finish(), Ok(Some(1)));
    assert_eq!(w.cancel(), Err(FinishedError));
    assert!(w.is_cancelled());
}

#[test]
fn atomic_waker_cancel_wins_over_finish() {
    let mut w = AtomicWaker::new(1u32);
    assert_eq!(w.cancel(), Ok(Some(1)));
    assert_eq!(w.finish(), Err(CancelledError));
}

#[test]
fn atomic_waker_poll_steps() {
    let mut w = AtomicWaker::new(1u32);
    let (begun, older) = w.poll_begin(2);
    assert!(matches!(begun, PollBegin::Stored));
    assert_eq!(older, Some(1));
    assert_eq!(w.poll_end(), Err(PendingError));
    let (begun, _) = w.poll_begin(3);
    assert!(matches!(begun, PollBegin::Stored));
    assert_eq!(w.finish(), Ok(None));
    assert_eq!(w.poll_end(), Ok(Some(3)));
}

#[test]
fn clones_share_the_semaphore() {
    let s: Semaphore<Counter> = Semaphore::new(2);
    let t = s.clone();
    assert!(Arc::ptr_eq(s.shared(), t.shared()));
    let g = t.try_acquire(2).unwrap();
    assert!(matches!(s.try_acquire(1), Err(WouldBlock)));
    g.release();
    let w = s.downgrade();
    let w2 = w.clone();
    assert!(w2.upgrade().is_some());
    drop(s);
    assert!(w.upgrade().is_some());
    drop(t);
    assert!(w.upgrade().is_none());
    assert!(w2.upgrade().is_none());
}

#[test]
fn releasing_nothing_stays_in_range() {
    let (mut acquirer, releaser) = semaphore(SEMAPHORE_MAX);
    assert!(releaser.release(0));
    assert_eq!(acquirer.try_acquire(SEMAPHORE_MAX), Ok(true));
    assert!(releaser.release(0));
}

#[test]
fn release_range_decisions() {
    assert!(release_in_range(5, 3));
    assert!(!release_in_range(i64::MAX, 1));
    assert!(release_in_range(i64::MIN, 0));
    assert!(!release_in_range(i64::MIN, -1));
    assert!(release_in_range(i64::MAX - 2, 2));
}

#[test]
fn upgrade_gives_back_the_same_semaphore() {
    let s: Semaphore<Counter> = Semaphore::new(1);
    let w: WeakSemaphore<Counter> = s.downgrade();
    let v = w.clone();
    assert!(Arc::ptr_eq(w.upgrade().unwrap().shared(), s.shared()));
    assert!(Arc::ptr_eq(v.upgrade().unwrap().shared(), s.shared()));
    drop(s);
    assert!(w.upgrade().is_none());
    assert!(v.upgrade().is_none());
}
