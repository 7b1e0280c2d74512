use asynckit::queue::{Queue, QueueKey};
use asynckit::shared_mutex::{AcquireImpl, AcquireMode, AcquirePoll, SemaphoreInner};
use asynckit::WouldBlock;

#[test]
fn queue_keys_follow_arrival() {
    let mut q: Queue<&str> = Queue::new();
    let a = q.push_back("a");
    let b = q.push_back("b");
    assert_eq!(a, QueueKey(0));
    assert_eq!(b, QueueKey(1));
    assert_eq!(q.front(), Some(&"a"));
    assert_eq!(q.get(b), Some(&"b"));
    assert_eq!(q.pop_front(), Some("a"));
    assert_eq!(q.front_key(), QueueKey(1));
    assert_eq!(q.get(a), None);
    assert_eq!(q.index(b), Some(0));
    *q.get_mut(b).unwrap() = "c";
    assert_eq!(q.pop_front(), Some("c"));
    assert_eq!(q.pop_front(), None);
}

#[test]
fn try_acquire_takes_what_is_free() {
    let mut s: SemaphoreInner<u32> = SemaphoreInner::new(2);
    assert_eq!(s.try_acquire(1), Ok(()));
    assert_eq!(s.available(), 1);
    assert_eq!(s.try_acquire(2), Err(WouldBlock));
    assert_eq!(s.available(), 1);
}

#[test]
fn waiters_are_served_in_order() {
    let mut s: SemaphoreInner<u32> = SemaphoreInner::new(1);
    let mut big = AcquireImpl::new(3);
    let mut small = AcquireImpl::new(1);
    assert_eq!(s.acquire_poll(&mut big, 7), AcquirePoll::Pending);
    // A small request does not overtake the queued big one.
    assert_eq!(s.acquire_poll(&mut small, 8), AcquirePoll::Pending);
    assert_eq!(s.try_acquire(1), Err(WouldBlock));
    assert_eq!(s.release(1), Vec::<u32>::new());
    assert_eq!(s.release(2), vec![7, 8]);
    assert_eq!(s.available(), 0);
    assert_eq!(s.acquire_poll(&mut big, 9), AcquirePoll::Ready);
    assert!(matches!(big.mode, AcquireMode::Poison));
}

#[test]
fn a_cancelled_waiter_passes_its_turn() {
    let mut s: SemaphoreInner<u32> = SemaphoreInner::new(0);
    let mut first = AcquireImpl::new(2);
    let mut second = AcquireImpl::new(1);
    assert_eq!(s.acquire_poll(&mut first, 1), AcquirePoll::Pending);
    assert_eq!(s.acquire_poll(&mut second, 2), AcquirePoll::Pending);
    assert_eq!(s.release(1), Vec::<u32>::new());
    // The dropped request keeps its place but now asks for nothing.
    assert_eq!(s.acquire_drop(&first), Vec::<u32>::new());
    assert_eq!(s.release(0), vec![1, 2]);
    assert_eq!(s.available(), 0);
}

#[test]
fn a_granted_waiter_that_is_dropped_gives_back() {
    let mut s: SemaphoreInner<u32> = SemaphoreInner::new(0);
    let mut acq = AcquireImpl::new(2);
    assert_eq!(s.acquire_poll(&mut acq, 1), AcquirePoll::Pending);
    assert_eq!(s.release(2), vec![1]);
    assert_eq!(s.acquire_drop(&acq), Vec::<u32>::new());
    assert_eq!(s.available(), 2);
}

#[test]
fn back_key_names_the_next_push() {
    let mut q: Queue<u8> = Queue::new();
    assert_eq!(q.back_key(), QueueKey(0));
    q.push_back(1);
    q.push_back(2);
    q.pop_front();
    assert_eq!(q.back_key(), QueueKey(2));
    assert_eq!(q.push_back(3), QueueKey(2));
    let mut s: SemaphoreInner<u8> = SemaphoreInner::new(0);
    assert_eq!(s.next_key(), 0);
    let mut acq = AcquireImpl::new(1);
    assert_eq!(s.acquire_poll(&mut acq, 7), AcquirePoll::Pending);
    assert_eq!(s.next_key(), 1);
}

#[test]
fn giving_back_undoes_taking() {
    let mut s: SemaphoreInner<u8> = SemaphoreInner::new(5);
    assert_eq!(s.try_acquire(3), Ok(()));
    assert_eq!(s.available(), 2);
    assert!(s.release(3).is_empty());
    assert_eq!(s.available(), 5);
}
