use asynckit::condvar::{CondvarState, Notifier, WakerGuard};

#[test]
fn notify_wakes_in_order() {
    let mut s: CondvarState<u32> = CondvarState::new();
    s.check_mutex(17);
    assert_eq!(s.mutex, 17);
    assert_eq!(s.push_waiter(1), 0);
    assert_eq!(s.push_waiter(2), 1);
    assert_eq!(s.push_waiter(3), 2);
    assert_eq!(s.notify(2), vec![1, 2]);
    assert_eq!(s.start, 2);
    assert_eq!(s.waiters.len(), 1);
}

#[test]
fn notify_skips_empty_slots() {
    let mut s: CondvarState<u32> = CondvarState::new();
    s.push_waiter(1);
    s.push_waiter(2);
    s.push_waiter(3);
    assert_eq!(s.cancel_waiter(1), Vec::<u32>::new());
    assert_eq!(s.notify(2), vec![1, 3]);
    assert_eq!(s.start, 3);
}

#[test]
fn a_cancelled_front_waiter_passes_the_wake_up_on() {
    let mut s: CondvarState<u32> = CondvarState::new();
    s.push_waiter(1);
    s.push_waiter(2);
    assert_eq!(s.notify(1), vec![1]);
    assert_eq!(s.cancel_waiter(0), vec![2]);
    assert_eq!(s.start, 2);
}

#[test]
fn notify_on_an_empty_queue_moves_on() {
    let mut s: CondvarState<u32> = CondvarState::new();
    assert_eq!(s.notify(3), Vec::<u32>::new());
    assert_eq!(s.start, 1);
}

#[test]
fn notify_one_hands_out_one_waker() {
    let mut s: CondvarState<u32> = CondvarState::new();
    s.push_waiter(5);
    s.push_waiter(6);
    let n: Notifier<u32> = s.notify_one();
    assert_eq!(n.notify(), Some(5));
    assert_eq!(s.start, 1);
    assert_eq!(s.notify_one().notify(), Some(6));
    assert_eq!(s.notify_one().notify(), None);
}

#[test]
fn poll_waiter_until_notified() {
    let mut s: CondvarState<u32> = CondvarState::new();
    let ticket = s.push_waiter(1);
    assert!(!s.poll_waiter(ticket, 2));
    assert_eq!(s.notify(1), vec![2]);
    assert!(s.poll_waiter(ticket, 3));
    assert_eq!(WakerGuard::new(4).0, 4);
}
