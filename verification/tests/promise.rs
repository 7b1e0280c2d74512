use asynckit::promise::{drop_poisons, try_recv_outcome, TryRecvError};

#[test]
fn open_promise_is_empty() {
    assert_eq!(try_recv_outcome(false, Some(&5)), Err(TryRecvError::Empty));
    assert_eq!(try_recv_outcome::<u8>(false, None), Err(TryRecvError::Empty));
}

#[test]
fn completed_promise_gives_its_value() {
    assert_eq!(try_recv_outcome(true, Some(&5)), Ok(&5));
}

#[test]
fn abandoned_promise_is_disconnected() {
    assert_eq!(try_recv_outcome::<u8>(true, None), Err(TryRecvError::Disconnected));
}

#[test]
fn only_the_last_handle_poisons() {
    assert!(drop_poisons(1));
    assert!(!drop_poisons(2));
    assert!(!drop_poisons(usize::MAX));
}
