use asynckit::atomic::{Atomic, AtomicPackable};
use asynckit::shared_dwcas::state::{RawWaker, WaiterState};
use asynckit::shared_dwcas::{FrontView, Released, SemaphoreMode, SemaphoreState, UnlockStep};
use asynckit::shared_swcas::{pop_step, AcquireState, Entered, Flipped, PopStep, ReleaseMode, ReleaseState};
use asynckit::WouldBlock;
use std::sync::atomic::Ordering;

#[test]
fn release_state_round_trip() {
    for mode in [ReleaseMode::Unlocked, ReleaseMode::Locked, ReleaseMode::LockedDirty] {
        let s = ReleaseState { releasable: 12345, mode };
        let raw = <ReleaseState as AtomicPackable>::encode(s);
        assert_eq!(<ReleaseState as AtomicPackable>::decode(raw), s);
    }
    let raw = <ReleaseState as AtomicPackable>::encode(ReleaseState { releasable: 3, mode: ReleaseMode::Locked });
    assert_eq!(raw, (3 << 2) | 1);
}

#[test]
fn acquire_state_round_trip() {
    let queued = AcquireState::Queued(0x1000);
    assert_eq!(<AcquireState as AtomicPackable>::encode(queued), 0x1000);
    assert_eq!(<AcquireState as AtomicPackable>::decode(0x1000), queued);
    let available = AcquireState::Available(7);
    assert_eq!(<AcquireState as AtomicPackable>::encode(available), 15);
    assert_eq!(<AcquireState as AtomicPackable>::decode(15), available);
}

#[test]
fn release_state_steps() {
    let s = ReleaseState { releasable: 1, mode: ReleaseMode::Unlocked };
    let (locked, must_unlock) = s.released(2);
    assert!(must_unlock);
    assert_eq!(locked, ReleaseState { releasable: 3, mode: ReleaseMode::Locked });
    let (dirty, again) = locked.released(1);
    assert!(!again);
    assert_eq!(dirty.mode, ReleaseMode::LockedDirty);
    assert_eq!(dirty.cleaned(), Some(ReleaseState { releasable: 4, mode: ReleaseMode::Locked }));
    assert_eq!(locked.cleaned(), None);
    assert_eq!(locked.consumed(3), (ReleaseState { releasable: 0, mode: ReleaseMode::Locked }, false));
    assert_eq!(locked.unlocked(), (ReleaseState { releasable: 3, mode: ReleaseMode::Unlocked }, true));
    assert_eq!(dirty.unlocked(), (dirty, false));
}

#[test]
fn acquire_state_steps() {
    assert_eq!(AcquireState::Available(5).try_acquired(2), Ok(AcquireState::Available(3)));
    assert_eq!(AcquireState::Available(1).try_acquired(2), Err(WouldBlock));
    assert_eq!(AcquireState::Queued(64).try_acquired(0), Err(WouldBlock));
    assert_eq!(AcquireState::Available(5).entered(2, 128), Entered::Ready(AcquireState::Available(3)));
    assert_eq!(
        AcquireState::Available(1).entered(4, 128),
        Entered::Queued { waiter: 128, next: 0, remaining: 3 }
    );
    assert_eq!(
        AcquireState::Queued(64).entered(4, 128),
        Entered::Queued { waiter: 128, next: 64, remaining: 4 }
    );
}

#[test]
fn semaphore_word_round_trip() {
    let s = SemaphoreState { available: 99, back: 0x4000, mode: SemaphoreMode::LockedDirty };
    let raw = s.encode();
    assert_eq!(raw, (99u128 << 64) | 0x4000 | 3);
    assert_eq!(SemaphoreState::decode(raw), s);
}

#[test]
fn semaphore_word_steps() {
    let free = SemaphoreState { available: 4, back: 0, mode: SemaphoreMode::Available };
    assert_eq!(free.try_acquired(3), Ok(SemaphoreState { available: 1, back: 0, mode: SemaphoreMode::Available }));
    assert_eq!(free.try_acquired(5), Err(WouldBlock));
    let (pushed, next, acquired) = free.acquired_or_pushed(5, 0x80);
    assert!(!acquired);
    assert_eq!(next, 0);
    assert_eq!(pushed, SemaphoreState { available: 4, back: 0x80, mode: SemaphoreMode::Queued });
    assert_eq!(
        pushed.released(1),
        Released::Unlock(SemaphoreState { available: 5, back: 0x80, mode: SemaphoreMode::Locked })
    );
    assert_eq!(free.released(1), Released::Done(SemaphoreState { available: 5, back: 0, mode: SemaphoreMode::Available }));
    let locked = SemaphoreState { available: 0, back: 0, mode: SemaphoreMode::Locked };
    assert_eq!(
        locked.cancelled(),
        Some(Released::Done(SemaphoreState { available: 0, back: 0, mode: SemaphoreMode::LockedDirty }))
    );
}

#[test]
fn waiter_state_round_trip() {
    assert_eq!(WaiterState::Cancelled.encode(), 0);
    assert_eq!(WaiterState::Waking.encode(), 1);
    assert_eq!(WaiterState::decode(77), WaiterState::Sleeping(RawWaker(77)));
    assert_eq!(WaiterState::decode(1), WaiterState::Waking);
}

#[test]
fn atomic_cell_updates() {
    let cell: Atomic<ReleaseState> = Atomic::new(ReleaseState { releasable: 0, mode: ReleaseMode::Unlocked });
    let mut current = cell.load(Ordering::Acquire);
    let next = ReleaseState { releasable: 5, mode: ReleaseMode::Locked };
    while !cell.compare_update_weak(&mut current, next, Ordering::AcqRel, Ordering::Acquire) {}
    assert_eq!(current, next);
    assert_eq!(cell.load(Ordering::Acquire), next);
    assert_eq!(cell.swap(ReleaseState { releasable: 1, mode: ReleaseMode::Unlocked }, Ordering::AcqRel), next);
}

#[test]
fn flip_and_pop_steps() {
    assert_eq!(AcquireState::Queued(0).flipped(7), Flipped::Freed(AcquireState::Available(7)));
    assert_eq!(AcquireState::Available(3).flipped(7), Flipped::Freed(AcquireState::Available(10)));
    assert_eq!(AcquireState::Queued(64).flipped(7), Flipped::Taken(64));
    assert_eq!(pop_step(5, 5, false), PopStep::Grant);
    assert_eq!(pop_step(5, 9, true), PopStep::Grant);
    assert_eq!(pop_step(6, 5, true), PopStep::Discard);
    assert_eq!(pop_step(6, 5, false), PopStep::Keep);
}

#[test]
fn unlock_steps() {
    let locked = SemaphoreState { available: 4, back: 128, mode: SemaphoreMode::Locked };
    let dirty = SemaphoreState { mode: SemaphoreMode::LockedDirty, ..locked };
    assert_eq!(dirty.unlock_step(None), UnlockStep::Clean(locked));
    assert_eq!(
        locked.unlock_step(None),
        UnlockStep::Flip(SemaphoreState { back: 0, ..locked }, 128)
    );
    let empty = SemaphoreState { back: 0, ..locked };
    assert_eq!(
        empty.unlock_step(None),
        UnlockStep::Finish(SemaphoreState { mode: SemaphoreMode::Available, ..empty })
    );
    let sleeping = WaiterState::Sleeping(RawWaker(77));
    assert_eq!(locked.unlock_step(Some(FrontView { amount: 4, waker: sleeping })), UnlockStep::Grant);
    assert_eq!(
        locked.unlock_step(Some(FrontView { amount: 5, waker: WaiterState::Cancelled })),
        UnlockStep::Discard
    );
    assert_eq!(
        locked.unlock_step(Some(FrontView { amount: 5, waker: sleeping })),
        UnlockStep::Park(SemaphoreState { mode: SemaphoreMode::Queued, ..locked })
    );
    assert_eq!(locked.granted(3), SemaphoreState { available: 1, ..locked });
    assert_eq!(sleeping.repolled(RawWaker(99)), Some(WaiterState::Sleeping(RawWaker(99))));
    assert_eq!(WaiterState::Waking.repolled(RawWaker(99)), None);
}
