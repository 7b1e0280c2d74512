use vstd::prelude::*;
use crate::WouldBlock;
use crate::shared_dwcas::state::WaiterState;

pub mod state;

verus! {

/// What the semaphore word says of the queue and of the lock.
#[derive(Copy, Clone, PartialEq, Eq, Structural, Debug)]
pub enum SemaphoreMode {
    /// Nobody waits; permits may be taken directly.
    Available,
    /// Waiters are queued and nobody hands out permits.
    Queued,
    /// A releaser hands out permits.
    Locked,
    /// A releaser hands out permits, and something changed meanwhile.
    LockedDirty,
}

/// The whole semaphore in one double word: the free permits, the address
/// of the newest pushed waiter (zero if none) and the mode.
#[derive(Copy, Clone, PartialEq, Eq, Structural, Debug)]
pub struct SemaphoreState {
    pub available: usize,
    pub back: usize,
    pub mode: SemaphoreMode,
}

/// A queued request: what it is doing, the next older pushed waiter, and
/// the permits it asks for.
pub struct Waiter {
    pub waker: WaiterState,
    pub next: usize,
    pub amount: usize,
}

/// Where an acquire stands.
#[derive(Copy, Clone, PartialEq, Eq, Structural, Debug)]
pub enum AcquireStep {
    Enter,
    Loop(usize),
    Poison,
}

/// An acquire of `amount` permits.
pub struct AcquireImpl {
    pub amount: usize,
    pub step: AcquireStep,
}

impl AcquireImpl {
    pub fn new(amount: usize) -> (r: Self)
        ensures
            r.amount == amount,
            r.step == AcquireStep::Enter,
    {
        AcquireImpl { amount, step: AcquireStep::Enter }
    }
}

pub open spec fn mode_bits(mode: SemaphoreMode) -> u128 {
    match mode {
        SemaphoreMode::Available => 0,
        SemaphoreMode::Queued => 1,
        SemaphoreMode::Locked => 2,
        SemaphoreMode::LockedDirty => 3,
    }
}

pub open spec fn bits_mode(bits: u128) -> SemaphoreMode {
    if bits == 0 {
        SemaphoreMode::Available
    } else if bits == 1 {
        SemaphoreMode::Queued
    } else if bits == 2 {
        SemaphoreMode::Locked
    } else {
        SemaphoreMode::LockedDirty
    }
}

/// What the result of a release asks of the releaser.
#[derive(Copy, Clone, PartialEq, Eq, Structural, Debug)]
pub enum Released {
    /// Store this state; nothing more to do.
    Done(SemaphoreState),
    /// Store this state, which takes the lock; then hand out permits.
    Unlock(SemaphoreState),
}

/// The front waiter as the lock holder sees it: what it asks for and what
/// it is doing.
#[derive(Copy, Clone, PartialEq, Eq, Structural, Debug)]
pub struct FrontView {
    pub amount: usize,
    pub waker: WaiterState,
}

/// One step of the lock holder handing out permits.
#[derive(Copy, Clone, PartialEq, Eq, Structural, Debug)]
pub enum UnlockStep {
    /// Store this state, the dirty mark taken note of, and look again.
    Clean(SemaphoreState),
    /// Nobody waits: store this state, which frees the lock, and stop.
    Finish(SemaphoreState),
    /// Store this state, whose pushed stack is empty; the waiters pushed
    /// from the given address go to the front list, oldest first; look again.
    Flip(SemaphoreState, usize),
    /// The front waiter's permits are free: take it off the list and mark
    /// it waking; then take its permits (`granted`), or free it if it gave
    /// up meanwhile; look again.
    Grant,
    /// The front waiter gave up: take it off the list, free it, look again.
    Discard,
    /// The front waiter needs more than is free: store this state, which
    /// frees the lock with waiters queued, and stop.
    Park(SemaphoreState),
}

impl SemaphoreState {
    /// Waiters are aligned, so the two low bits of `back` are free for the mode.
    pub open spec fn packable(self) -> bool {
        self.back & 3usize == 0
    }

    /// The permits in the high word; the waiter address and the mode in the low one.
    pub open spec fn encoded(self) -> u128 {
        ((self.available as u128) << 64u128) | (self.back as u128) | mode_bits(self.mode)
    }

    pub open spec fn decoded(raw: u128) -> SemaphoreState {
        SemaphoreState {
            available: (raw >> 64u128) as usize,
            back: ((raw as usize) & !3usize),
            mode: bits_mode(raw & 3u128),
        }
    }

    pub fn encode(self) -> (r: u128)
        requires
            self.packable(),
        ensures
            r == self.encoded(),
    {
        let bits: u128 = match self.mode {
            SemaphoreMode::Available => 0,
            SemaphoreMode::Queued => 1,
            SemaphoreMode::Locked => 2,
            SemaphoreMode::LockedDirty => 3,
        };
        ((self.available as u128) << 64u128) | (self.back as u128) | bits
    }

    pub fn decode(raw: u128) -> (r: SemaphoreState)
        ensures
            r == SemaphoreState::decoded(raw),
    {
        let bits = raw & 3u128;
        let mode = if bits == 0 {
            SemaphoreMode::Available
        } else if bits == 1 {
            SemaphoreMode::Queued
        } else if bits == 2 {
            SemaphoreMode::Locked
        } else {
            SemaphoreMode::LockedDirty
        };
        #[verifier::truncate]
        let available = (raw >> 64u128) as usize;
        #[verifier::truncate]
        let low = raw as usize;
        SemaphoreState { available, back: low & !3usize, mode }
    }

    /// A non-blocking acquire: it succeeds exactly when nobody waits, the
    /// lock is free, and enough permits are free; it takes them.
    pub fn try_acquired(self, amount: usize) -> (r: Result<SemaphoreState, WouldBlock>)
        ensures
            (amount <= self.available && self.mode == SemaphoreMode::Available) <==> r is Ok,
            r matches Ok(n) ==> n == (SemaphoreState { available: (self.available - amount) as usize, ..self }),
    {
        if amount > self.available || self.mode != SemaphoreMode::Available {
            return Err(WouldBlock);
        }
        Ok(SemaphoreState { available: self.available - amount, back: self.back, mode: self.mode })
    }

    /// An acquire of `amount` by the waiter at `waiter` that could not
    /// succeed at once tries again: either it takes the permits (`true`), or
    /// the waiter is pushed, linked to the previous newest one (the second
    /// result), and the queue is marked as occupied.
    pub fn acquired_or_pushed(self, amount: usize, waiter: usize) -> (r: (SemaphoreState, usize, bool))
        ensures
            (amount <= self.available && self.mode == SemaphoreMode::Available) ==> {
                &&& r.2
                &&& r.0 == (SemaphoreState { available: (self.available - amount) as usize, ..self })
            },
            !(amount <= self.available && self.mode == SemaphoreMode::Available) ==> {
                &&& !r.2
                &&& r.1 == self.back
                &&& r.0.available == self.available
                &&& r.0.back == waiter
                &&& r.0.mode == (if self.mode == SemaphoreMode::Available {
                    SemaphoreMode::Queued
                } else {
                    self.mode
                })
            },
    {
        if amount <= self.available && self.mode == SemaphoreMode::Available {
            (SemaphoreState { available: self.available - amount, back: self.back, mode: self.mode }, 0, true)
        } else {
            let mode = if self.mode == SemaphoreMode::Available {
                SemaphoreMode::Queued
            } else {
                self.mode
            };
            (SemaphoreState { available: self.available, back: waiter, mode }, self.back, false)
        }
    }

    /// A release of `amount` permits: they become free; if waiters are
    /// queued and nobody holds the lock, the releaser takes it and must
    /// hand out permits. With nobody waiting, no waiter may be pushed.
    pub fn released(self, amount: usize) -> (r: Released)
        requires
            self.available + amount <= usize::MAX,
            self.mode == SemaphoreMode::Available ==> self.back == 0,
        ensures
            self.mode == SemaphoreMode::Queued ==> r == Released::Unlock(
                SemaphoreState { available: (self.available + amount) as usize, back: self.back, mode: SemaphoreMode::Locked },
            ),
            self.mode != SemaphoreMode::Queued ==> r == Released::Done(
                SemaphoreState { available: (self.available + amount) as usize, ..self },
            ),
    {
        let available = self.available + amount;
        match self.mode {
            SemaphoreMode::Queued => Released::Unlock(
                SemaphoreState { available, back: self.back, mode: SemaphoreMode::Locked },
            ),
            _ => Released::Done(SemaphoreState { available, back: self.back, mode: self.mode }),
        }
    }

    /// The lock holder's next step, from the state it read and the front
    /// waiter (`None` when the front list is empty): a dirty mark is taken
    /// note of first; then an empty front list is refilled from the pushed
    /// stack, or the lock is freed if nobody waits; a front waiter whose
    /// permits are free is granted, one that gave up is dropped, and
    /// otherwise the lock is freed with waiters queued.
    pub fn unlock_step(self, front: Option<FrontView>) -> (r: UnlockStep)
        requires
            front matches Some(f) ==> (f.amount > self.available ==> !(f.waker is Waking)),
        ensures
            self.mode == SemaphoreMode::LockedDirty ==> r == UnlockStep::Clean(
                SemaphoreState { mode: SemaphoreMode::Locked, ..self },
            ),
            self.mode != SemaphoreMode::LockedDirty ==> match front {
                None => if self.back == 0 {
                    r == UnlockStep::Finish(SemaphoreState { mode: SemaphoreMode::Available, ..self })
                } else {
                    r == UnlockStep::Flip(SemaphoreState { back: 0, ..self }, self.back)
                },
                Some(f) => if f.amount <= self.available {
                    r == UnlockStep::Grant
                } else if f.waker is Cancelled {
                    r == UnlockStep::Discard
                } else {
                    r == UnlockStep::Park(SemaphoreState { mode: SemaphoreMode::Queued, ..self })
                },
            },
    {
        if self.mode == SemaphoreMode::LockedDirty {
            return UnlockStep::Clean(SemaphoreState { available: self.available, back: self.back, mode: SemaphoreMode::Locked });
        }
        match front {
            None => if self.back == 0 {
                UnlockStep::Finish(SemaphoreState { available: self.available, back: self.back, mode: SemaphoreMode::Available })
            } else {
                UnlockStep::Flip(SemaphoreState { available: self.available, back: 0, mode: self.mode }, self.back)
            },
            Some(f) => if f.amount <= self.available {
                UnlockStep::Grant
            } else {
                match f.waker {
                    WaiterState::Cancelled => UnlockStep::Discard,
                    _ => UnlockStep::Park(SemaphoreState { available: self.available, back: self.back, mode: SemaphoreMode::Queued }),
                }
            },
        }
    }

    /// A granted waiter takes its `amount` of the free permits.
    pub fn granted(self, amount: usize) -> (r: SemaphoreState)
        requires
            amount <= self.available,
        ensures
            r == (SemaphoreState { available: (self.available - amount) as usize, ..self }),
    {
        SemaphoreState { available: self.available - amount, back: self.back, mode: self.mode }
    }

    /// A sleeping waiter gave up: someone must look at the queue again. If
    /// nobody holds the lock the canceller takes it (`Unlock`); if someone
    /// does, it is told by the dirty mark; if it was told already, nothing
    /// changes (`None`).
    pub fn cancelled(self) -> (r: Option<Released>)
        ensures
            match self.mode {
                SemaphoreMode::Available | SemaphoreMode::Queued =>
                    r == Some(Released::Unlock(SemaphoreState { mode: SemaphoreMode::Locked, ..self })),
                SemaphoreMode::Locked =>
                    r == Some(Released::Done(SemaphoreState { mode: SemaphoreMode::LockedDirty, ..self })),
                SemaphoreMode::LockedDirty => r is None,
            },
    {
        match self.mode {
            SemaphoreMode::Available | SemaphoreMode::Queued => Some(
                Released::Unlock(SemaphoreState { available: self.available, back: self.back, mode: SemaphoreMode::Locked }),
            ),
            SemaphoreMode::Locked => Some(
                Released::Done(SemaphoreState { available: self.available, back: self.back, mode: SemaphoreMode::LockedDirty }),
            ),
            SemaphoreMode::LockedDirty => None,
        }
    }
}

/// Unpacking a packed semaphore word gives it back.
pub proof fn semaphore_state_round_trip(s: SemaphoreState)
    requires
        s.packable(),
    ensures
        SemaphoreState::decoded(s.encoded()) == s,
{
    let a = s.available;
    let b = s.back;
    let t = mode_bits(s.mode);
    assert(((((a as u128) << 64u128) | (b as u128) | t) >> 64u128) as usize == a
        && ((((((a as u128) << 64u128) | (b as u128) | t)) as usize) & !3usize) == b
        && ((((a as u128) << 64u128) | (b as u128) | t) & 3u128) == t) by (bit_vector)
        requires
            b & 3usize == 0usize,
            t <= 3u128,
    ;
}

} // verus!
