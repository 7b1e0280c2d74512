use vstd::prelude::*;
use crate::atomic::AtomicPackable;
use crate::WouldBlock;
use crate::shared_swcas::waker::AtomicWaker;

pub mod waker;

verus! {

/// Who holds the release side of the semaphore.
#[derive(Copy, Clone, PartialEq, Eq, Structural, Debug)]
pub enum ReleaseMode {
    /// Nobody: a releaser must take the lock and hand out permits.
    Unlocked,
    /// A releaser hands out permits.
    Locked,
    /// A releaser hands out permits, and more were released meanwhile.
    LockedDirty,
}

/// The release side: permits released but not yet handed out, and the lock.
#[derive(Copy, Clone, PartialEq, Eq, Structural, Debug)]
pub struct ReleaseState {
    pub releasable: usize,
    pub mode: ReleaseMode,
}

/// The acquire side: either permits are free, or waiters are queued, the
/// newest at the address `back` (zero when the pushed stack is empty).
#[derive(Copy, Clone, PartialEq, Eq, Structural, Debug)]
pub enum AcquireState {
    Queued(usize),
    Available(usize),
}

/// A queued request: its wake-up, the address of the next older waiter on
/// the pushed stack, and the permits it still lacks.
pub struct Waiter<W> {
    pub waker: AtomicWaker<W>,
    pub next: usize,
    pub remaining: usize,
}

/// Where an acquire stands.
#[derive(Copy, Clone, PartialEq, Eq, Structural, Debug)]
pub enum AcquireStep {
    /// Not yet polled.
    Enter,
    /// Queued as the waiter at this address.
    Loop(usize),
    /// Done; polling again is a caller error.
    Poison,
}

/// An acquire of `amount` permits.
pub struct AcquireImpl {
    pub amount: usize,
    pub step: AcquireStep,
}

impl AcquireImpl {
    pub fn new(amount: usize) -> (r: Self)
        ensures
            r.amount == amount,
            r.step == AcquireStep::Enter,
    {
        AcquireImpl { amount, step: AcquireStep::Enter }
    }
}

/// The two low bits that carry a release mode.
pub open spec fn mode_bits(mode: ReleaseMode) -> u64 {
    match mode {
        ReleaseMode::Unlocked => 0,
        ReleaseMode::Locked => 1,
        ReleaseMode::LockedDirty => 2,
    }
}

/// The release mode that two low bits stand for; 3 is never written and
/// reads as the strongest mode.
pub open spec fn bits_mode(bits: u64) -> ReleaseMode {
    if bits == 0 {
        ReleaseMode::Unlocked
    } else if bits == 1 {
        ReleaseMode::Locked
    } else {
        ReleaseMode::LockedDirty
    }
}

/// The largest count that fits above two tag bits of a `u64`, plus one.
pub open spec fn release_limit() -> int {
    0x4000_0000_0000_0000
}

impl AtomicPackable for ReleaseState {
    type Raw = u64;

    /// The count is packed above two tag bits.
    open spec fn packable(val: ReleaseState) -> bool {
        val.releasable < release_limit()
    }

    open spec fn encoded(val: ReleaseState) -> u64 {
        ((val.releasable as u64) << 2u64) | mode_bits(val.mode)
    }

    open spec fn decoded(raw: u64) -> ReleaseState {
        ReleaseState { releasable: (raw >> 2u64) as usize, mode: bits_mode(raw & 3u64) }
    }

    fn encode(val: ReleaseState) -> (r: u64) {
        let bits: u64 = match val.mode {
            ReleaseMode::Unlocked => 0,
            ReleaseMode::Locked => 1,
            ReleaseMode::LockedDirty => 2,
        };
        ((val.releasable as u64) << 2u64) | bits
    }

    fn decode(raw: u64) -> (r: ReleaseState) {
        let bits = raw & 3u64;
        let mode = if bits == 0 {
            ReleaseMode::Unlocked
        } else if bits == 1 {
            ReleaseMode::Locked
        } else {
            ReleaseMode::LockedDirty
        };
        #[verifier::truncate]
        let releasable = (raw >> 2u64) as usize;
        ReleaseState { releasable, mode }
    }

    proof fn lemma_round_trip(val: ReleaseState) {
        let r = val.releasable as u64;
        let t = mode_bits(val.mode);
        assert(((r << 2u64) | t) >> 2u64 == r && ((r << 2u64) | t) & 3u64 == t) by (bit_vector)
            requires
                r < 0x4000_0000_0000_0000u64,
                t <= 2u64,
        ;
    }

    proof fn lemma_decoded_packable(raw: u64) {
        assert(raw >> 2u64 < 0x4000_0000_0000_0000u64) by (bit_vector);
        assert(((raw >> 2u64) as usize) < 0x4000_0000_0000_0000u64) by (bit_vector);
    }
}

/// The largest count that fits above one tag bit of a `u64`, plus one.
pub open spec fn available_limit() -> int {
    0x8000_0000_0000_0000
}

impl AtomicPackable for AcquireState {
    type Raw = u64;

    /// A waiter's address is even (waiters are aligned); a count is packed
    /// above a set tag bit.
    open spec fn packable(val: AcquireState) -> bool {
        match val {
            AcquireState::Queued(back) => back as u64 & 1u64 == 0,
            AcquireState::Available(available) => available < available_limit(),
        }
    }

    open spec fn encoded(val: AcquireState) -> u64 {
        match val {
            AcquireState::Queued(back) => back as u64,
            AcquireState::Available(available) => ((available as u64) << 1u64) | 1u64,
        }
    }

    open spec fn decoded(raw: u64) -> AcquireState {
        if raw & 1u64 == 1u64 {
            AcquireState::Available((raw >> 1u64) as usize)
        } else {
            AcquireState::Queued(raw as usize)
        }
    }

    fn encode(val: AcquireState) -> (r: u64) {
        match val {
            AcquireState::Queued(back) => back as u64,
            AcquireState::Available(available) => ((available as u64) << 1u64) | 1u64,
        }
    }

    fn decode(raw: u64) -> (r: AcquireState) {
        if raw & 1u64 == 1u64 {
            #[verifier::truncate]
            let available = (raw >> 1u64) as usize;
            AcquireState::Available(available)
        } else {
            #[verifier::truncate]
            let back = raw as usize;
            AcquireState::Queued(back)
        }
    }

    proof fn lemma_round_trip(val: AcquireState) {
        match val {
            AcquireState::Queued(back) => {
                let b = back as u64;
                assert(b & 1u64 == 0u64 ==> b & 1u64 != 1u64) by (bit_vector);
            },
            AcquireState::Available(available) => {
                let a = available as u64;
                assert(((a << 1u64) | 1u64) & 1u64 == 1u64 && ((a << 1u64) | 1u64) >> 1u64 == a)
                    by (bit_vector)
                    requires
                        a < 0x8000_0000_0000_0000u64,
                ;
            },
        }
    }

    proof fn lemma_decoded_packable(raw: u64) {
        assert(raw >> 1u64 < 0x8000_0000_0000_0000u64) by (bit_vector);
        assert(((raw >> 1u64) as usize) < 0x8000_0000_0000_0000u64) by (bit_vector);
        assert(raw & 1u64 != 1u64 ==> (raw as usize) as u64 & 1u64 == 0u64) by (bit_vector);
    }
}

/// How a first poll of an acquire changes the acquire side.
#[derive(Copy, Clone, PartialEq, Eq, Structural, Debug)]
pub enum Entered {
    /// Enough permits were free: they are taken, the acquire is done.
    Ready(AcquireState),
    /// The waiter at `waiter` is pushed, linked to `next`, lacking `remaining`.
    Queued { waiter: usize, next: usize, remaining: usize },
}

/// What the lock holder does when the front list is empty.
#[derive(Copy, Clone, PartialEq, Eq, Structural, Debug)]
pub enum Flipped {
    /// Nobody was pushed: store this acquire side, into which the
    /// releasable permits went, then take them off the release side.
    Freed(AcquireState),
    /// Waiters were pushed, the newest at this address: store an empty
    /// pushed stack, and move the waiters to the front list, oldest first.
    Taken(usize),
}

/// What the lock holder does with the front waiter.
#[derive(Copy, Clone, PartialEq, Eq, Structural, Debug)]
pub enum PopStep {
    /// Its remaining permits are releasable: take it off the list and
    /// deliver its wake-up (which frees it instead, if it gave up meanwhile).
    Grant,
    /// It gave up: take it off the list and free it.
    Discard,
    /// It still waits for more than is releasable: leave it.
    Keep,
}

/// The front waiter lacks `remaining` permits and `releasable` are at hand:
/// it is granted if they cover it; otherwise it is dropped if it gave up.
pub fn pop_step(remaining: usize, releasable: usize, cancelled: bool) -> (r: PopStep)
    ensures
        remaining <= releasable ==> r == PopStep::Grant,
        remaining > releasable && cancelled ==> r == PopStep::Discard,
        remaining > releasable && !cancelled ==> r == PopStep::Keep,
{
    if remaining <= releasable {
        PopStep::Grant
    } else if cancelled {
        PopStep::Discard
    } else {
        PopStep::Keep
    }
}

impl ReleaseState {
    /// A release of `amount` permits: they join the releasable ones. A
    /// releaser that finds the lock free takes it and must hand out permits
    /// (`true`); otherwise it marks the state dirty for the lock holder.
    pub fn released(self, amount: usize) -> (r: (ReleaseState, bool))
        requires
            self.releasable + amount <= usize::MAX,
        ensures
            r.0.releasable == self.releasable + amount,
            r.1 == (self.mode == ReleaseMode::Unlocked),
            r.0.mode == (if self.mode == ReleaseMode::Unlocked {
                ReleaseMode::Locked
            } else {
                ReleaseMode::LockedDirty
            }),
    {
        match self.mode {
            ReleaseMode::Unlocked => (
                ReleaseState { releasable: self.releasable + amount, mode: ReleaseMode::Locked },
                true,
            ),
            _ => (
                ReleaseState { releasable: self.releasable + amount, mode: ReleaseMode::LockedDirty },
                false,
            ),
        }
    }

    /// The lock holder takes note of releases made meanwhile: a dirty state
    /// becomes plainly locked; any other state needs no change (`None`).
    pub fn cleaned(self) -> (r: Option<ReleaseState>)
        ensures
            self.mode == ReleaseMode::LockedDirty <==> r is Some,
            r matches Some(n) ==> n == (ReleaseState { mode: ReleaseMode::Locked, ..self }),
    {
        match self.mode {
            ReleaseMode::LockedDirty => Some(ReleaseState { releasable: self.releasable, mode: ReleaseMode::Locked }),
            _ => None,
        }
    }

    /// `amount` releasable permits are handed out. The result tells whether
    /// the lock was free at that moment.
    pub fn consumed(self, amount: usize) -> (r: (ReleaseState, bool))
        requires
            amount <= self.releasable,
        ensures
            r.0 == (ReleaseState { releasable: (self.releasable - amount) as usize, ..self }),
            r.1 == (self.mode == ReleaseMode::Unlocked),
    {
        let next = ReleaseState { releasable: self.releasable - amount, mode: self.mode };
        (next, match self.mode {
            ReleaseMode::Unlocked => true,
            _ => false,
        })
    }

    /// The lock holder tries to let go: a plainly locked state becomes
    /// unlocked; a dirty one stays, since releases arrived meanwhile. The
    /// result tells whether the lock is free afterwards.
    pub fn unlocked(self) -> (r: (ReleaseState, bool))
        ensures
            r.0.releasable == self.releasable,
            r.0.mode == (if self.mode == ReleaseMode::Locked { ReleaseMode::Unlocked } else { self.mode }),
            r.1 == (r.0.mode == ReleaseMode::Unlocked),
    {
        match self.mode {
            ReleaseMode::Locked => (ReleaseState { releasable: self.releasable, mode: ReleaseMode::Unlocked }, true),
            ReleaseMode::Unlocked => (self, true),
            ReleaseMode::LockedDirty => (self, false),
        }
    }
}

impl AcquireState {
    /// A non-blocking acquire of `amount`: it succeeds exactly when permits
    /// are free, nobody is queued and there are enough of them.
    pub fn try_acquired(self, amount: usize) -> (r: Result<AcquireState, WouldBlock>)
        ensures
            match self {
                AcquireState::Available(a) => if amount <= a {
                    r == Ok::<AcquireState, WouldBlock>(AcquireState::Available((a - amount) as usize))
                } else {
                    r is Err
                },
                AcquireState::Queued(_) => r is Err,
            },
    {
        match self {
            AcquireState::Queued(_) => Err(WouldBlock),
            AcquireState::Available(available) => if amount <= available {
                Ok(AcquireState::Available(available - amount))
            } else {
                Err(WouldBlock)
            },
        }
    }

    /// The front list ran empty while `releasable` permits are at hand: if
    /// nobody was pushed, they become free (added to those already free);
    /// otherwise the pushed waiters are taken.
    pub fn flipped(self, releasable: usize) -> (r: Flipped)
        requires
            self matches AcquireState::Available(a) ==> a + releasable <= usize::MAX,
        ensures
            match self {
                AcquireState::Queued(back) => if back == 0 {
                    r == Flipped::Freed(AcquireState::Available(releasable))
                } else {
                    r == Flipped::Taken(back)
                },
                AcquireState::Available(a) => r == Flipped::Freed(AcquireState::Available((a + releasable) as usize)),
            },
    {
        match self {
            AcquireState::Queued(back) => if back == 0 {
                Flipped::Freed(AcquireState::Available(releasable))
            } else {
                Flipped::Taken(back)
            },
            AcquireState::Available(available) => Flipped::Freed(AcquireState::Available(available + releasable)),
        }
    }

    /// The first poll of an acquire of `amount` by the waiter at `waiter`:
    /// free permits that suffice are taken; otherwise the waiter is pushed,
    /// lacking what the free permits do not cover, behind the waiters
    /// already pushed.
    pub fn entered(self, amount: usize, waiter: usize) -> (r: Entered)
        ensures
            match self {
                AcquireState::Available(a) => if amount <= a {
                    r == Entered::Ready(AcquireState::Available((a - amount) as usize))
                } else {
                    r == (Entered::Queued { waiter, next: 0, remaining: (amount - a) as usize })
                },
                AcquireState::Queued(back) => r == (Entered::Queued { waiter, next: back, remaining: amount }),
            },
    {
        match self {
            AcquireState::Queued(back) => Entered::Queued { waiter, next: back, remaining: amount },
            AcquireState::Available(available) => if amount <= available {
                Entered::Ready(AcquireState::Available(available - amount))
            } else {
                Entered::Queued { waiter, next: 0, remaining: amount - available }
            },
        }
    }
}

} // verus!
