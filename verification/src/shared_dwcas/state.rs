use vstd::prelude::*;

verus! {

/// A task's waker in its packed form: the two words of its raw parts.
#[derive(Copy, Clone, PartialEq, Eq, Structural, Debug)]
pub struct RawWaker(pub u128);

/// What a queued waiter is doing. `Sleeping` holds the waker to wake.
#[derive(Copy, Clone, PartialEq, Eq, Structural, Debug)]
pub enum WaiterState {
    Cancelled,
    Waking,
    Sleeping(RawWaker),
}

impl WaiterState {
    /// A sleeping state packs its waker as is; the other two take the
    /// values 0 and 1, which no waker's data can be.
    pub open spec fn packable(self) -> bool {
        self matches WaiterState::Sleeping(w) ==> w.0 > 1
    }

    pub open spec fn encoded(self) -> u128 {
        match self {
            WaiterState::Cancelled => 0,
            WaiterState::Waking => 1,
            WaiterState::Sleeping(w) => w.0,
        }
    }

    pub open spec fn decoded(raw: u128) -> WaiterState {
        if raw == 0 {
            WaiterState::Cancelled
        } else if raw == 1 {
            WaiterState::Waking
        } else {
            WaiterState::Sleeping(RawWaker(raw))
        }
    }

    pub fn encode(self) -> (r: u128)
        requires
            self.packable(),
        ensures
            r == self.encoded(),
    {
        match self {
            WaiterState::Cancelled => 0,
            WaiterState::Waking => 1,
            WaiterState::Sleeping(w) => w.0,
        }
    }

    /// A queued acquire is polled again with a newer waker: a waking waiter
    /// is done (`None`); a sleeping one swaps in the newer waker. Polling
    /// after giving up is a caller error.
    pub fn repolled(self, waker: RawWaker) -> (r: Option<WaiterState>)
        requires
            !(self is Cancelled),
        ensures
            self is Waking ==> r is None,
            self is Sleeping ==> r == Some(WaiterState::Sleeping(waker)),
    {
        match self {
            WaiterState::Sleeping(_) => Some(WaiterState::Sleeping(waker)),
            _ => None,
        }
    }

    pub fn decode(raw: u128) -> (r: WaiterState)
        ensures
            r == WaiterState::decoded(raw),
            r.packable(),
    {
        if raw == 0 {
            WaiterState::Cancelled
        } else if raw == 1 {
            WaiterState::Waking
        } else {
            WaiterState::Sleeping(RawWaker(raw))
        }
    }
}

/// Unpacking a packed waiter state gives it back, and packing an unpacked
/// one gives back the raw value: the packing is a bijection.
pub proof fn waiter_state_round_trip(s: WaiterState, raw: u128)
    requires
        s.packable(),
    ensures
        WaiterState::decoded(s.encoded()) == s,
        WaiterState::decoded(raw).encoded() == raw,
{
}

} // verus!
