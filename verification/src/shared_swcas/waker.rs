use vstd::prelude::*;

verus! {

/// Where a one-shot wake-up stands.
#[derive(Copy, Clone, Eq, PartialEq, Structural, Debug)]
pub enum State {
    /// The waiter sleeps; a waker is stored.
    Sleeping,
    /// The waiter is storing a newer waker.
    Storing,
    /// The wake-up was delivered.
    Finished,
    /// The waiter gave up.
    Cancelled,
}

/// A poll found the wake-up not yet delivered.
#[derive(Eq, PartialEq, Structural, Debug)]
pub struct PendingError;

/// The waiter gave up before the wake-up was delivered.
#[derive(Eq, PartialEq, Structural, Debug)]
pub struct CancelledError;

/// The wake-up was delivered before the waiter gave up.
#[derive(Eq, PartialEq, Structural, Debug)]
pub struct FinishedError;

/// A one-shot wake-up shared between a waiting task and the task that
/// wakes it: the state, and the waker of the waiting task. Delivering
/// (`finish`) and giving up (`cancel`) race, and exactly one of them wins.
///
/// A poll takes two steps, `poll_begin` and `poll_end`; a `finish` may come
/// between them.
pub struct AtomicWaker<W> {
    state: State,
    waker: Option<W>,
}

/// What `poll_begin` found.
pub enum PollBegin<W> {
    /// The newer waker is stored; the poll must end with `poll_end`.
    Stored,
    /// The wake-up was already delivered; the poll is over.
    Finished(W),
}

impl<W> AtomicWaker<W> {
    pub closed spec fn state_spec(&self) -> State {
        self.state
    }

    pub closed spec fn waker_spec(&self) -> Option<W> {
        self.waker
    }

    /// A sleeping or storing waiter has its waker stored.
    pub open spec fn wf(&self) -> bool {
        match self.state_spec() {
            State::Sleeping => self.waker_spec() is Some,
            State::Storing => self.waker_spec() is Some,
            _ => true,
        }
    }

    /// A sleeping waiter with its waker.
    pub fn new(waker: W) -> (r: Self)
        ensures
            r.wf(),
            r.state_spec() == State::Sleeping,
            r.waker_spec() == Some(waker),
    {
        AtomicWaker { state: State::Sleeping, waker: Some(waker) }
    }

    /// First step of a poll: a sleeping waiter starts storing its newer
    /// waker (returning the older one); a delivered wake-up ends the poll.
    /// Polling twice at once or after cancelling is a caller error.
    pub fn poll_begin(&mut self, waker: W) -> (r: (PollBegin<W>, Option<W>))
        requires
            old(self).wf(),
            old(self).state_spec() == State::Sleeping || old(self).state_spec() == State::Finished,
        ensures
            final(self).wf(),
            old(self).state_spec() == State::Sleeping ==> {
                &&& r.0 is Stored
                &&& r.1 == old(self).waker_spec()
                &&& final(self).state_spec() == State::Storing
                &&& final(self).waker_spec() == Some(waker)
            },
            old(self).state_spec() == State::Finished ==> {
                &&& r.0 == PollBegin::Finished(waker)
                &&& r.1 is None
                &&& *final(self) == *old(self)
            },
    {
        match self.state {
            State::Sleeping => {
                self.state = State::Storing;
                let old_waker = self.waker.take();
                self.waker = Some(waker);
                (PollBegin::Stored, old_waker)
            },
            _ => (PollBegin::Finished(waker), None),
        }
    }

    /// Second step of a poll: if nothing happened meanwhile the waiter
    /// sleeps again and the poll is pending; if the wake-up was delivered
    /// meanwhile, the poll is over and the stored waker is handed back to
    /// be woken.
    pub fn poll_end(&mut self) -> (r: Result<Option<W>, PendingError>)
        requires
            old(self).wf(),
            old(self).state_spec() == State::Storing || old(self).state_spec() == State::Finished,
        ensures
            final(self).wf(),
            old(self).state_spec() == State::Storing ==> {
                &&& r is Err
                &&& final(self).state_spec() == State::Sleeping
                &&& final(self).waker_spec() == old(self).waker_spec()
            },
            old(self).state_spec() == State::Finished ==> {
                &&& r == Ok::<Option<W>, PendingError>(old(self).waker_spec())
                &&& final(self).state_spec() == State::Finished
                &&& final(self).waker_spec() is None
            },
    {
        match self.state {
            State::Storing => {
                self.state = State::Sleeping;
                Err(PendingError)
            },
            _ => Ok(self.waker.take()),
        }
    }

    /// Delivers the wake-up, unless the waiter gave up. Returns the waker
    /// to wake, if the waiter was sleeping; a waiter in the middle of a poll
    /// is woken by that poll's `poll_end`. Delivering twice is a caller error.
    pub fn finish(&mut self) -> (r: Result<Option<W>, CancelledError>)
        requires
            old(self).wf(),
            old(self).state_spec() != State::Finished,
        ensures
            final(self).wf(),
            final(self).state_spec() == after_op(old(self).state_spec(), WakerOp::Finish),
            match old(self).state_spec() {
                State::Sleeping => r == Ok::<Option<W>, CancelledError>(old(self).waker_spec())
                    && final(self).state_spec() == State::Finished && final(self).waker_spec() is None,
                State::Storing => r == Ok::<Option<W>, CancelledError>(None)
                    && final(self).state_spec() == State::Finished && final(self).waker_spec()
                    == old(self).waker_spec(),
                _ => r is Err && final(self).state_spec() == State::Finished && final(self).waker_spec()
                    == old(self).waker_spec(),
            },
    {
        let previous = self.state;
        self.state = State::Finished;
        match previous {
            State::Sleeping => Ok(self.waker.take()),
            State::Storing => Ok(None),
            _ => Err(CancelledError),
        }
    }

    /// Gives up waiting, unless the wake-up was delivered. Returns the
    /// waker that is no longer needed. Giving up twice is a caller error.
    pub fn cancel(&mut self) -> (r: Result<Option<W>, FinishedError>)
        requires
            old(self).wf(),
            old(self).state_spec() != State::Cancelled,
        ensures
            final(self).wf(),
            final(self).state_spec() == after_op(old(self).state_spec(), WakerOp::Cancel),
            match old(self).state_spec() {
                State::Sleeping => r == Ok::<Option<W>, FinishedError>(old(self).waker_spec())
                    && final(self).state_spec() == State::Cancelled && final(self).waker_spec() is None,
                State::Storing => r == Ok::<Option<W>, FinishedError>(None)
                    && final(self).state_spec() == State::Cancelled && final(self).waker_spec()
                    == old(self).waker_spec(),
                _ => r is Err && final(self).state_spec() == State::Cancelled && final(self).waker_spec()
                    == old(self).waker_spec(),
            },
    {
        let previous = self.state;
        self.state = State::Cancelled;
        match previous {
            State::Sleeping => Ok(self.waker.take()),
            State::Storing => Ok(None),
            _ => Err(FinishedError),
        }
    }

    /// Where the wake-up stands.
    pub fn state(&self) -> (r: State)
        ensures
            r == self.state_spec(),
    {
        self.state
    }

    pub fn is_cancelled(&self) -> (r: bool)
        ensures
            r == (self.state_spec() == State::Cancelled),
    {
        match self.state {
            State::Cancelled => true,
            _ => false,
        }
    }
}

/// Delivering and giving up exclude each other: whichever comes first
/// wins, and the other then fails.
pub proof fn finish_cancel_exclusive<W>(s: State)
    requires
        s == State::Sleeping || s == State::Storing,
    ensures
        finish_result(s) is Ok ==> !(cancel_result(State::Finished) is Ok),
        cancel_result(s) is Ok ==> !(finish_result(State::Cancelled) is Ok),
{
}

/// Whether `finish` from state `s` delivers the wake-up.
pub open spec fn finish_result(s: State) -> Result<(), CancelledError> {
    if s == State::Cancelled {
        Err(CancelledError)
    } else {
        Ok(())
    }
}

/// Whether `cancel` from state `s` withdraws the waiter.
pub open spec fn cancel_result(s: State) -> Result<(), FinishedError> {
    if s == State::Finished {
        Err(FinishedError)
    } else {
        Ok(())
    }
}

/// A call on a one-shot wake-up: a whole poll (`poll_begin`, then
/// `poll_end`), a delivery (`finish`) or a giving up (`cancel`).
#[derive(Copy, Clone, PartialEq, Eq, Structural, Debug)]
pub enum WakerOp {
    Poll,
    Finish,
    Cancel,
}

/// The state a call leaves behind, as the calls' contracts state it: a
/// whole poll leaves the state as it found it; delivering and giving up
/// each leave their own state.
pub open spec fn after_op(s: State, op: WakerOp) -> State {
    match op {
        WakerOp::Poll => s,
        WakerOp::Finish => State::Finished,
        WakerOp::Cancel => State::Cancelled,
    }
}

/// The state after the calls `ops`, starting from `s`.
pub open spec fn after_ops(s: State, ops: Seq<WakerOp>) -> State
    decreases ops.len(),
{
    if ops.len() == 0 {
        s
    } else {
        after_op(after_ops(s, ops.drop_last()), ops.last())
    }
}

/// The last delivery or giving up among `ops`, if any.
pub open spec fn last_decision(ops: Seq<WakerOp>) -> Option<WakerOp>
    decreases ops.len(),
{
    if ops.len() == 0 {
        None
    } else if ops.last() == WakerOp::Poll {
        last_decision(ops.drop_last())
    } else {
        Some(ops.last())
    }
}

/// A wake-up made sleeping is cancelled after a run of calls exactly when
/// the last delivery or giving up among them was a giving up.
pub proof fn cancelled_iff_last_cancel(ops: Seq<WakerOp>)
    ensures
        (after_ops(State::Sleeping, ops) == State::Cancelled) <==> (last_decision(ops) == Some(WakerOp::Cancel)),
        last_decision(ops) is None ==> after_ops(State::Sleeping, ops) == State::Sleeping,
    decreases ops.len(),
{
    if ops.len() > 0 {
        cancelled_iff_last_cancel(ops.drop_last());
    }
}

/// After any number of polls that found the wake-up pending, the waiter
/// sleeps with the waker of the last poll stored; delivering then hands
/// that waker back to be woken, once.
pub proof fn finish_wakes_last_poll<W>(run: Seq<AtomicWaker<W>>, wakers: Seq<W>)
    requires
        run.len() == wakers.len() + 1,
        run[0].wf(),
        run[0].state_spec() == State::Sleeping,
        forall|t: int|
            #![trigger wakers[t]]
            0 <= t < wakers.len() ==> {
                &&& run[t + 1].state_spec() == State::Sleeping
                &&& run[t + 1].waker_spec() == Some(wakers[t])
            },
    ensures
        run.last().wf(),
        run.last().state_spec() == State::Sleeping,
        wakers.len() > 0 ==> run.last().waker_spec() == Some(wakers.last()),
        finish_result(run.last().state_spec()) is Ok,
{
    let last = wakers.len() as int;
    assert(run[last] == run.last());
    if wakers.len() > 0 {
        let w = wakers[last - 1];
        assert(run[last].state_spec() == State::Sleeping && run[last].waker_spec() == Some(w));
    }
}

} // verus!
