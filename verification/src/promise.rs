use vstd::prelude::*;

verus! {

/// Why a non-blocking receive on a promise gave no value.
#[derive(Debug, PartialEq, Eq, Structural)]
pub enum TryRecvError {
    /// The promise is still open: no value yet.
    Empty,
    /// Every promise handle is gone and none gave a value.
    Disconnected,
}

/// What a non-blocking receive answers, once it knows whether the
/// promise's semaphore was poisoned (the promise was completed or every
/// promise handle dropped) and what value the promise holds.
pub fn try_recv_outcome<'a, T>(poisoned: bool, value: Option<&'a T>) -> (r: Result<&'a T, TryRecvError>)
    ensures
        !poisoned ==> r == Err::<&'a T, TryRecvError>(TryRecvError::Empty),
        poisoned ==> match value {
            Some(v) => r == Ok::<&'a T, TryRecvError>(v),
            None => r == Err::<&'a T, TryRecvError>(TryRecvError::Disconnected),
        },
{
    if !poisoned {
        Err(TryRecvError::Empty)
    } else {
        match value {
            Some(v) => Ok(v),
            None => Err(TryRecvError::Disconnected),
        }
    }
}

/// Whether dropping a promise handle poisons the promise: it does when the
/// handle was the last one, that is when the count of handles was one
/// before the drop.
pub fn drop_poisons(previous: usize) -> (r: bool)
    requires
        previous >= 1,
    ensures
        r == (previous == 1),
{
    previous - 1 == 0
}

} // verus!
