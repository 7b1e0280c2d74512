use vstd::prelude::*;

pub mod queue;
pub mod shared_mutex;
pub mod remangle;
pub mod condvar;
pub mod text;
pub mod puzzle;
pub mod view;
pub mod shared_swcas;
pub mod atomic;
pub mod shared_dwcas;

verus! {

/// The semaphore that a weak handle pointed to is gone.
#[derive(Debug, PartialEq, Eq, Structural, PartialOrd, Ord)]
pub struct Disconnected;

/// The amount asked for cannot be granted without waiting.
#[derive(Debug, PartialEq, Eq, Structural, PartialOrd, Ord)]
pub struct WouldBlock;

/// Why a non-blocking acquire through a weak handle failed.
#[derive(Debug, PartialEq, Eq, Structural, PartialOrd, Ord)]
pub enum TryAcquireError {
    WouldBlock,
    Disconnected,
}

} // verus!
pub mod semaphore;
pub mod freelist;
pub mod mrsa;
pub mod trace;
pub mod async_fn;
pub mod lldb;
pub mod promise;
