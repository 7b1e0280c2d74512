use vstd::prelude::*;
use std::marker::PhantomData;

verus! {

/// An allocator of single values that hands out and takes back boxes.
pub struct Malloc<T>(PhantomData<T>);

impl<T> Malloc<T> {
    pub fn new() -> (r: Self) {
        Malloc(PhantomData)
    }

    /// Moves `value` to the heap.
    pub fn allocate(&self, value: T) -> (r: Box<T>)
        ensures
            *r == value,
    {
        Box::new(value)
    }

    /// Takes the value back from the heap.
    pub fn free(&self, boxed: Box<T>) -> (r: T)
        ensures
            r == *boxed,
    {
        *boxed
    }
}

} // verus!
