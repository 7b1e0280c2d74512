use vstd::prelude::*;
use std::future::Future;

verus! {

/// A function that, called by reference with the tuple of its arguments,
/// returns a future of its result.
pub trait AsyncFn<'call, Args> {
    type Output;
    type Fut: Future<Output = Self::Output>;

    fn call_async(&'call self, args: Args) -> Self::Fut;
}

/// A function that, called once by value with the tuple of its arguments,
/// returns a future of its result.
pub trait AsyncFnOnce<Args> {
    type Output;
    type Fut: Future<Output = Self::Output>;

    fn call_once_async(self, args: Args) -> Self::Fut;
}

/// An `AsyncFn` of no argument, called without the empty tuple.
pub trait AsyncFn0<'a>: AsyncFn<'a, ()> {
    fn call_async0(&'a self) -> Self::Fut {
        self.call_async(())
    }
}

impl<'a, F: AsyncFn<'a, ()>> AsyncFn0<'a> for F {}

/// An `AsyncFn` of one argument, called with the argument itself.
pub trait AsyncFn1<'a, T>: AsyncFn<'a, (T,)> {
    fn call_async1(&'a self, arg0: T) -> Self::Fut {
        self.call_async((arg0,))
    }
}

impl<'a, F: AsyncFn<'a, (T,)>, T> AsyncFn1<'a, T> for F {}

/// An `AsyncFn` of two arguments, called with the arguments themselves.
pub trait AsyncFn2<'a, T1, T2>: AsyncFn<'a, (T1, T2)> {
    fn call_async2(&'a self, arg0: T1, arg1: T2) -> Self::Fut {
        self.call_async((arg0, arg1))
    }
}

impl<'a, F: AsyncFn<'a, (T1, T2)>, T1, T2> AsyncFn2<'a, T1, T2> for F {}

/// An `AsyncFnOnce` of no argument, called without the empty tuple.
pub trait AsyncFnOnce0: AsyncFnOnce<()> {
    fn call_once_async0(self) -> Self::Fut where Self: Sized {
        self.call_once_async(())
    }
}

impl<F: AsyncFnOnce<()>> AsyncFnOnce0 for F {}

/// An `AsyncFnOnce` of one argument, called with the argument itself.
pub trait AsyncFnOnce1<T>: AsyncFnOnce<(T,)> {
    fn call_once_async1(self, arg0: T) -> Self::Fut where Self: Sized {
        self.call_once_async((arg0,))
    }
}

impl<F: AsyncFnOnce<(T,)>, T> AsyncFnOnce1<T> for F {}

/// An `AsyncFnOnce` of two arguments, called with the arguments themselves.
pub trait AsyncFnOnce2<T1, T2>: AsyncFnOnce<(T1, T2)> {
    fn call_once_async2(self, arg0: T1, arg1: T2) -> Self::Fut where Self: Sized {
        self.call_once_async((arg0, arg1))
    }
}

impl<F: AsyncFnOnce<(T1, T2)>, T1, T2> AsyncFnOnce2<T1, T2> for F {}

} // verus!
