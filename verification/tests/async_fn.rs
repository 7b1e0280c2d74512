use asynckit::async_fn::{
    AsyncFn, AsyncFn0, AsyncFn1, AsyncFn2, AsyncFnOnce, AsyncFnOnce0, AsyncFnOnce1, AsyncFnOnce2,
};
use futures::executor::block_on;
use std::future::{ready, Ready};

struct Adder(u32);

impl<'a> AsyncFn<'a, ()> for Adder {
    type Output = u32;
    type Fut = Ready<u32>;
    fn call_async(&'a self, _args: ()) -> Ready<u32> {
        ready(self.0)
    }
}

impl<'a> AsyncFn<'a, (u32,)> for Adder {
    type Output = u32;
    type Fut = Ready<u32>;
    fn call_async(&'a self, args: (u32,)) -> Ready<u32> {
        ready(self.0 + args.0)
    }
}

impl<'a> AsyncFn<'a, (u32, u32)> for Adder {
    type Output = u32;
    type Fut = Ready<u32>;
    fn call_async(&'a self, args: (u32, u32)) -> Ready<u32> {
        ready(self.0 + args.0 * args.1)
    }
}

struct Taker(String);

impl AsyncFnOnce<()> for Taker {
    type Output = String;
    type Fut = Ready<String>;
    fn call_once_async(self, _args: ()) -> Ready<String> {
        ready(self.0)
    }
}

impl AsyncFnOnce<(char,)> for Taker {
    type Output = String;
    type Fut = Ready<String>;
    fn call_once_async(self, args: (char,)) -> Ready<String> {
        let mut s = self.0;
        s.push(args.0);
        ready(s)
    }
}

impl AsyncFnOnce<(char, usize)> for Taker {
    type Output = String;
    type Fut = Ready<String>;
    fn call_once_async(self, args: (char, usize)) -> Ready<String> {
        let mut s = self.0;
        for _ in 0..args.1 {
            s.push(args.0);
        }
        ready(s)
    }
}

#[test]
fn numbered_calls_pass_their_arguments() {
    let f = Adder(10);
    assert_eq!(block_on(f.call_async0()), 10);
    assert_eq!(block_on(f.call_async1(5)), 15);
    assert_eq!(block_on(f.call_async2(3, 4)), 22);
}

#[test]
fn numbered_once_calls_pass_their_arguments() {
    assert_eq!(block_on(Taker("hi".to_string()).call_once_async0()), "hi");
    assert_eq!(block_on(Taker("hi".to_string()).call_once_async1('!')), "hi!");
    assert_eq!(block_on(Taker("hi".to_string()).call_once_async2('!', 3)), "hi!!!");
}
