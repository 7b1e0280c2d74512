# asynckit

Building blocks for asynchronous Rust — a fair semaphore and the state
machines of two compare-and-swap semaphore designs, an
asynchronous condition variable, a single-acquirer semaphore, async-backtrace
symbol shortening, task trees and lldb backtrace lines, promises, and an
acrostic puzzle view — whose logic is
verified with Verus.

- `src/` is the verified library. Data structures have models (spec
  functions and views) and functions have contracts over them; where a
  result rests on another thread, on a trait implementation or on an atomic
  cell, the contract states what is handed to that call and what is done
  with its answer. Several properties that span calls are stated as public
  proof functions.
- `tests/` exercises the library on concrete values.
- `app/` is ordinary Rust around the library: the parts that lock, park and
  wake tasks, read files and debug information, and run retry loops against
  atomic words. The decisions of those loops are the library's. The
  double-word design needs a 128-bit atomic that stable Rust lacks, so only
  its state transitions are here; the single-word one's waker sits behind a
  lock in app/, so neither is lock-free as assembled.
