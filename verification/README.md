# ylong_runtime

The data structures and state machines of an asynchronous runtime, written in
Verus and proved against their contracts.

- `src/` is the verified library:
  - `util`: bit fields of a machine word (`bit`), an ordered slot list with
    stable keys (`slots`), a paged slab allocator (`slab`), a xorshift*
    generator (`fastrand`), and the CPUs named by a CPU set (`core_affinity`).
  - `task`: the task state word and its transitions (`state`), the steps of a
    task's life from its handles' side (`task_handle`), task settings
    (`builder`), the bookkeeping of a set of spawned tasks (`join_set`), and
    yielding (`yield_now`).
  - `sync`: semaphores, mutex, read-write lock, one-shot and multi-producer
    channels, the waiter list and the waker slot behind them.
  - `time`: a hierarchical timing wheel, and the sleeps, periodic timers and
    timeouts that wait on it.
  - `net` and `schedule_io`: readiness of an I/O source, its waiters, and the
    future that waits for readiness.
  - `select`: the decisions of a select over several branches.
- `app/` shares the library's states between tasks and threads (the channel
  handles), and makes the system calls and random seeding that the library
  leaves to its caller.
- `tests/` exercises the library.

The library works on plain values where the runtime has pointers, wakers and
clocks: a waker or a task is named by an integer, and times are milliseconds.
A step that waits returns what the caller has to do (wake, schedule, free),
and the caller performs it.
