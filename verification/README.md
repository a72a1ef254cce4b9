# parking_lot

Compact synchronization primitives on top of a *parking lot*: a hash table that maps lock
addresses to queues of sleeping threads.

`src/` is a library that is verified with Verus.

- `lot`: the queues and the table, how buckets are locked, and how a thread parks. Its laws say
  that queues are first in, first out, that no operation loses or doubles a thread, and that
  growing the table keeps all queues.
- `once`: one-time initialization. The state is one byte; `call` is what one thread does about it,
  `system` any number of threads at the same time, and `laws` what they can rely on: one closure at
  a time, one success at most, and nobody left asleep once it is done and all pending
  wakeups have happened.
- `deadlock`: the graph of who waits for whom, and the cycles in it. `laws` says what one check
  finds, and `history` that no later check finds it again.
- `thread_parker`: when a parked thread sleeps and when it stops, on three platforms.
- `condvar`, `guard`, `remutex`, `recursive_rwlock`, `util`: condition variables over a raw one,
  what guards carry, who may hold the two recursive locks, and deadlines.

The operations on the byte of a `Once` are taken to happen one after another; the memory model of
the machine is not part of the statements.

`app/` is ordinary Rust around the library: the table of the process, system calls, thread-local
data, and the loops that do what the library asks for.
