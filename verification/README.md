# squad

A thread pool designed for background value computation.

The library under `src/` holds the rules of the pool, and Verus proves them:

- `size`, `builder`: the size of a pool and its other settings, and how a pool is set up from them.
- `roster`: the count of a pool's threads against its size.
- `ledger`: logs of what was done through one handle to something that threads share.
- `shared`: the state that the owner of a pool shares with its workers.
- `thunk`: tasks as work that is done once.
- `channel`, `counter`: the ends of channels and the counters that threads share.
- `staff`: what the threads of a pool are, and how one is added.
- `pool`: submitting a task, and what becomes of it.
- `worker`: how a worker finds tasks, executes them and stops.
- `crew`: what holds of all workers of a pool together.
- `join`: waiting for a pool to shut down.

The library starts no thread. Where a pool needs one it hands out a `WorkerThread`, which says what
the thread is called, how large its stack is and which worker it is to run.

`app/` is the thread pool for programs: it starts the threads, waits on a condition variable, reads
the clock and hands the values of tasks, or their panics, to whoever waits for them.
