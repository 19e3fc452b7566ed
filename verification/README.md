# flock

The logic of a parallel runner for asynchronous tasks, verified with Verus.

Tasks (actors) run on a fixed number of worker threads, fed by one central
event loop; an actor paused between runs can move to another worker.

- `src/` is the verified library: events and commands (`event`), the
  per-topic listener boards (`board`, `pubsub`, `broker`), the decisions of
  the central loop (`central`: event numbering, routing, sleeping and waking
  actors) and of the workers (`worker`), and the run settings (`central`,
  `turbine`). Each module states its contracts over views (`Map`, `Set`,
  `Seq`); the `law_*` proof functions state what holds across operations.
- `app/` starts the threads and channels, runs the host loop of a `Kernel`,
  and carries out what the library decides.
- `tests/` runs the library on concrete values.
