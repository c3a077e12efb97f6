# task_dispatcher

A task dispatcher whose scheduling logic is verified with Verus.

- `src/task.rs` — tasks, their kinds and loads, and effective priority with aging.
- `src/policy.rs` — the priority-with-aging pick over the CPU and IO queues, and the aging laws.
- `src/dispatcher.rs` — the dispatch state machine: queues, idle workers, reserved CPU workers, completion and termination, with the dispatch-round laws.
- `src/metrics.rs` — completion reports, per-worker busy time and the run summary.
- `src/clock.rs` — the millisecond clock a run is timed on.
- `src/generator.rs` — the integer part of a workload, the random draws and the arrival order.
- `app/` — the program: threads, channels, sleeping, printing, and the floating-point parts of workload generation.
- `tests/` — tests of the library.
