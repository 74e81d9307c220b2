# tracemalloc

A memory trace collector. Allocation events go into bounded buffers, one for
each thread, are drained into an aggregator that is keyed by interned stack
traces, and come out as snapshots that can be compared, streamed and exported.

## Layout

- `src/` is the library, verified with Verus. Each type has a view, its
  functions are specified over views, and what holds from one call to the next
  is proved in the modules that end in `_laws` and in the `law_` functions
  beside the types.
  - `event`, `config`: events and configuration.
  - `ring_buffer`: the bounded buffer of a thread.
  - `frames`, `stack`, `stack_capture`, `native`: frames, the table that interns
    stacks, and how stacks are captured.
  - `sampling`: which allocations are recorded.
  - `aggregator`, `ranking`, `snapshot`: statistics, and snapshots with their
    differences.
  - `tracer_view`, `state`: the tracer, step by step.
  - `export`, `stream`: snapshots as pprof profiles and as lines of a stream.
  - `shim`, `options`: the rules behind the allocator hooks of an interpreter.
- `app/` holds what surrounds the library: threads and locks, files and memory
  mappings, JSON and protobuf encoding, and the Python module.
- `tests/` runs the library.

The library works on one tracer at a time, through `&mut`. Threads are told
apart by number: `switch_thread` says on whose behalf the next calls are made.
`app/shared.rs` puts a lock around it and runs the worker.
