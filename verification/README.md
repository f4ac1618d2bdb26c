# fruitboard_scanner

The filesystem scanning core of a local-first music-project library: it walks
a selected root into bounded provisional batches, reconciles what it saw with
the committed locations of that root, turns directory-change notifications
into coalesced reconciliation hints, and decides what the durable scan worker
does with each claimed scan. The library is written in Verus. Its functions
in `src/` are verified against their contracts, except eleven thin wrappers
over the standard library that it trusts, and the four std types they need.
Three of them carry a contract that states what std documents:
`String::push`, the UTF-8 check and `char` from a scalar value. The other
eight (the monotonic and system clocks, the `Duration` conversions and the
redacted `Debug` text of a relative path) promise nothing, and nothing
proved rests on what they return.

## Layout

- `src/reconciliation.rs`, `src/reconciliation_laws.rs`: the all-or-nothing
  reconciliation of one root's previous locations with a complete
  observation set, and its laws (the plan is determined by the inputs, does
  not depend on the order of the observations, and is a fixed point).
- `src/enumeration/`: the bounded traversal engine over an abstract
  filesystem port (`engine.rs`; its contracts speak of what a port, cursor,
  sink or storage records of the calls made to it, which only an
  implementation verified in Verus defines: the Windows port in `app/` is
  plain Rust, keeps the defaults, and nothing proved of the engine's
  deliveries carries over to it beyond the report's own promises), path normalization (`paths.rs`), the checked
  conversions handed to storage (`conversions.rs`), and the decisions of the
  Windows port apart from its system calls (`windows.rs`).
- `src/watcher/`: notification parsing (`path.rs`), per-root coalescing of
  activity into hints (`coalescer.rs`), and the watch lifecycle decisions
  (`lifecycle.rs`).
- `src/scan.rs`, `src/scan/`: the scan worker's fences, resolutions, retry
  schedule and change summary; the step-by-step execution of one claimed scan
  (`execution.rs`); and the routing of watcher hints into follow-up scans
  (`followups.rs`).
- `src/sidecar.rs`: the argument and protocol decisions of the sidecar probe.
- `app/`: the program around the library: the sidecar probe's I/O, the
  Windows filesystem port and directory watcher (system calls, threads), and
  a process-wide monotonic clock.
- `tests/`: the library's tests, including in-memory filesystem ports that
  exercise the traversal engine.
