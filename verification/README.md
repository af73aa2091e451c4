# rust_box

A toolbox of small building blocks, written in Verus. The functions in
`src/` are verified against their contracts; the few small wrappers that
call into std (marked `#[verifier::external_body]`, each with a doc comment
saying what it claims) are trusted rather than proved, and a function with
no `ensures`, such as the clock reading `clock_nanos`, promises nothing
beyond not failing.

## Layout

- `src/order.rs` — the laws of `Ord` and `PartialEq` that the collections rely on.
- `src/heap.rs`, `src/binary_heap.rs`, `src/priority_queue.rs` — a binary
  max-heap with the standard library's sifting rules, and the heap and
  priority queue built on it.
- `src/dequemap.rs` — a double-ended queue whose entries are also looked up
  by key; keys never repeat.
- `src/bytesize.rs` — byte counts as text such as `1G2M3K4B`, both ways.
- `src/transfer.rs`, `src/chunked.rs` — framing of payloads into numbered
  chunks, and their reassembly with per-transfer timeouts; the two are proved
  to give a payload back.
- `src/client.rs`, `src/server.rs`, `src/service.rs` — settings and endpoint
  rules of a transfer client and server, their errors, and the decisions of
  the request and response handlers. The gRPC transport that would carry
  them (tonic, with code generated from a protocol file) is not part of this
  crate.
- `src/queue_ext.rs`, `src/channel.rs` — the requests a sending half makes of
  its queue, the errors it reports, and the answers of the queues behind
  bounded channels.
- `src/wrapper.rs`, `src/std_ext.rs`, `src/cache_map.rs` — wrappers with a
  fixed order or hash, `Arc`/atomic constructors, expiring values, maps of
  them and the entries of such maps. Deadlines are nanoseconds on the system
  clock; the lookups, sweeps and expiry tests that read the clock have twins
  that take the reading as an argument and are stated exactly.
- `src/task_exec_queue.rs`, `src/task_executor.rs` — settings and errors of
  task queues, the in-order running of a group's tasks, the dispatch of
  tasks to idle workers (idle and busy workers always add up to the worker
  count) and the spawn rule (refuse, wait for room, or send).
- `src/counter.rs` — the integer counts of a counter.
- `app/` — what runs on tasks and threads around the library: queue halves as
  `Sink`/`Stream`, channels, rate-limited streams, listener chains, shared
  counters, the task queue's runtime, and serde forms of library types.
- `tests/` — tests of the library on concrete values.
