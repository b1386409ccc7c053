# perfweave

A GPU profiler: agents sample metrics and CUDA activity, a server aligns the
clocks, keeps live tails, stores what is worth storing and answers timeline
queries.

- `src/` is the library, verified with Verus. It holds the clock fit and the
  mapping to host time, the CUPTI record parser, framing, the rings and live
  tails, ingest, the storage sink's bookkeeping, spike gating, levels of detail,
  and every query and filter that is sent to the database.
- `app/` is the program around it: sockets, files, NVML, gRPC, HTTP, ClickHouse
  and the floating-point statistics.
- `tests/` run the library from outside.

Values that are doubles on the wire travel through the library as their bits.
Calls into other crates stand behind small declared contracts, each documented
where it is made: xxHash, ahash, crossbeam-channel, arrow and rand.
