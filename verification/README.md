# iot_pipeline

A distributed IoT pipeline (sensors → edge nodes → coordinator) whose
decision logic is a Verus-verified library.

- `src/` — the verified library:
  - `table` — insertion-ordered maps with unique keys, viewed as `Map`s;
  - `stats` — time-stamped sample windows and latency percentiles;
  - `coordinator` — the HTTP coordinator's state: sequence-gap loss
    detection, heartbeats, edge liveness, status figures;
  - `metrics` — the TCP coordinator's counters and periodic summary;
  - `window` — per-sensor sliding windows of the edge nodes;
  - `delivery` — retry with exponential backoff and pauses;
  - `pem` — certificates and private keys from PEM text;
  - `clock`, `common`, `pipeline` — wall-clock time and message types.
- `tests/` — tests of the library on concrete values.
- `app/` — the six programs (`sensor`, `edge`, `coordinator` over HTTP,
  `tcp-sensor`, `tcp-edge`, `tcp-coordinator` over TCP with mutual TLS):
  networking, timers, serialization and the floating-point figures.
