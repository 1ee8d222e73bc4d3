# chronos_collector

The decision core of a PHP tracing extension, written in Verus. Every item under
`src/` is verified: what each function returns or changes is stated in its
contract, and what holds of the library as a whole is stated in public proof
functions whose names begin with `law_`.

- `observer`: which calls become spans, the spans of a request, outbound curl
  calls, messaging clients (publish, deliver, poll), and what one call leaves for
  a later one.
- `zend_helpers`: what the engine shows of a call, as plain values, and the
  header writes made on it.
- `sampler`, `profile_spool`: sampled profiles and the documents they become.
- `spool`, `spool_common`, `spool_log`: span documents, packing into a byte
  budget, and the framed, rotated log they are appended to.
- `settings`, `rate`, `vcs`, `request_attributes`, `propagation_priority`,
  `replay_hooks`: settings and their precedence, sampling rates, the deployed
  revision, attributes set by userland, coexistence with other tracers, and
  replayed results of clocks and random sources.
- `text`, `json`, `context`: strings, JSON values and the identity of a process.

`app/` is the extension around it: clocks, files, the environment, the profiling
timer and the glue to the engine. It reads, asks the library what to do, and does
it. `tests/` runs the library with the crates it calls.

The library rests on `serde_json` for rendering, `sha2` for content addresses and
`chrono` for timestamps. What is believed of them stands in the doc comment of
each `external_body` function.
