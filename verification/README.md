# conduit

A scrape bridge for a fleet of Oximeter pull producers (Crucible
downstairs). Producers register their real address; a collector pulls each
producer's samples on a fixed cadence; the latest batch is re-exposed in the
Prometheus text exposition format.

Layout:

- `src/` is the verified library (Verus):
  - `text.rs`: appending characters, decimal text of integers.
  - `render.rs`: name sanitizing, label escaping, label sets and the
    exposition document, with the laws of the format (each `# TYPE` once per
    metric, samples without a scalar value skipped, escaping invertible).
  - `registry.rs`: the registered producers, keyed by id.
  - `collector.rs`: flattening a producer's report, merging a collection
    cycle into the sample cache, the URL a producer is pulled from.
- `app/` is the program around it: command line, logging, the HTTP server
  (Dropshot), the HTTP client (reqwest), the timer loop, and the conversion
  of Oximeter/Omicron values (including their floating-point data) into the
  library's plain values.
- `tests/` exercises the library on concrete values.
