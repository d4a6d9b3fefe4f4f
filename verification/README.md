# ZenithDB

A storage engine for agent traces: spans are logged, compacted into columnar segments that
keep each trace together, and read back a page, a column or a single row at a time.

The library under `src/` is written in Verus. Its functions have contracts over mathematical
models, and the proofs are checked with the code. Where chance, the clock or the eviction of a
cache decides, a contract says what holds of every outcome; the clock readers, the fresh
trace and span identifiers and the size of the claims cache have nothing of that kind to say.

| Module | What it holds |
| --- | --- |
| `common` | identifiers, span records, schemas, errors, configuration |
| `compress` | column codecs: bit packing, Gorilla, run lengths, dictionaries, FSST, ZSTD |
| `format` | pages, row groups, zone maps, metadata, hotcache, footer, segment writer and reader |
| `compactor` | batches, merging, row groups, segment building (whole and streamed), the compaction protocol |
| `catalog` | rows, their stored form, and an in-memory catalog with leases and commit numbers |
| `cluster` | nodes, rendezvous sharding, routing, the node registry, merging results |
| `crypto` | root keys and encrypted envelopes |
| `auth` | signed requests, token claims, key-set rules |
| `fts` | what is indexed for text search, how an index is packed, the row mask of a search |
| `bench`, `cli` | synthetic data, benchmark suites, and the decisions of administrative commands |
| `outside` | the calls into other crates, each behind one item with a stated contract |

`wire`, `cursor`, `rows`, `order`, `text`, `chars` and `intern` are shared groundwork.

Laws that span several functions are public proof functions beside the code they speak of, such
as `segment_column_round_trip`, `traces_stay_together`, `leases_are_exclusive` and
`envelopes_round_trip`.

Floating-point values are held by their bit patterns, and times of the catalog are microseconds
since the epoch.

`app/` is ordinary Rust around the library: the command line, files, HTTP, Postgres and the
text index. `tests/` runs the library together with the crates it calls.
