# influxdb3_write

The core of a multi-node write path for a time-series database on top of an object store,
written in Rust and verified with Verus: which files are live, how nodes learn of each
other's files, who may write and who may compact, what is compacted into what, and which
services a process runs.

- `src/` is the library. Every function states what it returns or changes, and Verus proves
  it. Laws that span functions stand beside them as proof functions, the larger groups in
  modules of their own (`fold_laws`, `fold_order`, `counter_laws`, `persisted_files_laws`,
  `lease_laws`, `lease_runs`, `compaction_laws`, `inventory_laws`).
- `app/` performs what the library decides: it talks to the object store, the network and
  the clock, and keeps the documents that nodes exchange as JSON.
- `tests/` runs the library on concrete values, against an in-memory object store where a
  protocol is involved.

## What is believed without proof

A few functions call other crates. Their doc comments say what is taken for granted:

| Module | Function | Calls |
| --- | --- | --- |
| `collections` | the methods of `FileIndex`, `PathSet`, `MarkSet`, `TombstoneIndex` | `hashbrown` maps and sets |
| `object_path` | `object_path` | `object_store::path::Path::from` |
| `compaction_paths` | `format_chunk_time` | `chrono` date formatting |
| `shared_inventory` | `new_id` | `uuid::Uuid::now_v7` |
| `serve` | `cpu_count`, `sha512_digest`, `parse_usize` | `num_cpus`, `sha2`, `str::parse` |
| `startup_probe` | `decode_lossy` | `String::from_utf8_lossy` |

## Where to start

`files` has the data, `fold` says how a manifest changes the live files, and
`persisted_files` tracks them. `shared_inventory`, `checkpoint` and `inventory_poller` keep
nodes in step. `leases` and `compaction_run` are protocols: the library takes a reply and
hands out the next call.
