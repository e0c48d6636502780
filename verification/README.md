# agdb

Building blocks of the agdb graph database, written in Verus: each function
carries a `requires`/`ensures` contract and every body is proved against it.

Layout of `src/`:

- `storage.rs` — `StorageIndex` and the little-endian `u64` encoding that every
  record uses.
- `collections/` — `BitSet`; the open addressing tables `MultiMapImpl`
  (a multiset of key/value pairs), `MapImpl` (one value per key) and
  `IndexedMapImpl` (a one-to-one map searchable from both sides); `VecImpl`, a
  vector over a pluggable `VecData` store, with an in-memory store.
- `db/` — error values, configuration, the storage records of the database
  (`DbStorageIndex`, its legacy form, `DbIndexStorageIndex`), the decision how
  to open a database and the conversion of a legacy one, `DbValueIndex`, the
  joining of search conditions and the search handlers that apply limits and
  offsets, and `search_from`, a paged depth-first search over conditions.
- `graph.rs`, `graph_search/` — graph indexes, an in-memory graph of nodes
  and directed edges, the search control values, the `SearchHandler` trait
  and the depth-first search that drives a handler over the graph.
- `api.rs`, `api_def/` — the operators and literal kinds of the query API.

Each module states its laws as public proof functions named `law_*`
(round trips of the encodings, what a read gives back after a write, what one
operation undoes of another). The tests under `tests/` run the library on
concrete values.
