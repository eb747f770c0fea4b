# sorla_providers

The SoRLa provider family as a verified library: the shared provider contract
(capabilities, metadata, canonical records, ontology types and traits), pack
manifests and the provider catalog, the local/dev FoundationDB provider with its
keyspace and transaction planning, the SharePoint-style and RAG mock providers,
metric query checks and time buckets, and the release tooling's rules (provider
dependency map, version bumps, build matrix, manifest version rewriting).

Every function in `src/` is verified with Verus against its `requires` /
`ensures` contract; cross-function properties (read-after-write of the stores,
idempotent canonical writes, ordered keyspaces, manifest version read-back, a
catalog independent of manifest order, an all-or-nothing canonical write and
stream reads over a key/value model of the cluster, and more) are stated and
proved as public proof functions.

Layout:

- `src/` — the verified library. Outside crates are reached only through a few
  trusted wrappers: `semver` (version and range parsing) and `serde_json`
  (JSON string quoting).
- `tests/` — the test suite, run against the compiled library.
- `app/` — the unverified rim: JSON and CBOR front doors, file output of packs
  and catalogs, float-valued evidence ranking and metric aggregation, the
  release tasks, and the FoundationDB client driver that executes the
  transaction steps the library plans.
