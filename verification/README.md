# mod_memory

The memory module of the service: it registers sources (plain text,
markdown, JSON and direct Open Badges / CLR credential payloads), splits
them into memory items with stable URNs, derives name-based source
identifiers, keeps an indexing outbox and a search projection, and migrates
stored sources to canonical external identifiers.

The library under `src/` is written in Verus. Its functions carry
`requires` / `ensures` contracts over mathematical models (`Seq`, `Map`,
`int`) of the data, and properties that span several calls (member-order
independence of the canonical text, idempotence of normalization, the
canonical URI round trip, a second registration replaying the first, the
shape of a migration run and its passing verification, projection
upserts) are stated as public proof functions (`lemma_*`).

- `src/domain/`: JSON model and canonical text, source types, normalization
  into memory items, canonical external identifiers, source identity,
  credentials, graph events.
- `src/infra/`: indexing outbox, stored records, search projection,
  source store decisions and the identifier migration.
- `src/application/`: registration planning, indexing retries, queries.
- `src/bootstrap.rs`: credential classification and schema validation.
- `app/`: the asynchronous services, ports and runtime adapters around the
  library (I/O, clocks, serde types, the Meilisearch client).
- `tests/`: executable tests of the library.

Calls into outside crates (`sha2`, `uuid`, `serde_json`, `time`,
`jsonschema`, `meilisearch-sdk`) go through small trusted wrappers whose
doc comments say what their contracts claim.
