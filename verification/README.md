# kruuu-certificate-registry

A registry of soulbound certificate records for a CosmWasm chain, written in
Verus. Certificates are keyed by an opaque id, issued and revoked by an
allowlist of issuers, and the allowlist and ownership are governed by an owner.

## Layout

- `src/` — the verified library.
  - `order.rs` — byte-wise key order, its laws, and sorted insertion.
  - `text.rs` — decimal numbers, comma-joined lists, hex content hashes, and the
    shape checks of ids and hashes.
  - `state.rs` — the stored state (`Registry`) and its view: contract version,
    configuration, issuer allowlist and certificate records, each collection
    strictly ascending by key as the chain's storage lists it.
  - `spec.rs` — what each entry point does to the state and answers, as spec
    functions over the view.
  - `contract.rs` — the entry points (`instantiate`, `execute`, `migrate`,
    `query`), each proved against `spec.rs`.
  - `laws.rs` — properties of every request: consistency of the state and of
    every record, records never lost, read-after-write, a batch as a sequence
    of single issuances, access control (no one but the owner changes the
    owner or the allowlist), repeated allowlist changes, pagination.
- `tests/` — the scenarios, run against the library.
- `app/` — the CosmWasm contract around the library: entry points with the
  chain's signatures, JSON messages, the chain's error type, address
  validation through the chain's API, and the storage layout (each request
  writes back only what it changed).
