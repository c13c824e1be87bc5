# remitwise

Verified logic of the Remitwise Soroban contracts, written in Verus.

- `src/insurance.rs`: the insurance policy registry. The contract state is modelled as an
  `InsuranceView` (maps of live and archived policies, per-owner id lists, external reference
  bindings); every entry point is a method whose contract gives the state after the call and
  the answer exactly, and keeps the registry's consistency invariant. Laws about references,
  archiving and paging stand at the end of the file as proof functions.
- `src/migration.rs`: migration snapshots (schema version and SHA-256 checksum), import
  validation, the CSV export of savings goals and the base64 payload envelope.
- `src/mock_contracts.rs`: the small stand-in contracts (family wallet, remittance split,
  savings goals, bill payments, insurance).
- `src/codec.rs`, `src/hex.rs`, `src/text.rs`, `src/assoc.rs`: the calls into `sha2`, `base64`
  and `csv`, hexadecimal and decimal text, and association lists read as maps. The
  registry keeps its indexes as such lists of plain values: the Soroban `Map` and `Vec` that
  hold them on the ledger are host objects, reachable only through a running contract's
  environment, so `app/` copies them in and out of storage.
- `app/`: what Verus does not see. `serde_io.rs` holds the serde-derived copies of the
  migration types with JSON, bincode and CSV reading and writing; `insurance_contract.rs`
  exposes the registry as a Soroban contract over instance storage.
- `tests/`: the behaviour checked at run time.
