# jam_primitives

Core data types of the JAM protocol (accounts, hashes, headers, blocks,
transactions), their SCALE encoding and decoding, and the validation rules
that a block and its contents must satisfy, written in Verus with their
behaviour stated as contracts and proved.

Layout:

- `src/types.rs`, `src/crypto.rs`, `src/crypto/`: the protocol's newtypes,
  keys and signatures; BLAKE3 hashing through the `blake3` crate.
- `src/header.rs`, `src/transaction.rs`, `src/block.rs`: headers,
  transactions and blocks, with the rules that `verify_*` and `validate`
  check, each stated as a spec function naming the first rule that fails.
- `src/utils/codec.rs`: the SCALE format as spec functions over bytes, the
  `Encode` and `Decode` traits, and the laws that decoding inverts encoding;
  compact integers go through `parity-scale-codec`.
- `tests/`: executable tests, run with the real outside crates.
- `app/`: serde-enabled copies of the library types and an error type with
  `Display`, which the verified library cannot carry itself.
