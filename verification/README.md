# blockchain

A small proof-of-work blockchain, written in Verus:

- `src/` is the verified library. Blocks are mined over the Merkle root of
  their transactions (`block`, `merkle`, `transaction`); transaction outputs
  are locked to public-key hashes (`tx`); the set of unspent outputs is a
  store kept in the byte order of its keys (`utxoset`, `keyorder`); wallets
  hold ed25519 key pairs addressed in Base58 (`wallet`, `address`).
  SHA-256, RIPEMD-160, ed25519, Base58 addresses, bincode and the Merkle
  tree come from `rust-crypto`, `bitcoincash-addr`, `bincode` and
  `merkle-cbt`, each behind a trusted item whose contract says what the
  library relies on (`digest`, `address`, `codec`, `merkle`, `clock`).
- `app/` is the command-line program: argument handling with `clap` and the
  `sled` stores of wallets and unspent outputs.
- `tests/` runs the library on concrete values.
