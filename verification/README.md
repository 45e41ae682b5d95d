# zkstash

A shielded asset vault for Soroban, with its logic verified in Verus.

Deposits register a 32-byte commitment as the next leaf of an incremental
Merkle tree of depth 20; every root the tree has after a deposit stays valid.
Withdrawals name a nullifier, a historical root and a proof bound to the
recipient, token and amount; a nullifier can be spent once. An admin can pause
the vault, change the withdrawal fee (at most 10%), claim accrued fees, hand
over administration and authorize code upgrades.

Layout:

- `src/host.rs`: the trusted items: the declaration of the Soroban `Env`,
  the name `sha256_digest`, and the wrapper that computes SHA-256 through the
  Soroban host.
- `src/merkle.rs`: the tree, its specification (`node`, `merkle_root`,
  `frontier`) and the proof that the incremental insertion stores exactly the
  latest left child of each height and the root over all leaves; a tree can be
  resumed from those stored parts alone.
- `src/zk_verifier.rs`: the proof check. A vault made with `new` accepts a
  proof only when it is the digest of the public inputs; one made with
  `new_test_mode`, for unit tests, also accepts `ZK_PASS_MOCK_PROOF`.
- `src/vault.rs`: the vault state, one spec function per request, and the
  executable requests proved to compute exactly those.
- `src/laws.rs`: properties across requests (no double spend, roots stay
  valid, proofs cannot be redirected, accrued fees are the fees withheld since
  the last claim, the count is the number of deposits, bounds kept,
  admin-only requests, fee split).
- `app/lib.rs`: the Soroban contract that loads the vault's settings, stored
  tree and the root and nullifier entries a request asks about, runs the
  request, and performs authentication, transfers, events, upgrades and the
  storage writes.

Assumption: `app/` resumes the tree with `MerkleTree::from_stored`, which
checks the shape of the stored parts (20 left children, a count of at most
2^20) but cannot check that they are what inserting some commitments stores,
since that is a statement about SHA-256 preimages. The tree's guarantees rest
on storage holding only what the library itself wrote there.
