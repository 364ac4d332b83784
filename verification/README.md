# mpc_node

A node of a secure multi-party computation network, written in Verus: the logic is
executable Rust whose behaviour is stated in `requires`/`ensures` contracts and proved.

## Layout

- `src/field.rs` — arithmetic modulo the Mersenne prime 2^61 - 1, with the inverse,
  division and cancellation laws.
- `src/primality.rs` — Fermat's little theorem for that prime, from the generator 37 and
  the factorization of `p - 1`.
- `src/mac.rs`, `src/spdz.rs`, `src/beaver.rs` — authenticated shares, SPDZ operations,
  Beaver triples and their pool.
- `src/shamir.rs` — Shamir sharing and Lagrange reconstruction, with the law that enough
  shares at distinct points give back the secret.
- `src/polynomial.rs` — integer polynomials and the root-counting fact modulo the prime
  that the reconstruction law rests on.
- `src/oram.rs` — Path ORAM over a tree of buckets, with a stash; its view is the data of
  the last write of each id, which reads return.
- `src/utils.rs` — SHA-256 hashing, Merkle trees with membership proofs, a Fiat-Shamir
  transcript.
- `src/air.rs`, `src/prover.rs`, `src/verification.rs`, `src/causal.rs` — traces of the
  SPDZ operations, their constraints, proof generation and checking.
- `src/message.rs`, `src/session.rs`, `src/node.rs`, `src/coordinator.rs`,
  `src/network.rs` — the messages nodes exchange, peer sessions, the node's reaction to
  messages, the job coordinator, and the table of peer connections.
- `src/keyed.rs`, `src/text.rs`, `src/clock.rs`, `src/random.rs` — maps keyed by party id,
  decimal strings, time and randomness.
- `app/` — the program around the library: JSON encoding, the TCP layer, the
  causal-effect command and `main`.
- `tests/` — tests of the library.

The contracts of calls into `sha2`, `hex`, `rand`, `uuid`, `std::time` and
`std::collections::HashMap::get_mut`, and the declaration of tokio's `OwnedWriteHalf`, are
trusted; each such item says in its doc comment what it claims.
