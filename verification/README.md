# aegis

Mixnet relay topology, relay runtime decisions and trust primitives, written in
Verus. Every function in `src/` carries a contract; Verus proves all of them
except the calls into outside crates and std (in `crypto.rs`, `rng.rs`,
`clock.rs`, `text.rs`, `relay/net.rs` and `trust/zk.rs`), whose contracts are
trusted and state only what those crates' sources show.

- `src/topology/`: signed M-of-N relay admission and the admission roster with its
  rate limit, epoch layering, guard sets, per-packet and reputation-filtered path
  selection, the hash-chain beacon and committees, GF(256) Shamir sharing (with the
  field laws and the proof that enough shares of a split reconstruct the secret) of
  ceremony seeds, ceremony custody and the key-ceremony core.
- `src/relay/`: signed peer-health gossip, the quorum log and its epoch
  checkpoints, peer-health windows and the gossip merge, cover-flow planning and
  the bulk-cover spawn policy,
  metrics export hardening, relay counters, trace lines.
- `src/trust/`: TEE quote envelopes and software attestation, epoch nullifiers,
  Bulletproofs range proofs over scaled reputation scores.
- `src/crypto.rs`, `src/rng.rs`, `src/clock.rs`, `src/text.rs`: the calls into
  SHA3, ed25519, the random sources, the clock and `str::trim`, each with the
  contract the library relies on.
- `app/`: files, clocks, floating-point reputation and anomaly scoring, the
  eclipse heuristic and median, serde and error-display forms, the ceremony command.
- `tests/`: scenarios over the library.
