# arena

The round logic of a coin-flip elimination arena run as a Soroban contract,
written in Verus and verified.

Each round, surviving players commit to heads or tails with a SHA-256
commitment, then reveal. The side fewer players revealed survives (a tie is
decided by the ledger's random generator); survivors who revealed the other
side, or nothing, are eliminated. One survivor left wins; none left is a draw
that shares the prize pool among all players; reaching the configured number
of rounds shares it among the survivors.

## Layout

- `src/arena.rs` — `Arena`, the arena's stored data as plain values (addresses
  are kept once, as XDR bytes, and named by index), its mathematical model,
  and the stored-value accessors (`get_state`, `set_state`, `bump`, ...).
- `src/rules.rs` — the rules as specification functions: what each operation
  does to the model and which effects it leaves to the host.
- `src/rounds.rs` — the operations (`start_round`, `commit_choice`,
  `reveal_choice`, `timeout_round`, `resolve_round`, ...), each proved to do
  exactly what `rules.rs` says; every operation leaves the arena unchanged
  when it fails. The ledger's sequence number and close time are read by the
  contract and handed in. Where a counter would overflow,
  `start_round_overflows`, `reveal_overflows` and `reveal_choice_checked` say
  so before the call. A tie between the sides is decided by a number from the
  ledger's random generator, which the host serves only inside a contract
  invocation: the operations take that number as an argument,
  `resolve_round_internal_draws`, `resolve_round_draws` and `reveal_draws` say
  exactly when one is needed, and the contract in `app/` draws it then and
  only then.
- `src/math.rs` — prize splitting and the choice of the surviving side.
- `src/effects.rs` — the effects (token transfers, contract calls, storage
  lifetime extensions, events) that operations hand back to the host.
- `src/host.rs` — the call into `soroban-sdk`: SHA-256.
- `src/laws.rs` — properties proved over the rules.
- `app/lib.rs` — the Soroban contract: it loads an `Arena` from contract
  storage, runs an operation, stores what changed and performs the effects.
