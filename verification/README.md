# nullspace_execution

Deterministic casino execution, verified with Verus.

- `src/casino/` — the games (baccarat, blackjack, casino war, craps,
  roulette, sic bo, three card poker, ultimate texas hold'em, video poker),
  their state encodings, the SHA-256 random stream that drives them, super
  mode multipliers, and the dispatch over game types.
- `src/moves.rs` — starting a game and taking a player's move as the
  execution layer does: the checks, the session, the game, the progressive
  meters and the settlement, leaving the store reads and writes to the caller.
- `src/settlement.rs`, `src/amm.rs`, `src/staking.rs`, `src/tournament.rs`,
  `src/layer.rs` — what the execution layer decides around the games:
  settling results against a player's account, progressive jackpots, the
  chip market and vaults, staking, tournaments, and the pending writes of a
  block over the state store.
- `src/state.rs` — the key-value store interface, the in-memory store, and
  transaction admission by nonce.
- `src/retry.rs` — the retry decisions of the HTTP client.
- `app/` — the retry loop that sleeps between attempts and the tournament
  prize split, which is computed in floating point.
- `tests/` — the test suite.

Hi-Lo is not played here: its game module, the super-mode fee schedule and
the dispatch that draws each game's super-mode multipliers are not part of
this code base. The dispatch functions refuse Hi-Lo sessions by their
preconditions, and the super-mode fee and drawn multipliers are taken as
arguments where a decision needs them.

Every loop that rereads the random stream until a byte is accepted (bounded
draws, distinct super-mode elements) stops after `u64::MAX` bytes past its
first and keeps the last one; the contracts say so.
