# clipbet

A verified library for two clip-betting pallets.

- `src/clipbet2.rs`: clips posted by their owners, bets placed on clips in
  numbered rounds, the round and clip tallies, and the reward of each bet on a
  winning clip. The runtime's currency is the `Currency` trait.
- `src/clipbets.rs`: per-account clips and a list of members that an account
  joins once.
- `src/keymap.rs`: the storage maps, as vectors of distinct keys viewed as maps.
- `src/perbill.rs`: the `sp_runtime::Perbill` ratio and product that rewards use.
- `src/transfer_call.rs`: the SCALE-encoded transfer call, written as hex.
- `src/setsum.rs`: sums over finite sets, for the round tallies.
- `app/lib.rs`: the pot account derived from a pallet identifier, the overflow
  guard for bets, and the log lines of a winner selection.
