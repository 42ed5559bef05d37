# coopfin

The rules of a cooperative-finance platform (group wallet, treasury
ledger, loans, proposal voting, governance rules, dividend payouts),
written as plain state values with verified operations.

- `src/` — the library, verified with Verus. Each contract's storage is a
  struct whose fields are its storage keys; each entry point is a method
  that either refuses (an error naming why, storage unchanged) or returns
  the new state together with the token transfers to carry out. Standing
  invariants (`*_wf`) are preserved by every operation; the laws that
  relate several operations are public proof functions.
- `app/` — the Soroban contracts: they read storage into the library's
  structs, call the library, perform the transfers, write storage back,
  and publish events.
- `tests/` — tests of the library on concrete values.
