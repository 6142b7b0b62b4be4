# staking_rewards

The rules of a staking program on Solana, verified with Verus.

Users stake tokens into a pool. The pool keeps a running reward index; a user's reward is the
balance times the way that the index went since the user was last settled. A stake is locked for
`LOCK_PERIOD` seconds. What is unstaked after that becomes an unbonding request, which can be
withdrawn once `UNBONDING_PERIOD` seconds have passed.

- `src/` holds the rules with their contracts, and the proofs of what holds across instructions
  (`src/laws/`). An instruction works on plain values and lists the transfers and log entries that
  the chain is to carry out.
- `app/` is the Anchor program: it loads the accounts, calls the library, carries out the listed
  steps in order and writes the accounts back.
- `tests/` runs the library on concrete values.

Arithmetic that exceeds its type aborts the program. Which requests that concerns is stated by the
`*_fits` conditions and decided by the `check_*_fits` functions.
