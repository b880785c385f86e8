# drc20

A minimal ERC20-like fungible token for the Dusk network, with its ledger
logic verified in Verus.

- `src/` — the verified library:
  - `account.rs`: accounts (raw BLS public key bytes or 32-byte contract ids),
    their canonical bytes and their order;
  - `ledger.rs`: a finite map keyed by accounts;
  - `state.rs`: the mathematical model of the token and what each call does;
  - `token.rs`: the token itself (`init`, `transfer`, `approve`,
    `transfer_from`, views) and the resolution of the call's sender;
  - `laws.rs`: what holds across calls (supply is the sum of balances,
    transfers conserve it, approvals read back, ...);
  - `calls.rs`, `events.rs`, `error.rs`: arguments, events, refusals;
  - `permit.rs`: permit digest layouts; `hex.rs`, `decimal.rs`: text helpers;
  - `driver.rs`: which layout belongs to each function name and event topic.
- `tests/` — scenarios and unit tests.
- `app/` — the `init-args` tool, the data-driver, the wire types with their
  `rkyv`/`serde` derives, and the contract's entry points around the
  verified state.
