# tycoon

Verified state machines for the Tycoon game contracts on Stellar Soroban,
written in Verus.

- `src/` — the verified library:
  - `assoc` — finite maps kept as association lists with unique keys;
  - `ledger` — semi-fungible balances and the per-owner count of token ids;
  - `token` — the TYC fungible token: admin, mint, burn, transfers,
    allowances, and a supply that always equals the sum of the balances;
  - `collectibles` — collectibles with perks, the shop and its fee split,
    minting roles and the pause switch;
  - `reward` — reward vouchers and their stable refusal messages;
  - `boost` — boosts with inclusive ledger expiry and the boost total.
  Every operation takes the authenticated caller and the ledger sequence as
  plain arguments, states in its contract what it returns and changes, and
  leaves the state untouched when it refuses.
- `tests/` — scenario tests for each contract and for the library's laws.
- `app/` — the Soroban contracts: they keep each library state in instance
  storage, check signatures, call the library, move tokens and emit events.
