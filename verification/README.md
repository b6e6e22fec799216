# flowfi

The decision logic of the FlowFi protocol (a share vault, a time-based
rewards engine and a strategy router for Soroban), written in Verus and
proved against its contracts.

## Layout

- `src/address.rs` — `Address`, the identity of an account or contract.
- `src/address_map.rs` — `AddressMap`, a table keyed by address in arrival
  order, with its spec functions (`find_key`, `lookup`, `put`, `sum_by`) and
  lemmas.
- `src/math.rs` — saturating multiplication, division rounded toward zero or
  down, and the arithmetic lemmas the laws use.
- `src/vault.rs` — `VaultContract`: deposits, withdrawals, share price; the
  model `VaultView` and the vault's laws (accounting invariant, no dilution,
  round trip, full withdrawal).
- `src/rewards.rs` — `RewardsContract`: accrual, checkpoints, claims; the
  model `RewardsView` and its laws (checkpoints keep entitlements, claims pay
  what is owed, rewards follow share ownership).
- `src/strategy_router.rs` — `StrategyRouterContract`: strategy registry,
  weights and allocations; the model `RouterView` and its laws (weights stay
  within 10000 bps, the list only grows, deactivation is permanent).
- `app/` — the Soroban contracts: they keep each contract's state in instance
  storage, map Soroban addresses to identities, check authorization, move
  tokens and publish events, and leave every decision to the library.
- `tests/` — scenarios and edge cases run against the library.

Every refused call returns an error and leaves the state unchanged; the
Soroban layer turns the error into the contract's panic.
