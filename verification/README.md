# lp_staking

A CosmWasm staking contract for LP tokens, written in Verus.

Stakers send LP tokens to the contract through a CW20 `Receive`; the owner
funds rewards the same way with the reward token. Reward accrues per reward
interval: the daily reward amount, shared by stake. Stakers claim reward,
move stake into pending unstakes, and fetch those once their lock has passed.
The owner can withdraw the tokens held, change the constants, hand over or
drop ownership (which freezes the owner-only requests), and write or remove
staker records.

## Layout

- `src/` — the verified library.
  - `order.rs`: the key order of addresses (bytewise on their UTF-8
    encoding), proved to be a strict total order.
  - `addr_map.rs`: a sorted map from addresses to values, viewed as a
    `Map`, with paging after an exclusive start.
  - `state.rs`, `msg.rs`, `error.rs`, `reply.rs`: the contract's types and
    their mathematical views.
  - `model.rs`: what every request does, as functions on the view of the
    state.
  - `contract.rs`: the entry points over the in-memory state, each proved to
    do what `model.rs` states, refusing with the state unchanged.
  - `laws.rs`: properties spanning requests.
- `app/` — the chain around the library: message encoding, storage, the
  address checks and token queries of the chain, and the entry points.
- `tests/` — tests of the library on concrete values.
