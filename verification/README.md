# privacy_providers

The verified core of two privacy providers for EVM chains, Tornado Cash and
Railgun: what they compute and decide, stated in `requires`/`ensures`
contracts and proved with Verus.

## Layout

- `src/` — the library, verified by Verus.
  - `decimal`, `amount`, `primitives`, `abi`, `groth16`: numbers and bytes —
    decimal and hex text, token amounts, ABI words, 256-bit integers and the
    Groth16 proof encoding.
  - `pool_registry`, `pool`, `pools`: the pools, their names and their lookup
    by denomination.
  - `events`, `cache_syncer`, `sync_plan`, `subsquid`: syncing pool events —
    decoding logs, the event caches, the batches of an RPC sync, the hand-over
    between chained syncers, paging and retrying GraphQL queries — with the
    laws that an RPC sync in batches and a chained sync lose no event and
    repeat none, and that each page of a GraphQL query starts after the last
    id of the page before.
  - `provider`, `tx_data`: the Tornado Cash provider's state and the
    calldata of its deposits, withdrawals and root checks.
  - `railgun`, `bindings`, `broadcast`, `circuit`, `client`: the Railgun
    provider, the objects handed to JavaScript, broadcasting, circuit names
    and artifact paths with the cache of witness programs, RPC client errors.
  - `sync_tool`: the decisions of the tool that refreshes the event caches.
- `tests/` — tests of the library on concrete values.
- `app/` — the I/O around the library: files, RPC nodes and GraphQL
  endpoints behind small traits, and the JSON forms of records and states.
