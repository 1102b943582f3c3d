# near_dns

A DNS resolver for names under NEAR top-level domains (`.near`, `.testnet`, ...),
whose records are stored in NEAR smart contracts deployed as `dns.<account>`, and
the DNS contract that stores them. The library is written in Verus: its functions
carry contracts that Verus proves.

## Layout

- `src/` — the verified library
  - `contract.rs` — the DNS contract: record lists under `name:TYPE` keys, owner-only
    changes, and the laws that relate its operations
  - `store.rs` — the contract's storage (a `near_sdk` `IterableMap`) behind trusted wrappers
  - `account.rs` — NEAR account ids and the contract's environment
  - `record.rs` — records, their conversion into DNS resource data (A, AAAA,
    CNAME, MX, NS, TXT, SRV, SOA, PTR, CAA), record types
  - `query.rs` — the steps of asking one contract: caches, account view, call
  - `resolver.rs` — which contracts are asked for a name, in what order, and how
    their answers combine
  - `authority.rs` — where a lookup goes and what it answers
  - `upstream.rs` — the forwarding resolver: the checked name of a lookup and the
    records that its answer gives
  - `cache.rs` — cache settings
  - `text.rs` — string helpers with specifications
- `tests/` — tests of the library
- `app/` — the DNS server program: command line, sockets, RPC calls, caches and
  the `hickory_server` authority, around the library's decisions
