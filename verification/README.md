# parachain_service

The Parachain Service for JAM, with its logic verified by Verus: a JAM
service that validates parachain candidates in `refine` and applies their
effects in `accumulate`, together with parasim (a service that tracks para
heads through a reorder buffer without running the PVF) and a mock transfer
destination.

## Layout

- `src/` — the verified library. Every decision the services make is a
  function here with a contract:
  - `pov`, `parasim`, `buffer` — PoV decoding, the stored-head record and the
    reorder buffer that places arriving heads in a para's lineage;
  - `refine`, `pvf`, `executor` — the para and candidate a work item is
    refined as, the PVF's parsed layout and entry point, and the rules on
    every child host call of the PVF's inner PVM;
  - `package`, `management`, `transfers`, `assigns`, `validator_keys`,
    `foreign_services` — what accumulate does with a work digest and each
    upward message it carries;
  - `state_balance`, `para_info`, `state` — the state-balance accounting and
    the storage layout;
  - `log` — the per-parachain log, its byte cap and its eviction order;
  - `head_commitment` — the Merkle commitment to the heads an accumulation
    changed;
  - `scale`, `hashing`, `bounded` (and the wrappers in `pvf`) — the calls
    into `parity-scale-codec`, `blake2b_simd`, `tiny-keccak`,
    `bounded-collections` and `polkavm`, each with the contract the library
    relies on.
- `tests/` — tests of the library on concrete values.
- `app/` — the services' entry points: host calls, storage, the inner-PVM
  loop and the anchor-proof check (which rests on a crate not built here),
  handing plain values to the library and carrying out what it returns.
