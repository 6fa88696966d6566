# bicycle_shop

A lending shop for NFTs (bicycles, in the example), paid in a fungible token.
An owner approves the shop for a token with terms (rent per second,
guarantee, longest loan); a borrower sends the guarantee, in the shop's own
token, to borrow it; the
borrower returns it before the loan ends and pays the rent owed out of the
guarantee (never more than the guarantee), or the owner keeps the whole guarantee once the loan has ended.
Owners pay a storage deposit per offer.

- `src/` is the verified core (Verus): `contract.rs` holds the state and every
  entry point, each stated against a spec function on `ContractView`;
  `invariants.rs` proves the invariant that every call keeps in every
  reachable state (offers under their own keys, waiting or fully lent; the
  owner index exact; storage covered) and what keeps an NFT contract's index
  clean; `history.rs` proves laws over whole histories of calls; `laws.rs`
  proves what every call keeps (index consistency, offer life cycle,
  storage coverage) and what pairs of calls undo. Removing an offer keeps the
  indexes consistent provided the offer held under the key belongs to the NFT
  contract named: a key is `contract + "." + token`, and two pairs such as
  ("a.b", "c") and ("a", "b.c") share one; `str_map.rs` and
  `str_set.rs` are the string-keyed map and the ordered set (swap-remove
  order) behind the indexes; `offer.rs` and `storage.rs` hold the data types,
  the storage constants and the account hash (SHA-256 through `near_sdk`).
- `app/` is the NEAR contract around it: it reads the caller, deposit and
  block time, parses the JSON messages, stores the state between calls and
  turns the transfers that the core returns into promises.
- `tests/` run the core on concrete scenarios.
