//! What holds in every state that calls can reach, collisions of keys
//! included: each offer sits under its own key and is waiting or fully lent,
//! the owner index lists exactly each owner's offers, and every owner's
//! storage deposit covers their offers. The NFT contract index is exact for
//! each contract whose entries no removal through a shared key has spoiled;
//! what keeps a contract's index clean, and what a clean index gives, is
//! stated per contract.

use vstd::prelude::*;
use crate::contract::{
    BorrowArgsView, CallContextView, ContractView, keys_for_tokens, offer_key, put_set, set_at, sets_wf,
};
use crate::laws::{
    lemma_offer_key_injective, lemma_page_in_set, lemma_set_at_put, lifecycle_ok, offer_lifecycle_ok,
    storage_covered, consistent,
};
use crate::offer::{OfferArgs, OfferView};
use crate::storage::STORAGE_PER_OFFER;
use crate::str_set::{lemma_seq_set_insert, lemma_seq_set_remove, seq_page, seq_set_remove};

verus! {

/// Each offer is held under the key made of its NFT contract and token.
pub open spec fn keys_ok(s: ContractView) -> bool {
    forall|k: Seq<char>| #[trigger]
        s.offers.contains_key(k) ==> k == offer_key(s.offers[k].nft_contract_id, s.offers[k].token_id)
}

/// The owner index lists, for each account, exactly the keys of its offers,
/// each once, and keeps no empty set.
pub open spec fn owner_index_exact(s: ContractView) -> bool {
    &&& sets_wf(s.by_owner_id)
    &&& forall|k: Seq<char>| #[trigger]
        s.offers.contains_key(k) ==> set_at(s.by_owner_id, s.offers[k].owner_id).contains(k)
    &&& forall|o: Seq<char>, k: Seq<char>| #[trigger]
        set_at(s.by_owner_id, o).contains(k) ==> s.offers.contains_key(k) && s.offers[k].owner_id == o
    &&& forall|o: Seq<char>| #[trigger] s.by_owner_id.contains_key(o) ==> s.by_owner_id[o].len() > 0
}

/// The NFT contract index lists, for contract `c`, exactly the tokens of the
/// offers held for `c`, each once.
pub open spec fn nft_index_clean(s: ContractView, c: Seq<char>) -> bool {
    &&& set_at(s.by_nft_contract_id, c).no_duplicates()
    &&& forall|t: Seq<char>| #[trigger]
        set_at(s.by_nft_contract_id, c).contains(t) ==> {
            &&& s.offers.contains_key(offer_key(c, t))
            &&& s.offers[offer_key(c, t)].nft_contract_id == c
            &&& s.offers[offer_key(c, t)].token_id == t
        }
    &&& forall|k: Seq<char>| #[trigger]
        s.offers.contains_key(k) && s.offers[k].nft_contract_id == c ==> set_at(
            s.by_nft_contract_id,
            c,
        ).contains(s.offers[k].token_id)
}

/// What every call keeps, in every state that calls can reach.
pub open spec fn core_invariant(s: ContractView) -> bool {
    &&& keys_ok(s)
    &&& owner_index_exact(s)
    &&& lifecycle_ok(s)
    &&& storage_covered(s)
}

/// Every NFT contract whose index is clean before is clean after.
pub open spec fn keeps_nft_indexes_clean(s: ContractView, t: ContractView) -> bool {
    forall|c: Seq<char>| #[trigger] nft_index_clean(s, c) ==> nft_index_clean(t, c)
}

/// A consistent shop meets the core invariant's index parts, and every NFT
/// contract's index in it is clean.
pub proof fn lemma_consistent_parts(s: ContractView, c: Seq<char>)
    requires
        consistent(s),
    ensures
        keys_ok(s),
        owner_index_exact(s),
        nft_index_clean(s, c),
{
    if s.by_nft_contract_id.contains_key(c) {
        assert(set_at(s.by_nft_contract_id, c).no_duplicates());
    }
}

/// A new shop meets the core invariant.
pub proof fn law_empty_shop_core(owner_id: Seq<char>, ft_contract_id: Seq<char>)
    ensures
        core_invariant(ContractView::empty(owner_id, ft_contract_id)),
        forall|c: Seq<char>| nft_index_clean(#[trigger] ContractView::empty(owner_id, ft_contract_id), c),
{
}

/// Putting a token on offer keeps the core invariant: the new offer is
/// listed once under its owner, by its key; and it keeps every clean NFT
/// contract index clean, the new token listed once under its contract.
pub proof fn law_nft_on_approve_keeps_core(
    s: ContractView,
    ctx: CallContextView,
    token_id: Seq<char>,
    owner_id: Seq<char>,
    approval_id: u64,
    args: Option<OfferArgs>,
)
    requires
        core_invariant(s),
    ensures
        match s.nft_on_approve_result(ctx, token_id, owner_id, approval_id, args) {
            Ok(t) => core_invariant(t) && keeps_nft_indexes_clean(s, t),
            Err(_) => true,
        },
{
    if let Ok(t) = s.nft_on_approve_result(ctx, token_id, owner_id, approval_id, args) {
        let nft = ctx.predecessor_id;
        let key = offer_key(nft, token_id);
        let old_owned = set_at(s.by_owner_id, owner_id);
        assert(old_owned.no_duplicates());
        lemma_seq_set_insert(old_owned, key);
        assert(!s.offers.contains_key(key));
        assert forall|k: Seq<char>| #[trigger] t.offers.contains_key(k) implies set_at(
            t.by_owner_id,
            t.offers[k].owner_id,
        ).contains(k) by {
            if k != key {
                assert(set_at(s.by_owner_id, s.offers[k].owner_id).contains(k));
            }
        }
        assert forall|o: Seq<char>, k: Seq<char>| #[trigger]
            set_at(t.by_owner_id, o).contains(k) implies t.offers.contains_key(k) && t.offers[k].owner_id
            == o by {
            if o != owner_id {
                assert(set_at(s.by_owner_id, o).contains(k));
            } else if k != key {
                assert(old_owned.contains(k));
            }
        }
        assert(sets_wf(t.by_owner_id));
        assert forall|a: Seq<char>| #[trigger] t.supply_by_owner(a) * STORAGE_PER_OFFER <= t.balance_of(a) by {
            assert(s.supply_by_owner(a) * STORAGE_PER_OFFER <= s.balance_of(a));
        }
        assert forall|k: Seq<char>| #[trigger] t.offers.contains_key(k) implies offer_lifecycle_ok(
            t.offers[k],
        ) by {
            if k != key {
                assert(s.offers.contains_key(k));
            }
        }
        assert forall|k: Seq<char>| #[trigger] t.offers.contains_key(k) implies k == offer_key(
            t.offers[k].nft_contract_id,
            t.offers[k].token_id,
        ) by {
            if k != key {
                assert(s.offers.contains_key(k));
            }
        }
        assert forall|c: Seq<char>| #[trigger] nft_index_clean(s, c) implies nft_index_clean(t, c) by {
            let old_tokens = set_at(s.by_nft_contract_id, c);
            if c == nft {
                if old_tokens.contains(token_id) {
                    assert(s.offers.contains_key(offer_key(c, token_id)));
                }
                lemma_seq_set_insert(old_tokens, token_id);
                assert forall|tk: Seq<char>| #[trigger] set_at(t.by_nft_contract_id, c).contains(tk) implies {
                    &&& t.offers.contains_key(offer_key(c, tk))
                    &&& t.offers[offer_key(c, tk)].nft_contract_id == c
                    &&& t.offers[offer_key(c, tk)].token_id == tk
                } by {
                    if tk != token_id {
                        assert(old_tokens.contains(tk));
                        assert(s.offers.contains_key(offer_key(c, tk)));
                    }
                }
                assert forall|k: Seq<char>| #[trigger]
                    t.offers.contains_key(k) && t.offers[k].nft_contract_id == c implies set_at(
                    t.by_nft_contract_id,
                    c,
                ).contains(t.offers[k].token_id) by {
                    if k != key {
                        assert(s.offers.contains_key(k) && s.offers[k].nft_contract_id == c);
                        assert(old_tokens.contains(s.offers[k].token_id));
                    }
                }
            } else {
                assert(set_at(t.by_nft_contract_id, c) == old_tokens);
                assert forall|tk: Seq<char>| #[trigger] set_at(t.by_nft_contract_id, c).contains(tk) implies {
                    &&& t.offers.contains_key(offer_key(c, tk))
                    &&& t.offers[offer_key(c, tk)].nft_contract_id == c
                    &&& t.offers[offer_key(c, tk)].token_id == tk
                } by {
                    assert(old_tokens.contains(tk));
                    assert(s.offers.contains_key(offer_key(c, tk)));
                }
                assert forall|k: Seq<char>| #[trigger]
                    t.offers.contains_key(k) && t.offers[k].nft_contract_id == c implies set_at(
                    t.by_nft_contract_id,
                    c,
                ).contains(t.offers[k].token_id) by {
                    if k != key {
                        assert(s.offers.contains_key(k) && s.offers[k].nft_contract_id == c);
                    }
                }
            }
        }
    }
}


/// Taking an offer out of the shop keeps the core invariant, whichever pair
/// names its key; and it keeps every clean NFT contract index clean, except
/// the index of the removed offer's own contract when the offer was reached
/// through a pair naming another contract (`"a.b" + "." + "c"` is also
/// `"a" + "." + "b.c"`): that index keeps listing the removed token.
pub proof fn law_remove_offer_internal_keeps_core(s: ContractView, nft_contract_id: Seq<char>, token_id: Seq<char>)
    requires
        core_invariant(s),
    ensures
        match s.remove_offer_internal(nft_contract_id, token_id) {
            Ok((t, o)) => {
                &&& core_invariant(t)
                &&& forall|c: Seq<char>|
                    #![trigger nft_index_clean(t, c)]
                    nft_index_clean(s, c) && (c != o.nft_contract_id || o.nft_contract_id == nft_contract_id)
                        ==> nft_index_clean(t, c)
            },
            Err(_) => true,
        },
{
    if let Ok((t, o)) = s.remove_offer_internal(nft_contract_id, token_id) {
        let key = offer_key(nft_contract_id, token_id);
        let c0 = nft_contract_id;
        let owner = o.owner_id;
        let owned = s.by_owner_id[owner];
        lemma_seq_set_remove(owned, key);
        let new_owned = seq_set_remove(owned, key);
        assert forall|j: Seq<char>| set_at(t.by_owner_id, j) == if j == owner {
            new_owned
        } else {
            set_at(s.by_owner_id, j)
        } by {
            lemma_set_at_put(s.by_owner_id, owner, new_owned, j);
        }
        let new_tokens = seq_set_remove(s.by_nft_contract_id[c0], token_id);
        assert forall|j: Seq<char>| set_at(t.by_nft_contract_id, j) == if j == c0 {
            new_tokens
        } else {
            set_at(s.by_nft_contract_id, j)
        } by {
            lemma_set_at_put(s.by_nft_contract_id, c0, new_tokens, j);
        }
        // the owner index
        assert(sets_wf(t.by_owner_id)) by {
            assert forall|j: Seq<char>| #[trigger] t.by_owner_id.contains_key(j) implies t.by_owner_id[j].no_duplicates() by {
                assert(set_at(t.by_owner_id, j) == t.by_owner_id[j]);
                if j != owner {
                    assert(s.by_owner_id.contains_key(j));
                }
            }
        }
        assert forall|k: Seq<char>| #[trigger] t.offers.contains_key(k) implies set_at(
            t.by_owner_id,
            t.offers[k].owner_id,
        ).contains(k) by {
            assert(set_at(s.by_owner_id, s.offers[k].owner_id).contains(k));
        }
        assert forall|ow: Seq<char>, k: Seq<char>| #[trigger]
            set_at(t.by_owner_id, ow).contains(k) implies t.offers.contains_key(k) && t.offers[k].owner_id
            == ow by {
            assert(set_at(s.by_owner_id, ow).contains(k));
        }
        assert forall|ow: Seq<char>| #[trigger] t.by_owner_id.contains_key(ow) implies t.by_owner_id[ow].len() > 0 by {
            if ow != owner {
                assert(s.by_owner_id.contains_key(ow));
            }
        }
        assert forall|k: Seq<char>| #[trigger] t.offers.contains_key(k) implies k == offer_key(
            t.offers[k].nft_contract_id,
            t.offers[k].token_id,
        ) by {
            assert(s.offers.contains_key(k));
        }
        assert forall|k: Seq<char>| #[trigger] t.offers.contains_key(k) implies offer_lifecycle_ok(
            t.offers[k],
        ) by {
            assert(s.offers.contains_key(k));
        }
        assert forall|a: Seq<char>| #[trigger] t.supply_by_owner(a) * STORAGE_PER_OFFER <= t.balance_of(a) by {
            assert(s.supply_by_owner(a) * STORAGE_PER_OFFER <= s.balance_of(a));
            assert(t.supply_by_owner(a) <= s.supply_by_owner(a));
        }
        // the NFT contract indexes
        assert forall|c: Seq<char>|
            nft_index_clean(s, c) && (c != o.nft_contract_id || o.nft_contract_id == nft_contract_id)
            implies #[trigger] nft_index_clean(t, c) by {
            let old_tokens = set_at(s.by_nft_contract_id, c);
            if c == c0 {
                lemma_seq_set_remove(old_tokens, token_id);
                assert forall|tk: Seq<char>| #[trigger] set_at(t.by_nft_contract_id, c).contains(tk) implies {
                    &&& t.offers.contains_key(offer_key(c, tk))
                    &&& t.offers[offer_key(c, tk)].nft_contract_id == c
                    &&& t.offers[offer_key(c, tk)].token_id == tk
                } by {
                    assert(old_tokens.contains(tk));
                    if offer_key(c, tk) == key {
                        lemma_offer_key_injective(c, tk, token_id);
                    }
                }
                assert forall|k: Seq<char>| #[trigger]
                    t.offers.contains_key(k) && t.offers[k].nft_contract_id == c implies set_at(
                    t.by_nft_contract_id,
                    c,
                ).contains(t.offers[k].token_id) by {
                    assert(s.offers.contains_key(k) && s.offers[k].nft_contract_id == c);
                    assert(old_tokens.contains(s.offers[k].token_id));
                    assert(k == offer_key(c, s.offers[k].token_id));
                }
            } else {
                assert forall|tk: Seq<char>| #[trigger] set_at(t.by_nft_contract_id, c).contains(tk) implies {
                    &&& t.offers.contains_key(offer_key(c, tk))
                    &&& t.offers[offer_key(c, tk)].nft_contract_id == c
                    &&& t.offers[offer_key(c, tk)].token_id == tk
                } by {
                    assert(old_tokens.contains(tk));
                    assert(s.offers.contains_key(offer_key(c, tk)));
                }
                assert forall|k: Seq<char>| #[trigger]
                    t.offers.contains_key(k) && t.offers[k].nft_contract_id == c implies set_at(
                    t.by_nft_contract_id,
                    c,
                ).contains(t.offers[k].token_id) by {
                    assert(s.offers.contains_key(k) && s.offers[k].nft_contract_id == c);
                }
            }
        }
    }
}

/// Withdrawing an offer keeps the core invariant, whichever pair names its
/// key, and every clean NFT contract index clean, with the exception stated
/// in `law_remove_offer_internal_keeps_core`.
pub proof fn law_remove_offer_keeps_core(
    s: ContractView,
    ctx: CallContextView,
    nft_contract_id: Seq<char>,
    token_id: Seq<char>,
)
    requires
        core_invariant(s),
    ensures
        match s.remove_offer_result(ctx, nft_contract_id, token_id) {
            Ok(t) => {
                let o = s.offers[offer_key(nft_contract_id, token_id)];
                &&& core_invariant(t)
                &&& forall|c: Seq<char>|
                    #![trigger nft_index_clean(t, c)]
                    nft_index_clean(s, c) && (c != o.nft_contract_id || o.nft_contract_id == nft_contract_id)
                        ==> nft_index_clean(t, c)
            },
            Err(_) => true,
        },
{
    law_remove_offer_internal_keeps_core(s, nft_contract_id, token_id);
}

/// Replacing an offer by one with the same owner, NFT contract and token,
/// whose loan is recorded coherently, keeps the core invariant and every
/// clean NFT contract index clean.
proof fn lemma_replace_offer_core(s: ContractView, key: Seq<char>, o: OfferView)
    requires
        core_invariant(s),
        s.offers.contains_key(key),
        o.owner_id == s.offers[key].owner_id,
        o.nft_contract_id == s.offers[key].nft_contract_id,
        o.token_id == s.offers[key].token_id,
        offer_lifecycle_ok(o),
    ensures
        core_invariant(ContractView { offers: s.offers.insert(key, o), ..s }),
        keeps_nft_indexes_clean(s, ContractView { offers: s.offers.insert(key, o), ..s }),
{
    let t = ContractView { offers: s.offers.insert(key, o), ..s };
    assert forall|k: Seq<char>| #[trigger] t.offers.contains_key(k) implies set_at(
        t.by_owner_id,
        t.offers[k].owner_id,
    ).contains(k) by {
        assert(s.offers.contains_key(k));
    }
    assert forall|o2: Seq<char>, k: Seq<char>| #[trigger]
        set_at(t.by_owner_id, o2).contains(k) implies t.offers.contains_key(k) && t.offers[k].owner_id
        == o2 by {
        assert(set_at(s.by_owner_id, o2).contains(k));
    }
    assert forall|k: Seq<char>| #[trigger] t.offers.contains_key(k) implies k == offer_key(
        t.offers[k].nft_contract_id,
        t.offers[k].token_id,
    ) by {
        assert(s.offers.contains_key(k));
    }
    assert forall|k: Seq<char>| #[trigger] t.offers.contains_key(k) implies offer_lifecycle_ok(
        t.offers[k],
    ) by {
        assert(s.offers.contains_key(k));
    }
    assert forall|a: Seq<char>| #[trigger] t.supply_by_owner(a) * STORAGE_PER_OFFER <= t.balance_of(a) by {
        assert(s.supply_by_owner(a) * STORAGE_PER_OFFER <= s.balance_of(a));
    }
    assert forall|c: Seq<char>| #[trigger] nft_index_clean(s, c) implies nft_index_clean(t, c) by {
        assert forall|tk: Seq<char>| #[trigger] set_at(t.by_nft_contract_id, c).contains(tk) implies {
            &&& t.offers.contains_key(offer_key(c, tk))
            &&& t.offers[offer_key(c, tk)].nft_contract_id == c
            &&& t.offers[offer_key(c, tk)].token_id == tk
        } by {
            assert(set_at(s.by_nft_contract_id, c).contains(tk));
        }
        assert forall|k: Seq<char>| #[trigger]
            t.offers.contains_key(k) && t.offers[k].nft_contract_id == c implies set_at(
            t.by_nft_contract_id,
            c,
        ).contains(t.offers[k].token_id) by {
            assert(s.offers.contains_key(k) && s.offers[k].nft_contract_id == c);
        }
    }
}

/// Lending, returning, liquidating and changing terms keep the core
/// invariant and every clean NFT contract index clean.
pub proof fn law_offer_updates_keep_core(
    s: ContractView,
    ctx: CallContextView,
    nft_contract_id: Seq<char>,
    token_id: Seq<char>,
    rent: u64,
    guarantee: u64,
    max_duration: u64,
    sender_id: Seq<char>,
    amount: u128,
    borrow: Option<BorrowArgsView>,
)
    requires
        core_invariant(s),
    ensures
        s.ft_on_transfer_result(ctx, sender_id, amount, borrow) matches Ok(t) ==> core_invariant(t)
            && keeps_nft_indexes_clean(s, t),
        s.update_offer_result(ctx, nft_contract_id, token_id, rent, guarantee, max_duration) matches Ok(t)
            ==> core_invariant(t) && keeps_nft_indexes_clean(s, t),
        s.withdraw_guarantee_result(ctx, nft_contract_id, token_id) matches Ok((t, _)) ==> core_invariant(t)
            && keeps_nft_indexes_clean(s, t),
        s.liquidate_result(ctx, nft_contract_id, token_id) matches Ok((t, _)) ==> core_invariant(t)
            && keeps_nft_indexes_clean(s, t),
{
    let key = offer_key(nft_contract_id, token_id);
    if let Ok(t) = s.ft_on_transfer_result(ctx, sender_id, amount, borrow) {
        let a = borrow->Some_0;
        let k = offer_key(a.nft_contract, a.token_id);
        lemma_replace_offer_core(s, k, t.offers[k]);
        assert(t == ContractView { offers: s.offers.insert(k, t.offers[k]), ..s });
    }
    if let Ok(t) = s.update_offer_result(ctx, nft_contract_id, token_id, rent, guarantee, max_duration) {
        lemma_replace_offer_core(s, key, t.offers[key]);
        assert(t == ContractView { offers: s.offers.insert(key, t.offers[key]), ..s });
    }
    if let Ok((t, _)) = s.withdraw_guarantee_result(ctx, nft_contract_id, token_id) {
        lemma_replace_offer_core(s, key, t.offers[key]);
        assert(t == ContractView { offers: s.offers.insert(key, t.offers[key]), ..s });
    }
    if let Ok((t, _)) = s.liquidate_result(ctx, nft_contract_id, token_id) {
        lemma_replace_offer_core(s, key, t.offers[key]);
        assert(t == ContractView { offers: s.offers.insert(key, t.offers[key]), ..s });
    }
}

/// Storage payments and withdrawals keep the core invariant, and change
/// neither the offers nor the indexes.
pub proof fn law_storage_calls_keep_core(s: ContractView, ctx: CallContextView, account_id: Option<Seq<char>>)
    requires
        core_invariant(s),
    ensures
        s.storage_deposit_result(ctx, account_id) matches Ok(t) ==> core_invariant(t) && t.offers == s.offers
            && t.by_owner_id == s.by_owner_id && t.by_nft_contract_id == s.by_nft_contract_id,
        s.storage_withdraw_result(ctx) matches Ok((t, _)) ==> core_invariant(t) && t.offers == s.offers
            && t.by_owner_id == s.by_owner_id && t.by_nft_contract_id == s.by_nft_contract_id,
{
    if let Ok(t) = s.storage_deposit_result(ctx, account_id) {
        assert forall|a: Seq<char>| #[trigger] t.supply_by_owner(a) * STORAGE_PER_OFFER <= t.balance_of(a) by {
            assert(s.supply_by_owner(a) * STORAGE_PER_OFFER <= s.balance_of(a));
        }
    }
    if let Ok((t, _)) = s.storage_withdraw_result(ctx) {
        assert forall|a: Seq<char>| #[trigger] t.supply_by_owner(a) * STORAGE_PER_OFFER <= t.balance_of(a) by {
            assert(s.supply_by_owner(a) * STORAGE_PER_OFFER <= s.balance_of(a));
        }
    }
}


/// Every call keeps each account's storage covered, whatever state the
/// indexes are in: a new offer needs storage for one more offer, removals
/// only shorten the owner index, payments only add, and a withdrawal leaves
/// exactly what the caller's offers use.
pub proof fn law_every_call_keeps_storage_covered(
    s: ContractView,
    ctx: CallContextView,
    nft_contract_id: Seq<char>,
    token_id: Seq<char>,
    owner_id: Seq<char>,
    approval_id: u64,
    args: Option<OfferArgs>,
    rent: u64,
    guarantee: u64,
    max_duration: u64,
    sender_id: Seq<char>,
    amount: u128,
    borrow: Option<BorrowArgsView>,
    account_id: Option<Seq<char>>,
)
    requires
        storage_covered(s),
    ensures
        s.nft_on_approve_result(ctx, token_id, owner_id, approval_id, args) matches Ok(t) ==> storage_covered(t),
        s.remove_offer_result(ctx, nft_contract_id, token_id) matches Ok(t) ==> storage_covered(t),
        s.ft_on_transfer_result(ctx, sender_id, amount, borrow) matches Ok(t) ==> storage_covered(t),
        s.update_offer_result(ctx, nft_contract_id, token_id, rent, guarantee, max_duration) matches Ok(t)
            ==> storage_covered(t),
        s.withdraw_guarantee_result(ctx, nft_contract_id, token_id) matches Ok((t, _)) ==> storage_covered(t),
        s.liquidate_result(ctx, nft_contract_id, token_id) matches Ok((t, _)) ==> storage_covered(t),
        s.storage_deposit_result(ctx, account_id) matches Ok(t) ==> storage_covered(t),
        s.storage_withdraw_result(ctx) matches Ok((t, _)) ==> storage_covered(t),
{
    if let Ok(t) = s.nft_on_approve_result(ctx, token_id, owner_id, approval_id, args) {
        assert forall|a: Seq<char>| #[trigger] t.supply_by_owner(a) * STORAGE_PER_OFFER <= t.balance_of(a) by {
            assert(s.supply_by_owner(a) * STORAGE_PER_OFFER <= s.balance_of(a));
        }
    }
    if let Ok(t) = s.remove_offer_result(ctx, nft_contract_id, token_id) {
        let o = s.offers[offer_key(nft_contract_id, token_id)];
        let new_owned = seq_set_remove(s.by_owner_id[o.owner_id], offer_key(nft_contract_id, token_id));
        assert forall|a: Seq<char>| #[trigger] t.supply_by_owner(a) * STORAGE_PER_OFFER <= t.balance_of(a) by {
            assert(s.supply_by_owner(a) * STORAGE_PER_OFFER <= s.balance_of(a));
            lemma_set_at_put(s.by_owner_id, o.owner_id, new_owned, a);
        }
    }
    if let Ok(t) = s.ft_on_transfer_result(ctx, sender_id, amount, borrow) {
        assert forall|a: Seq<char>| #[trigger] t.supply_by_owner(a) * STORAGE_PER_OFFER <= t.balance_of(a) by {
            assert(s.supply_by_owner(a) * STORAGE_PER_OFFER <= s.balance_of(a));
        }
    }
    if let Ok(t) = s.update_offer_result(ctx, nft_contract_id, token_id, rent, guarantee, max_duration) {
        assert forall|a: Seq<char>| #[trigger] t.supply_by_owner(a) * STORAGE_PER_OFFER <= t.balance_of(a) by {
            assert(s.supply_by_owner(a) * STORAGE_PER_OFFER <= s.balance_of(a));
        }
    }
    if let Ok((t, _)) = s.withdraw_guarantee_result(ctx, nft_contract_id, token_id) {
        assert forall|a: Seq<char>| #[trigger] t.supply_by_owner(a) * STORAGE_PER_OFFER <= t.balance_of(a) by {
            assert(s.supply_by_owner(a) * STORAGE_PER_OFFER <= s.balance_of(a));
        }
    }
    if let Ok((t, _)) = s.liquidate_result(ctx, nft_contract_id, token_id) {
        assert forall|a: Seq<char>| #[trigger] t.supply_by_owner(a) * STORAGE_PER_OFFER <= t.balance_of(a) by {
            assert(s.supply_by_owner(a) * STORAGE_PER_OFFER <= s.balance_of(a));
        }
    }
    if let Ok(t) = s.storage_deposit_result(ctx, account_id) {
        assert forall|a: Seq<char>| #[trigger] t.supply_by_owner(a) * STORAGE_PER_OFFER <= t.balance_of(a) by {
            assert(s.supply_by_owner(a) * STORAGE_PER_OFFER <= s.balance_of(a));
        }
    }
    if let Ok((t, _)) = s.storage_withdraw_result(ctx) {
        assert forall|a: Seq<char>| #[trigger] t.supply_by_owner(a) * STORAGE_PER_OFFER <= t.balance_of(a) by {
            assert(s.supply_by_owner(a) * STORAGE_PER_OFFER <= s.balance_of(a));
        }
    }
}



/// When the owner index is exact (in every state that calls reach), listing
/// an owner's offers never meets a stale entry, and lists only offers of
/// that owner.
pub proof fn law_owner_listing_is_exact(s: ContractView, account_id: Seq<char>, from: nat, limit: nat)
    requires
        owner_index_exact(s),
    ensures
        s.offers_at(seq_page(set_at(s.by_owner_id, account_id), from as int, limit as int)) matches Some(v)
            && forall|i: int| 0 <= i < v.len() ==> (#[trigger] v[i]).owner_id == account_id,
{
    let set = set_at(s.by_owner_id, account_id);
    let keys = seq_page(set, from as int, limit as int);
    assert forall|i: int| 0 <= i < keys.len() implies s.offers.contains_key(#[trigger] keys[i]) && s.offers[keys[i]].owner_id == account_id by {
        lemma_page_in_set(set, from as int, limit as int, i);
    }
}


/// When the index of an NFT contract is clean, listing that contract's
/// offers never meets a stale entry, and lists only offers for tokens of
/// that contract, whatever the state of other contracts' indexes.
pub proof fn law_nft_listing_is_exact(s: ContractView, nft_contract_id: Seq<char>, from: nat, limit: nat)
    requires
        nft_index_clean(s, nft_contract_id),
    ensures
        s.offers_at(
            keys_for_tokens(
                nft_contract_id,
                seq_page(set_at(s.by_nft_contract_id, nft_contract_id), from as int, limit as int),
            ),
        ) matches Some(v) && forall|i: int| 0 <= i < v.len() ==> (#[trigger] v[i]).nft_contract_id == nft_contract_id,
{
    let set = set_at(s.by_nft_contract_id, nft_contract_id);
    let tokens = seq_page(set, from as int, limit as int);
    let keys = keys_for_tokens(nft_contract_id, tokens);
    assert forall|i: int| 0 <= i < keys.len() implies s.offers.contains_key(#[trigger] keys[i]) && s.offers[keys[i]].nft_contract_id == nft_contract_id by {
        lemma_page_in_set(set, from as int, limit as int, i);
        assert(set.contains(tokens[i]));
    }
}


/// When the owner index is exact (in every state that calls reach), the
/// supply listed for an owner is the number of offers that the owner has in
/// the shop, and a listing from the start with no smaller limit lists them
/// all.
pub proof fn law_owner_supply_counts_offers(s: ContractView, account_id: Seq<char>)
    requires
        owner_index_exact(s),
    ensures
        s.supply_by_owner(account_id) == s.offers.dom().filter(
            |k: Seq<char>| s.offers[k].owner_id == account_id,
        ).len(),
        s.supply_by_owner(account_id) <= u64::MAX ==> (s.offers_at(
            seq_page(set_at(s.by_owner_id, account_id), 0, u64::MAX as int),
        ) matches Some(v) && v.len() == s.supply_by_owner(account_id)),
{
    let set = set_at(s.by_owner_id, account_id);
    law_owner_listing_is_exact(s, account_id, 0, u64::MAX as nat);
    if set.len() > 0 && set.len() <= u64::MAX {
        assert(seq_page(set, 0, u64::MAX as int) =~= set.subrange(0, set.len() as int));
    }
    let owned = s.offers.dom().filter(|k: Seq<char>| s.offers[k].owner_id == account_id);
    assert(set.no_duplicates());
    assert(set.to_set() =~= owned) by {
        assert forall|k: Seq<char>| set.to_set().contains(k) <==> owned.contains(k) by {
            if owned.contains(k) {
                assert(s.offers.contains_key(k));
                assert(set_at(s.by_owner_id, s.offers[k].owner_id).contains(k));
            }
            if set.contains(k) {
                assert(set_at(s.by_owner_id, account_id).contains(k));
            }
        }
    }
    set.unique_seq_to_set();
}


/// When the index of an NFT contract is clean, the supply listed for it is
/// the number of offers that the shop holds for tokens of that contract, and
/// a listing from the start with no smaller limit lists them all.
pub proof fn law_nft_supply_counts_offers(s: ContractView, nft_contract_id: Seq<char>)
    requires
        nft_index_clean(s, nft_contract_id),
        keys_ok(s),
    ensures
        s.supply_by_nft_contract(nft_contract_id) == s.offers.dom().filter(
            |k: Seq<char>| s.offers[k].nft_contract_id == nft_contract_id,
        ).len(),
        s.supply_by_nft_contract(nft_contract_id) <= u64::MAX ==> (s.offers_at(
            keys_for_tokens(
                nft_contract_id,
                seq_page(set_at(s.by_nft_contract_id, nft_contract_id), 0, u64::MAX as int),
            ),
        ) matches Some(v) && v.len() == s.supply_by_nft_contract(nft_contract_id)),
{
    let c = nft_contract_id;
    law_nft_listing_is_exact(s, c, 0, u64::MAX as nat);
    if set_at(s.by_nft_contract_id, c).len() > 0 && set_at(s.by_nft_contract_id, c).len() <= u64::MAX {
        assert(seq_page(set_at(s.by_nft_contract_id, c), 0, u64::MAX as int) =~= set_at(s.by_nft_contract_id, c).subrange(0, set_at(s.by_nft_contract_id, c).len() as int));
    }
    let tokens = set_at(s.by_nft_contract_id, c);
    let keys = keys_for_tokens(c, tokens);
    let held = s.offers.dom().filter(|k: Seq<char>| s.offers[k].nft_contract_id == c);
    assert(tokens.no_duplicates());
    assert(keys.no_duplicates()) by {
        assert forall|i: int, j: int| 0 <= i < keys.len() && 0 <= j < keys.len() && i != j implies keys[i]
            != keys[j] by {
            if keys[i] == keys[j] {
                lemma_offer_key_injective(c, tokens[i], tokens[j]);
            }
        }
    }
    assert(keys.to_set() =~= held) by {
        assert forall|k: Seq<char>| keys.to_set().contains(k) <==> held.contains(k) by {
            if keys.contains(k) {
                let i = choose|i: int| 0 <= i < keys.len() && keys[i] == k;
                assert(tokens.contains(tokens[i]));
                assert(set_at(s.by_nft_contract_id, c).contains(tokens[i]));
            }
            if held.contains(k) {
                let o = s.offers[k];
                assert(s.offers.contains_key(k));
                assert(set_at(s.by_nft_contract_id, o.nft_contract_id).contains(o.token_id));
                let i = choose|i: int| 0 <= i < tokens.len() && tokens[i] == o.token_id;
                assert(keys[i] == k);
            }
        }
    }
    keys.unique_seq_to_set();
}


/// Which calls change which offers exist: an approval creates exactly the
/// key of the new offer, which did not exist; a withdrawal removes exactly
/// the key named; every other call keeps the set of keys. (A refused call
/// changes nothing at all, by the contracts of the calls.)
pub proof fn law_offer_keys_trace(
    s: ContractView,
    ctx: CallContextView,
    nft_contract_id: Seq<char>,
    token_id: Seq<char>,
    owner_id: Seq<char>,
    approval_id: u64,
    args: Option<OfferArgs>,
    rent: u64,
    guarantee: u64,
    max_duration: u64,
    sender_id: Seq<char>,
    amount: u128,
    borrow: Option<BorrowArgsView>,
    account_id: Option<Seq<char>>,
)
    ensures
        s.nft_on_approve_result(ctx, token_id, owner_id, approval_id, args) matches Ok(t) ==> {
            let key = offer_key(ctx.predecessor_id, token_id);
            &&& !s.offers.contains_key(key)
            &&& t.offers.dom() == s.offers.dom().insert(key)
        },
        s.remove_offer_result(ctx, nft_contract_id, token_id) matches Ok(t) ==> {
            let key = offer_key(nft_contract_id, token_id);
            &&& s.offers.contains_key(key)
            &&& t.offers.dom() == s.offers.dom().remove(key)
        },
        s.ft_on_transfer_result(ctx, sender_id, amount, borrow) matches Ok(t) ==> t.offers.dom() == s.offers.dom(),
        s.update_offer_result(ctx, nft_contract_id, token_id, rent, guarantee, max_duration) matches Ok(t)
            ==> t.offers.dom() == s.offers.dom(),
        s.withdraw_guarantee_result(ctx, nft_contract_id, token_id) matches Ok((t, _)) ==> t.offers.dom()
            == s.offers.dom(),
        s.liquidate_result(ctx, nft_contract_id, token_id) matches Ok((t, _)) ==> t.offers.dom()
            == s.offers.dom(),
        s.storage_deposit_result(ctx, account_id) matches Ok(t) ==> t.offers == s.offers,
        s.storage_withdraw_result(ctx) matches Ok((t, _)) ==> t.offers == s.offers,
{
    let key = offer_key(nft_contract_id, token_id);
    if s.offers.contains_key(key) {
        assert(s.offers.dom().insert(key) =~= s.offers.dom());
    }
    if let Ok(t) = s.ft_on_transfer_result(ctx, sender_id, amount, borrow) {
        let a = borrow->Some_0;
        assert(t.offers.dom() =~= s.offers.dom().insert(offer_key(a.nft_contract, a.token_id)));
    }
    if let Ok(t) = s.nft_on_approve_result(ctx, token_id, owner_id, approval_id, args) {
        assert(t.offers.dom() =~= s.offers.dom().insert(offer_key(ctx.predecessor_id, token_id)));
    }
    if let Ok(t) = s.remove_offer_result(ctx, nft_contract_id, token_id) {
        assert(t.offers.dom() =~= s.offers.dom().remove(key));
    }
}

/// Two adjacent pages of a set make the longer page.
pub proof fn lemma_pages_concatenate<A>(s: Seq<A>, from: nat, n: nat, m: nat)
    ensures
        seq_page(s, from as int, n as int) + seq_page(s, (from + n) as int, m as int) == seq_page(
            s,
            from as int,
            (n + m) as int,
        ),
{
    assert(seq_page(s, from as int, n as int) + seq_page(s, (from + n) as int, m as int) =~= seq_page(
        s,
        from as int,
        (n + m) as int,
    ));
}

proof fn lemma_offers_at_concat(s: ContractView, k1: Seq<Seq<char>>, k2: Seq<Seq<char>>)
    requires
        s.offers_at(k1) is Some,
        s.offers_at(k2) is Some,
    ensures
        s.offers_at(k1 + k2) == Some(s.offers_at(k1)->Some_0 + s.offers_at(k2)->Some_0),
{
    let k = k1 + k2;
    assert forall|i: int| 0 <= i < k.len() implies s.offers.contains_key(#[trigger] k[i]) by {
        if i < k1.len() {
            assert(k[i] == k1[i]);
        } else {
            assert(k[i] == k2[i - k1.len()]);
        }
    }
    assert(k.map_values(|key: Seq<char>| s.offers[key]) =~= k1.map_values(|key: Seq<char>| s.offers[key])
        + k2.map_values(|key: Seq<char>| s.offers[key]));
}

/// Listing an owner's offers page by page gives the same offers as one
/// longer listing: the page from `from` with limit `n`, then the page from
/// `from + n` with limit `m`, make the page from `from` with limit `n + m`.
pub proof fn law_owner_pages_concatenate(s: ContractView, account_id: Seq<char>, from: nat, n: nat, m: nat)
    requires
        owner_index_exact(s),
    ensures
        ({
            let set = set_at(s.by_owner_id, account_id);
            s.offers_at(seq_page(set, from as int, (n + m) as int)) == Some(
                s.offers_at(seq_page(set, from as int, n as int))->Some_0 + s.offers_at(
                    seq_page(set, (from + n) as int, m as int),
                )->Some_0,
            )
        }),
{
    let set = set_at(s.by_owner_id, account_id);
    law_owner_listing_is_exact(s, account_id, from, n);
    law_owner_listing_is_exact(s, account_id, from + n, m);
    lemma_pages_concatenate(set, from, n, m);
    lemma_offers_at_concat(s, seq_page(set, from as int, n as int), seq_page(set, (from + n) as int, m as int));
}

/// Listing an NFT contract's offers page by page gives the same offers as
/// one longer listing, for a contract whose index is clean.
pub proof fn law_nft_pages_concatenate(s: ContractView, nft_contract_id: Seq<char>, from: nat, n: nat, m: nat)
    requires
        nft_index_clean(s, nft_contract_id),
    ensures
        ({
            let set = set_at(s.by_nft_contract_id, nft_contract_id);
            let c = nft_contract_id;
            s.offers_at(keys_for_tokens(c, seq_page(set, from as int, (n + m) as int))) == Some(
                s.offers_at(keys_for_tokens(c, seq_page(set, from as int, n as int)))->Some_0 + s.offers_at(
                    keys_for_tokens(c, seq_page(set, (from + n) as int, m as int)),
                )->Some_0,
            )
        }),
{
    let c = nft_contract_id;
    let set = set_at(s.by_nft_contract_id, c);
    law_nft_listing_is_exact(s, c, from, n);
    law_nft_listing_is_exact(s, c, from + n, m);
    lemma_pages_concatenate(set, from, n, m);
    let p1 = seq_page(set, from as int, n as int);
    let p2 = seq_page(set, (from + n) as int, m as int);
    assert(keys_for_tokens(c, p1 + p2) =~= keys_for_tokens(c, p1) + keys_for_tokens(c, p2));
    lemma_offers_at_concat(s, keys_for_tokens(c, p1), keys_for_tokens(c, p2));
}

} // verus!
