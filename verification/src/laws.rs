//! What every call keeps: the indexes list exactly the offers held, each
//! offer is either waiting or lent with its loan recorded, and every owner's
//! storage deposit pays for their offers. Also what pairs of calls undo, and
//! how a returned guarantee is split.

use vstd::prelude::*;
use crate::contract::{
    BorrowArgsView, CallContextView, ContractError, ContractView, FtTransferView, keys_for_tokens, offer_key,
    put_set, returned, set_at, sets_wf,
};
use crate::offer::{OfferArgs, OfferView, status_offer, status_on_rent};
use crate::storage::STORAGE_PER_OFFER;
use crate::str_set::{
    lemma_seq_set_insert, lemma_seq_set_insert_remove, lemma_seq_set_remove, seq_page, seq_set_insert,
    seq_set_remove,
};

verus! {

/// The indexes list exactly the offers held, and each offer is held under
/// the key made of its NFT contract and token.
pub open spec fn consistent(s: ContractView) -> bool {
    &&& sets_wf(s.by_owner_id)
    &&& sets_wf(s.by_nft_contract_id)
    &&& forall|k: Seq<char>| #[trigger]
        s.offers.contains_key(k) ==> k == offer_key(s.offers[k].nft_contract_id, s.offers[k].token_id)
    &&& forall|k: Seq<char>| #[trigger]
        s.offers.contains_key(k) ==> set_at(s.by_owner_id, s.offers[k].owner_id).contains(k)
    &&& forall|o: Seq<char>, k: Seq<char>| #[trigger]
        set_at(s.by_owner_id, o).contains(k) ==> s.offers.contains_key(k) && s.offers[k].owner_id == o
    &&& forall|o: Seq<char>| #[trigger] s.by_owner_id.contains_key(o) ==> s.by_owner_id[o].len() > 0
    &&& forall|k: Seq<char>| #[trigger]
        s.offers.contains_key(k) ==> set_at(s.by_nft_contract_id, s.offers[k].nft_contract_id).contains(
            s.offers[k].token_id,
        )
    &&& forall|c: Seq<char>, t: Seq<char>| #[trigger]
        set_at(s.by_nft_contract_id, c).contains(t) ==> {
            &&& s.offers.contains_key(offer_key(c, t))
            &&& s.offers[offer_key(c, t)].nft_contract_id == c
            &&& s.offers[offer_key(c, t)].token_id == t
        }
    &&& forall|c: Seq<char>| #[trigger]
        s.by_nft_contract_id.contains_key(c) ==> s.by_nft_contract_id[c].len() > 0
}

/// An offer either waits for a borrower with no loan recorded, or is lent
/// with its borrower, start and end recorded, the start not after the end.
pub open spec fn offer_lifecycle_ok(o: OfferView) -> bool {
    ||| {
        &&& o.status == status_offer()
        &&& o.lending_start is None
        &&& o.lending_expiry is None
        &&& o.user_rights is None
    }
    ||| {
        &&& o.status == status_on_rent()
        &&& o.lending_start is Some
        &&& o.lending_expiry is Some
        &&& o.user_rights is Some
        &&& o.lending_start->Some_0 <= o.lending_expiry->Some_0
    }
}

pub open spec fn lifecycle_ok(s: ContractView) -> bool {
    forall|k: Seq<char>| #[trigger] s.offers.contains_key(k) ==> offer_lifecycle_ok(s.offers[k])
}

/// Every account has deposited at least the storage cost of the offers
/// listed for it.
pub open spec fn storage_covered(s: ContractView) -> bool {
    forall|a: Seq<char>| #[trigger] s.supply_by_owner(a) * STORAGE_PER_OFFER <= s.balance_of(a)
}

/// All that the shop keeps true between calls.
pub open spec fn shop_invariant(s: ContractView) -> bool {
    &&& consistent(s)
    &&& lifecycle_ok(s)
    &&& storage_covered(s)
}

/// The key of a token names that token alone within one NFT contract.
pub proof fn lemma_offer_key_injective(c: Seq<char>, t1: Seq<char>, t2: Seq<char>)
    requires
        offer_key(c, t1) == offer_key(c, t2),
    ensures
        t1 == t2,
{
    let n: int = c.len() as int + 1;
    assert(offer_key(c, t1).subrange(n, offer_key(c, t1).len() as int) =~= t1);
    assert(offer_key(c, t2).subrange(n, offer_key(c, t2).len() as int) =~= t2);
}

pub proof fn lemma_set_at_put(m: Map<Seq<char>, Seq<Seq<char>>>, k: Seq<char>, s: Seq<Seq<char>>, j: Seq<char>)
    ensures
        set_at(put_set(m, k, s), j) == if j == k { s } else { set_at(m, j) },
{
    if s.len() == 0 && j == k {
        assert(s =~= Seq::<Seq<char>>::empty());
    }
}

/// A new shop holds nothing, and so keeps every invariant.
pub proof fn law_empty_shop_invariant(owner_id: Seq<char>, ft_contract_id: Seq<char>)
    ensures
        shop_invariant(ContractView::empty(owner_id, ft_contract_id)),
{
}


/// Putting a token on offer keeps the indexes consistent: the new offer is
/// listed once under its owner (by its key) and once under its NFT contract
/// (by its token id).
pub proof fn law_nft_on_approve_keeps_consistent(
    s: ContractView,
    ctx: CallContextView,
    token_id: Seq<char>,
    owner_id: Seq<char>,
    approval_id: u64,
    args: Option<OfferArgs>,
)
    requires
        consistent(s),
    ensures
        match s.nft_on_approve_result(ctx, token_id, owner_id, approval_id, args) {
            Ok(t) => consistent(t),
            Err(_) => true,
        },
{
    if let Ok(t) = s.nft_on_approve_result(ctx, token_id, owner_id, approval_id, args) {
        let nft = ctx.predecessor_id;
        let key = offer_key(nft, token_id);
        let old_owned = set_at(s.by_owner_id, owner_id);
        let old_tokens = set_at(s.by_nft_contract_id, nft);
        assert(old_owned.no_duplicates());
        assert(old_tokens.no_duplicates());
        lemma_seq_set_insert(old_owned, key);
        lemma_seq_set_insert(old_tokens, token_id);
        assert(!s.offers.contains_key(key));
        // the owner index
        assert forall|k: Seq<char>| #[trigger] t.offers.contains_key(k) implies set_at(
            t.by_owner_id,
            t.offers[k].owner_id,
        ).contains(k) by {
            if k != key {
                assert(set_at(s.by_owner_id, s.offers[k].owner_id).contains(k));
            }
        }
        assert forall|o: Seq<char>, k: Seq<char>| #[trigger]
            set_at(t.by_owner_id, o).contains(k) implies t.offers.contains_key(k) && t.offers[k].owner_id
            == o by {
            if o != owner_id {
                assert(set_at(s.by_owner_id, o).contains(k));
            } else if k != key {
                assert(old_owned.contains(k));
            }
        }
        // the NFT contract index
        assert forall|k: Seq<char>| #[trigger] t.offers.contains_key(k) implies set_at(
            t.by_nft_contract_id,
            t.offers[k].nft_contract_id,
        ).contains(t.offers[k].token_id) by {
            if k != key {
                assert(set_at(s.by_nft_contract_id, s.offers[k].nft_contract_id).contains(
                    s.offers[k].token_id,
                ));
            }
        }
        assert forall|c: Seq<char>, tk: Seq<char>| #[trigger]
            set_at(t.by_nft_contract_id, c).contains(tk) implies {
            &&& t.offers.contains_key(offer_key(c, tk))
            &&& t.offers[offer_key(c, tk)].nft_contract_id == c
            &&& t.offers[offer_key(c, tk)].token_id == tk
        } by {
            if c != nft || tk != token_id {
                assert(set_at(s.by_nft_contract_id, c).contains(tk));
                assert(s.offers.contains_key(offer_key(c, tk)));
            }
        }
        assert(sets_wf(t.by_owner_id));
        assert(sets_wf(t.by_nft_contract_id));
    }
}

/// Putting a token on offer keeps every invariant of the shop.
pub proof fn law_nft_on_approve_keeps_invariant(
    s: ContractView,
    ctx: CallContextView,
    token_id: Seq<char>,
    owner_id: Seq<char>,
    approval_id: u64,
    args: Option<OfferArgs>,
)
    requires
        shop_invariant(s),
    ensures
        match s.nft_on_approve_result(ctx, token_id, owner_id, approval_id, args) {
            Ok(t) => shop_invariant(t),
            Err(_) => true,
        },
{
    law_nft_on_approve_keeps_consistent(s, ctx, token_id, owner_id, approval_id, args);
    if let Ok(t) = s.nft_on_approve_result(ctx, token_id, owner_id, approval_id, args) {
        let key = offer_key(ctx.predecessor_id, token_id);
        let old_owned = set_at(s.by_owner_id, owner_id);
        assert(old_owned.no_duplicates());
        lemma_seq_set_insert(old_owned, key);
        assert forall|a: Seq<char>| #[trigger] t.supply_by_owner(a) * STORAGE_PER_OFFER <= t.balance_of(a) by {
            assert(s.supply_by_owner(a) * STORAGE_PER_OFFER <= s.balance_of(a));
        }
        assert forall|k: Seq<char>| #[trigger] t.offers.contains_key(k) implies offer_lifecycle_ok(
            t.offers[k],
        ) by {
            if k != key {
                assert(s.offers.contains_key(k));
            }
        }
    }
}


/// Replacing an offer by one with the same owner, NFT contract and token,
/// whose loan is recorded coherently, keeps every invariant.
proof fn lemma_replace_offer(s: ContractView, key: Seq<char>, o: OfferView)
    requires
        shop_invariant(s),
        s.offers.contains_key(key),
        o.owner_id == s.offers[key].owner_id,
        o.nft_contract_id == s.offers[key].nft_contract_id,
        o.token_id == s.offers[key].token_id,
        offer_lifecycle_ok(o),
    ensures
        shop_invariant(ContractView { offers: s.offers.insert(key, o), ..s }),
{
    let t = ContractView { offers: s.offers.insert(key, o), ..s };
    assert forall|k: Seq<char>| #[trigger] t.offers.contains_key(k) implies set_at(
        t.by_owner_id,
        t.offers[k].owner_id,
    ).contains(k) by {
        assert(s.offers.contains_key(k));
    }
    assert forall|o2: Seq<char>, k: Seq<char>| #[trigger]
        set_at(t.by_owner_id, o2).contains(k) implies t.offers.contains_key(k) && t.offers[k].owner_id
        == o2 by {
        assert(set_at(s.by_owner_id, o2).contains(k));
    }
    assert forall|k: Seq<char>| #[trigger] t.offers.contains_key(k) implies set_at(
        t.by_nft_contract_id,
        t.offers[k].nft_contract_id,
    ).contains(t.offers[k].token_id) by {
        assert(s.offers.contains_key(k));
    }
    assert forall|c: Seq<char>, tk: Seq<char>| #[trigger]
        set_at(t.by_nft_contract_id, c).contains(tk) implies {
        &&& t.offers.contains_key(offer_key(c, tk))
        &&& t.offers[offer_key(c, tk)].nft_contract_id == c
        &&& t.offers[offer_key(c, tk)].token_id == tk
    } by {
        assert(set_at(s.by_nft_contract_id, c).contains(tk));
    }
    assert forall|k: Seq<char>| #[trigger] t.offers.contains_key(k) implies k == offer_key(
        t.offers[k].nft_contract_id,
        t.offers[k].token_id,
    ) by {
        assert(s.offers.contains_key(k));
    }
    assert forall|k: Seq<char>| #[trigger] t.offers.contains_key(k) implies offer_lifecycle_ok(
        t.offers[k],
    ) by {
        assert(s.offers.contains_key(k));
    }
    assert forall|a: Seq<char>| #[trigger] t.supply_by_owner(a) * STORAGE_PER_OFFER <= t.balance_of(a) by {
        assert(s.supply_by_owner(a) * STORAGE_PER_OFFER <= s.balance_of(a));
    }
}

/// Lending a token keeps every invariant of the shop.
pub proof fn law_ft_on_transfer_keeps_invariant(
    s: ContractView,
    ctx: CallContextView,
    sender_id: Seq<char>,
    amount: u128,
    args: Option<BorrowArgsView>,
)
    requires
        shop_invariant(s),
    ensures
        match s.ft_on_transfer_result(ctx, sender_id, amount, args) {
            Ok(t) => shop_invariant(t),
            Err(_) => true,
        },
{
    if let Ok(t) = s.ft_on_transfer_result(ctx, sender_id, amount, args) {
        let a = args->Some_0;
        let key = offer_key(a.nft_contract, a.token_id);
        lemma_replace_offer(s, key, t.offers[key]);
        assert(t == ContractView { offers: s.offers.insert(key, t.offers[key]), ..s });
    }
}

/// Changing an offer's terms keeps every invariant of the shop.
pub proof fn law_update_offer_keeps_invariant(
    s: ContractView,
    ctx: CallContextView,
    nft_contract_id: Seq<char>,
    token_id: Seq<char>,
    rent: u64,
    guarantee: u64,
    max_duration: u64,
)
    requires
        shop_invariant(s),
    ensures
        match s.update_offer_result(ctx, nft_contract_id, token_id, rent, guarantee, max_duration) {
            Ok(t) => shop_invariant(t),
            Err(_) => true,
        },
{
    if let Ok(t) = s.update_offer_result(ctx, nft_contract_id, token_id, rent, guarantee, max_duration) {
        let key = offer_key(nft_contract_id, token_id);
        lemma_replace_offer(s, key, t.offers[key]);
        assert(t == ContractView { offers: s.offers.insert(key, t.offers[key]), ..s });
    }
}

/// Returning a token keeps every invariant of the shop.
pub proof fn law_withdraw_guarantee_keeps_invariant(
    s: ContractView,
    ctx: CallContextView,
    nft_contract_id: Seq<char>,
    token_id: Seq<char>,
)
    requires
        shop_invariant(s),
    ensures
        match s.withdraw_guarantee_result(ctx, nft_contract_id, token_id) {
            Ok((t, _)) => shop_invariant(t),
            Err(_) => true,
        },
{
    if let Ok((t, _)) = s.withdraw_guarantee_result(ctx, nft_contract_id, token_id) {
        let key = offer_key(nft_contract_id, token_id);
        lemma_replace_offer(s, key, t.offers[key]);
        assert(t == ContractView { offers: s.offers.insert(key, t.offers[key]), ..s });
    }
}

/// Liquidating a loan keeps every invariant of the shop.
pub proof fn law_liquidate_keeps_invariant(
    s: ContractView,
    ctx: CallContextView,
    nft_contract_id: Seq<char>,
    token_id: Seq<char>,
)
    requires
        shop_invariant(s),
    ensures
        match s.liquidate_result(ctx, nft_contract_id, token_id) {
            Ok((t, _)) => shop_invariant(t),
            Err(_) => true,
        },
{
    if let Ok((t, _)) = s.liquidate_result(ctx, nft_contract_id, token_id) {
        let key = offer_key(nft_contract_id, token_id);
        lemma_replace_offer(s, key, t.offers[key]);
        assert(t == ContractView { offers: s.offers.insert(key, t.offers[key]), ..s });
    }
}

/// Paying for storage keeps every invariant of the shop.
pub proof fn law_storage_deposit_keeps_invariant(
    s: ContractView,
    ctx: CallContextView,
    account_id: Option<Seq<char>>,
)
    requires
        shop_invariant(s),
    ensures
        match s.storage_deposit_result(ctx, account_id) {
            Ok(t) => shop_invariant(t),
            Err(_) => true,
        },
{
    if let Ok(t) = s.storage_deposit_result(ctx, account_id) {
        assert forall|a: Seq<char>| #[trigger] t.supply_by_owner(a) * STORAGE_PER_OFFER <= t.balance_of(a) by {
            assert(s.supply_by_owner(a) * STORAGE_PER_OFFER <= s.balance_of(a));
        }
    }
}

/// Withdrawing storage keeps every invariant of the shop: what stays
/// deposited is exactly what the caller's offers use.
pub proof fn law_storage_withdraw_keeps_invariant(s: ContractView, ctx: CallContextView)
    requires
        shop_invariant(s),
    ensures
        match s.storage_withdraw_result(ctx) {
            Ok((t, _)) => shop_invariant(t),
            Err(_) => true,
        },
{
    if let Ok((t, _)) = s.storage_withdraw_result(ctx) {
        assert forall|a: Seq<char>| #[trigger] t.supply_by_owner(a) * STORAGE_PER_OFFER <= t.balance_of(a) by {
            assert(s.supply_by_owner(a) * STORAGE_PER_OFFER <= s.balance_of(a));
        }
    }
}


/// Taking an offer out of the shop keeps the indexes consistent and leaves
/// no empty set stored, provided the offer held under the key of
/// (`nft_contract_id`, `token_id`) belongs to that NFT contract. (A key does
/// not always name one pair: `"a.b" + "." + "c"` is also `"a" + "." + "b.c"`;
/// removing through the other pair would take the wrong token out of the NFT
/// contract index.)
pub proof fn law_remove_offer_internal_keeps_consistent(
    s: ContractView,
    nft_contract_id: Seq<char>,
    token_id: Seq<char>,
)
    requires
        consistent(s),
        s.offers.contains_key(offer_key(nft_contract_id, token_id)) ==> s.offers[offer_key(
            nft_contract_id,
            token_id,
        )].nft_contract_id == nft_contract_id,
    ensures
        match s.remove_offer_internal(nft_contract_id, token_id) {
            Ok((t, _)) => consistent(t),
            Err(_) => true,
        },
{
    if let Ok((t, o)) = s.remove_offer_internal(nft_contract_id, token_id) {
        let key = offer_key(nft_contract_id, token_id);
        let c = nft_contract_id;
        let owner = o.owner_id;
        assert(key == offer_key(o.nft_contract_id, o.token_id));
        lemma_offer_key_injective(c, token_id, o.token_id);
        let owned = s.by_owner_id[owner];
        let tokens = s.by_nft_contract_id[c];
        lemma_seq_set_remove(owned, key);
        lemma_seq_set_remove(tokens, token_id);
        let new_owned = seq_set_remove(owned, key);
        let new_tokens = seq_set_remove(tokens, token_id);
        assert forall|j: Seq<char>| set_at(t.by_owner_id, j) == if j == owner {
            new_owned
        } else {
            set_at(s.by_owner_id, j)
        } by {
            lemma_set_at_put(s.by_owner_id, owner, new_owned, j);
        }
        assert forall|j: Seq<char>| set_at(t.by_nft_contract_id, j) == if j == c {
            new_tokens
        } else {
            set_at(s.by_nft_contract_id, j)
        } by {
            lemma_set_at_put(s.by_nft_contract_id, c, new_tokens, j);
        }
        assert(sets_wf(t.by_owner_id)) by {
            assert forall|j: Seq<char>| #[trigger] t.by_owner_id.contains_key(j) implies t.by_owner_id[j].no_duplicates() by {
                assert(set_at(t.by_owner_id, j) == t.by_owner_id[j]);
            }
        }
        assert(sets_wf(t.by_nft_contract_id)) by {
            assert forall|j: Seq<char>| #[trigger] t.by_nft_contract_id.contains_key(j) implies t.by_nft_contract_id[j].no_duplicates() by {
                assert(set_at(t.by_nft_contract_id, j) == t.by_nft_contract_id[j]);
            }
        }
        // the owner index
        assert forall|k: Seq<char>| #[trigger] t.offers.contains_key(k) implies set_at(
            t.by_owner_id,
            t.offers[k].owner_id,
        ).contains(k) by {
            assert(set_at(s.by_owner_id, s.offers[k].owner_id).contains(k));
        }
        assert forall|ow: Seq<char>, k: Seq<char>| #[trigger]
            set_at(t.by_owner_id, ow).contains(k) implies t.offers.contains_key(k) && t.offers[k].owner_id
            == ow by {
            assert(set_at(s.by_owner_id, ow).contains(k));
        }
        assert forall|ow: Seq<char>| #[trigger] t.by_owner_id.contains_key(ow) implies t.by_owner_id[ow].len() > 0 by {
            if ow != owner {
                assert(s.by_owner_id.contains_key(ow));
            }
        }
        // the NFT contract index
        assert forall|k: Seq<char>| #[trigger] t.offers.contains_key(k) implies set_at(
            t.by_nft_contract_id,
            t.offers[k].nft_contract_id,
        ).contains(t.offers[k].token_id) by {
            let ok = s.offers[k];
            assert(set_at(s.by_nft_contract_id, ok.nft_contract_id).contains(ok.token_id));
            if ok.nft_contract_id == c && ok.token_id == token_id {
                assert(k == key);
            }
        }
        assert forall|cc: Seq<char>, tk: Seq<char>| #[trigger]
            set_at(t.by_nft_contract_id, cc).contains(tk) implies {
            &&& t.offers.contains_key(offer_key(cc, tk))
            &&& t.offers[offer_key(cc, tk)].nft_contract_id == cc
            &&& t.offers[offer_key(cc, tk)].token_id == tk
        } by {
            assert(set_at(s.by_nft_contract_id, cc).contains(tk));
            if offer_key(cc, tk) == key {
                assert(s.offers[key].nft_contract_id == cc);
                lemma_offer_key_injective(c, tk, token_id);
            }
        }
        assert forall|cc: Seq<char>| #[trigger] t.by_nft_contract_id.contains_key(cc) implies t.by_nft_contract_id[cc].len() > 0 by {
            if cc != c {
                assert(s.by_nft_contract_id.contains_key(cc));
            }
        }
        assert forall|k: Seq<char>| #[trigger] t.offers.contains_key(k) implies k == offer_key(
            t.offers[k].nft_contract_id,
            t.offers[k].token_id,
        ) by {
            assert(s.offers.contains_key(k));
        }
    }
}

/// Taking an offer out of the shop keeps every invariant, under the same
/// proviso as `law_remove_offer_internal_keeps_consistent`.
pub proof fn law_remove_offer_internal_keeps_invariant(
    s: ContractView,
    nft_contract_id: Seq<char>,
    token_id: Seq<char>,
)
    requires
        shop_invariant(s),
        s.offers.contains_key(offer_key(nft_contract_id, token_id)) ==> s.offers[offer_key(
            nft_contract_id,
            token_id,
        )].nft_contract_id == nft_contract_id,
    ensures
        match s.remove_offer_internal(nft_contract_id, token_id) {
            Ok((t, _)) => shop_invariant(t),
            Err(_) => true,
        },
{
    law_remove_offer_internal_keeps_consistent(s, nft_contract_id, token_id);
    if let Ok((t, o)) = s.remove_offer_internal(nft_contract_id, token_id) {
        let key = offer_key(nft_contract_id, token_id);
        let owner = o.owner_id;
        let new_owned = seq_set_remove(s.by_owner_id[owner], key);
        assert forall|k: Seq<char>| #[trigger] t.offers.contains_key(k) implies offer_lifecycle_ok(
            t.offers[k],
        ) by {
            assert(s.offers.contains_key(k));
        }
        // storage: an owner's count only goes down
        assert forall|a: Seq<char>| #[trigger] t.supply_by_owner(a) * STORAGE_PER_OFFER <= t.balance_of(a) by {
            assert(s.supply_by_owner(a) * STORAGE_PER_OFFER <= s.balance_of(a));
            lemma_set_at_put(s.by_owner_id, owner, new_owned, a);
            assert(t.supply_by_owner(a) <= s.supply_by_owner(a));
        }
    }
}

/// Withdrawing an offer keeps every invariant, under the same proviso as
/// `law_remove_offer_internal_keeps_invariant`.
pub proof fn law_remove_offer_keeps_invariant(
    s: ContractView,
    ctx: CallContextView,
    nft_contract_id: Seq<char>,
    token_id: Seq<char>,
)
    requires
        shop_invariant(s),
        s.offers.contains_key(offer_key(nft_contract_id, token_id)) ==> s.offers[offer_key(
            nft_contract_id,
            token_id,
        )].nft_contract_id == nft_contract_id,
    ensures
        match s.remove_offer_result(ctx, nft_contract_id, token_id) {
            Ok(t) => shop_invariant(t),
            Err(_) => true,
        },
{
    law_remove_offer_internal_keeps_invariant(s, nft_contract_id, token_id);
}


/// A storage payment adds the attached deposit to the named account's
/// balance (the caller's when none is named) and changes no other balance;
/// it is refused exactly when the deposit is below the cost of one offer or
/// the balance would overflow.
pub proof fn law_storage_deposit_adds(s: ContractView, ctx: CallContextView, account_id: Option<Seq<char>>)
    ensures
        ({
            let account = match account_id {
                Some(a) => a,
                None => ctx.predecessor_id,
            };
            match s.storage_deposit_result(ctx, account_id) {
                Ok(t) => {
                    &&& t.balance_of(account) == s.balance_of(account) + ctx.attached_deposit
                    &&& forall|b: Seq<char>| b != account ==> #[trigger] t.balance_of(b) == s.balance_of(b)
                    &&& t.offers == s.offers
                },
                Err(e) => {
                    ||| ctx.attached_deposit < STORAGE_PER_OFFER && e == ContractError::DepositTooSmall
                    ||| ctx.attached_deposit >= STORAGE_PER_OFFER && s.balance_of(account)
                        + ctx.attached_deposit > u128::MAX && e == ContractError::ArithmeticOverflow
                },
            }
        }),
{
}

/// A storage withdrawal hands the caller everything beyond what their offers
/// use, and keeps exactly that use deposited: nothing is created or lost.
pub proof fn law_storage_withdraw_conserves(s: ContractView, ctx: CallContextView)
    ensures
        match s.storage_withdraw_result(ctx) {
            Ok((t, paid)) => {
                let a = ctx.predecessor_id;
                let out: int = match paid {
                    Some((to, amount)) => amount as int,
                    None => 0,
                };
                &&& s.balance_of(a) == t.balance_of(a) + out
                &&& t.balance_of(a) == s.supply_by_owner(a) * STORAGE_PER_OFFER
                &&& (paid matches Some((to, _)) ==> to == a)
                &&& forall|b: Seq<char>| b != a ==> #[trigger] t.balance_of(b) == s.balance_of(b)
            },
            Err(_) => true,
        },
{
}

/// In a shop that keeps its invariants, a storage withdrawal with one
/// yoctoNEAR attached always succeeds.
pub proof fn law_storage_withdraw_succeeds(s: ContractView, ctx: CallContextView)
    requires
        storage_covered(s),
        ctx.attached_deposit == 1,
    ensures
        s.storage_withdraw_result(ctx) is Ok,
{
    assert(s.supply_by_owner(ctx.predecessor_id) * STORAGE_PER_OFFER <= s.balance_of(ctx.predecessor_id));
}

/// A returned guarantee is split in two transfers of the fungible token: the
/// owner gets the rent for the whole seconds elapsed, but never more than
/// the guarantee, and the borrower gets the rest; the two add up to the
/// guarantee.
pub proof fn law_withdraw_guarantee_splits(
    s: ContractView,
    ctx: CallContextView,
    nft_contract_id: Seq<char>,
    token_id: Seq<char>,
)
    ensures
        match s.withdraw_guarantee_result(ctx, nft_contract_id, token_id) {
            Ok((t, transfers)) => {
                let o = s.offers[offer_key(nft_contract_id, token_id)];
                let seconds = (ctx.block_timestamp - o.lending_start->Some_0) / 1_000_000_000int;
                &&& transfers.len() == 2
                &&& transfers[0].receiver_id == o.owner_id
                &&& transfers[1].receiver_id == o.user_rights->Some_0
                &&& transfers[0].ft_contract_id == s.ft_contract_id
                &&& transfers[1].ft_contract_id == s.ft_contract_id
                &&& transfers[0].amount + transfers[1].amount == o.guarantee
                &&& transfers[0].amount == if o.rent * seconds > o.guarantee {
                    o.guarantee as int
                } else {
                    o.rent * seconds
                }
                &&& t.offers[offer_key(nft_contract_id, token_id)] == returned(o)
            },
            Err(_) => true,
        },
{
}

/// A liquidation pays the whole guarantee to the owner and puts the token
/// back on offer.
pub proof fn law_liquidate_pays_owner(
    s: ContractView,
    ctx: CallContextView,
    nft_contract_id: Seq<char>,
    token_id: Seq<char>,
)
    ensures
        match s.liquidate_result(ctx, nft_contract_id, token_id) {
            Ok((t, transfer)) => {
                let o = s.offers[offer_key(nft_contract_id, token_id)];
                &&& transfer.receiver_id == o.owner_id
                &&& transfer.amount == o.guarantee
                &&& transfer.ft_contract_id == s.ft_contract_id
                &&& ctx.block_timestamp > o.lending_expiry->Some_0
                &&& t.offers[offer_key(nft_contract_id, token_id)] == returned(o)
            },
            Err(_) => true,
        },
{
}

/// In a shop that keeps its invariants, a lent offer always has its
/// borrower, start and end: returning or liquidating it never fails for
/// want of them.
pub proof fn law_lent_offers_are_complete(
    s: ContractView,
    ctx: CallContextView,
    nft_contract_id: Seq<char>,
    token_id: Seq<char>,
)
    requires
        lifecycle_ok(s),
    ensures
        s.withdraw_guarantee_result(ctx, nft_contract_id, token_id) != Err::<
            (ContractView, Seq<FtTransferView>),
            ContractError,
        >(ContractError::MissingLendingTerm),
        s.liquidate_result(ctx, nft_contract_id, token_id) != Err::<
            (ContractView, FtTransferView),
            ContractError,
        >(ContractError::MissingLendingTerm),
{
    let key = offer_key(nft_contract_id, token_id);
    if s.offers.contains_key(key) {
        assert(offer_lifecycle_ok(s.offers[key]));
        assert(status_offer() != status_on_rent()) by {
            assert(status_offer().len() != status_on_rent().len());
        }
    }
}


/// The indexes have no trace of the key and token of a new offer: neither
/// set lists them, each set holds its elements once, and an empty set is
/// not stored. Every consistent shop is so for an offer it does not hold.
pub open spec fn indexes_clear_for(s: ContractView, owner_id: Seq<char>, nft_contract_id: Seq<char>, token_id: Seq<char>) -> bool {
    let owned = set_at(s.by_owner_id, owner_id);
    let tokens = set_at(s.by_nft_contract_id, nft_contract_id);
    &&& owned.no_duplicates()
    &&& tokens.no_duplicates()
    &&& !owned.contains(offer_key(nft_contract_id, token_id))
    &&& !tokens.contains(token_id)
    &&& s.by_owner_id.contains_key(owner_id) ==> owned.len() > 0
    &&& s.by_nft_contract_id.contains_key(nft_contract_id) ==> tokens.len() > 0
}

/// In a consistent shop, the indexes have no trace of an offer it does not hold.
pub proof fn lemma_consistent_indexes_clear(
    s: ContractView,
    owner_id: Seq<char>,
    nft_contract_id: Seq<char>,
    token_id: Seq<char>,
)
    requires
        consistent(s),
        !s.offers.contains_key(offer_key(nft_contract_id, token_id)),
    ensures
        indexes_clear_for(s, owner_id, nft_contract_id, token_id),
{
    if set_at(s.by_nft_contract_id, nft_contract_id).contains(token_id) {
        assert(s.offers.contains_key(offer_key(nft_contract_id, token_id)));
    }
    assert(!set_at(s.by_owner_id, owner_id).contains(offer_key(nft_contract_id, token_id)));
}

/// An owner who withdraws an offer right after putting it up gets back the
/// shop as it was: offers, indexes (in their order) and deposits. It needs
/// the indexes to have no trace of the new offer beforehand (true of every
/// consistent shop, `lemma_consistent_indexes_clear`): were the key already
/// listed, the withdrawal would also take out the older entry.
pub proof fn law_remove_offer_undoes_approve(
    s: ContractView,
    ctx: CallContextView,
    token_id: Seq<char>,
    owner_id: Seq<char>,
    approval_id: u64,
    args: Option<OfferArgs>,
    ctx2: CallContextView,
)
    requires
        indexes_clear_for(s, owner_id, ctx.predecessor_id, token_id),
        s.nft_on_approve_result(ctx, token_id, owner_id, approval_id, args) is Ok,
        ctx2.attached_deposit == 1,
        ctx2.predecessor_id == owner_id,
    ensures
        s.nft_on_approve_result(ctx, token_id, owner_id, approval_id, args)->Ok_0.remove_offer_result(
            ctx2,
            ctx.predecessor_id,
            token_id,
        ) == Ok::<ContractView, ContractError>(s),
{
    let t = s.nft_on_approve_result(ctx, token_id, owner_id, approval_id, args)->Ok_0;
    let nft = ctx.predecessor_id;
    let key = offer_key(nft, token_id);
    let owned = set_at(s.by_owner_id, owner_id);
    let tokens = set_at(s.by_nft_contract_id, nft);
    lemma_seq_set_insert_remove(owned, key);
    lemma_seq_set_insert_remove(tokens, token_id);
    lemma_seq_set_insert(owned, key);
    lemma_seq_set_insert(tokens, token_id);
    assert(t.offers.contains_key(key));
    let (u, o) = t.remove_offer_internal(nft, token_id)->Ok_0;
    assert(u.offers =~= s.offers);
    if owned.len() == 0 {
        assert(!s.by_owner_id.contains_key(owner_id));
    }
    assert(u.by_owner_id =~= s.by_owner_id);
    if tokens.len() == 0 {
        assert(!s.by_nft_contract_id.contains_key(nft));
    }
    assert(u.by_nft_contract_id =~= s.by_nft_contract_id);
    assert(u == s);
}

/// In a consistent shop, an owner who withdraws an offer right after putting
/// it up gets back the shop as it was.
pub proof fn law_remove_offer_undoes_approve_consistent(
    s: ContractView,
    ctx: CallContextView,
    token_id: Seq<char>,
    owner_id: Seq<char>,
    approval_id: u64,
    args: Option<OfferArgs>,
    ctx2: CallContextView,
)
    requires
        consistent(s),
        s.nft_on_approve_result(ctx, token_id, owner_id, approval_id, args) is Ok,
        ctx2.attached_deposit == 1,
        ctx2.predecessor_id == owner_id,
    ensures
        s.nft_on_approve_result(ctx, token_id, owner_id, approval_id, args)->Ok_0.remove_offer_result(
            ctx2,
            ctx.predecessor_id,
            token_id,
        ) == Ok::<ContractView, ContractError>(s),
{
    lemma_consistent_indexes_clear(s, owner_id, ctx.predecessor_id, token_id);
    law_remove_offer_undoes_approve(s, ctx, token_id, owner_id, approval_id, args, ctx2);
}

/// A borrower who returns a token before the loan ends gets the shop back as it was before the loan; the two transfers
/// that settle it pay out exactly the guarantee that the borrower sent.
pub proof fn law_withdraw_guarantee_undoes_borrow(
    s: ContractView,
    ctx: CallContextView,
    sender_id: Seq<char>,
    amount: u128,
    args: BorrowArgsView,
    ctx2: CallContextView,
)
    requires
        lifecycle_ok(s),
        s.ft_on_transfer_result(ctx, sender_id, amount, Some(args)) is Ok,
        ctx2.attached_deposit == 1,
        ctx2.predecessor_id == sender_id,
        ctx.block_timestamp <= ctx2.block_timestamp,
        ctx2.block_timestamp < ctx.block_timestamp + args.expiry * 1_000_000_000int,
    ensures
        s.ft_on_transfer_result(ctx, sender_id, amount, Some(args))->Ok_0.withdraw_guarantee_result(
            ctx2,
            args.nft_contract,
            args.token_id,
        ) matches Ok((u, transfers)) && u == s && transfers.len() == 2 && transfers[0].amount
            + transfers[1].amount == amount,
{
    let key = offer_key(args.nft_contract, args.token_id);
    let t = s.ft_on_transfer_result(ctx, sender_id, amount, Some(args))->Ok_0;
    assert(offer_lifecycle_ok(s.offers[key]));
    let r = t.withdraw_guarantee_result(ctx2, args.nft_contract, args.token_id);
    assert(r is Ok);
    let u = r->Ok_0.0;
    assert(returned(t.offers[key]) == s.offers[key]);
    assert(u.offers =~= s.offers);
}

/// An owner who liquidates a loan after it ends gets the shop back as it
/// was before the loan, and the whole guarantee.
pub proof fn law_liquidate_undoes_borrow(
    s: ContractView,
    ctx: CallContextView,
    sender_id: Seq<char>,
    amount: u128,
    args: BorrowArgsView,
    ctx2: CallContextView,
)
    requires
        lifecycle_ok(s),
        s.ft_on_transfer_result(ctx, sender_id, amount, Some(args)) is Ok,
        ctx2.attached_deposit == 1,
        ctx2.predecessor_id == s.offers[offer_key(args.nft_contract, args.token_id)].owner_id,
        ctx2.block_timestamp > ctx.block_timestamp + args.expiry * 1_000_000_000int,
    ensures
        s.ft_on_transfer_result(ctx, sender_id, amount, Some(args))->Ok_0.liquidate_result(
            ctx2,
            args.nft_contract,
            args.token_id,
        ) matches Ok((u, transfer)) && u == s && transfer.amount == amount,
{
    let key = offer_key(args.nft_contract, args.token_id);
    let t = s.ft_on_transfer_result(ctx, sender_id, amount, Some(args))->Ok_0;
    assert(offer_lifecycle_ok(s.offers[key]));
    let r = t.liquidate_result(ctx2, args.nft_contract, args.token_id);
    assert(r is Ok);
    let u = r->Ok_0.0;
    assert(returned(t.offers[key]) == s.offers[key]);
    assert(u.offers =~= s.offers);
}


pub proof fn lemma_page_in_set(set: Seq<Seq<char>>, from: int, limit: int, i: int)
    requires
        0 <= from,
        0 <= limit,
        0 <= i < seq_page(set, from, limit).len(),
    ensures
        set.contains(seq_page(set, from, limit)[i]),
{
    let p = seq_page(set, from, limit);
    assert(set[from + i] == p[i]);
}


/// While a token is lent, its owner can neither withdraw the offer nor
/// change its terms, and nobody else can borrow it.
pub proof fn law_lent_offer_is_locked(
    s: ContractView,
    ctx: CallContextView,
    nft_contract_id: Seq<char>,
    token_id: Seq<char>,
    rent: u64,
    guarantee: u64,
    max_duration: u64,
    sender_id: Seq<char>,
    amount: u128,
    expiry: u64,
)
    requires
        s.offers.contains_key(offer_key(nft_contract_id, token_id)),
        s.offers[offer_key(nft_contract_id, token_id)].status == status_on_rent(),
    ensures
        s.remove_offer_result(ctx, nft_contract_id, token_id) is Err,
        s.update_offer_result(ctx, nft_contract_id, token_id, rent, guarantee, max_duration) is Err,
        s.ft_on_transfer_result(
            ctx,
            sender_id,
            amount,
            Some(BorrowArgsView { nft_contract: nft_contract_id, token_id, expiry }),
        ) is Err,
{
    assert(status_offer() != status_on_rent()) by {
        assert(status_offer().len() != status_on_rent().len());
    }
}



/// The share of the guarantee that the owner gets for a loan that started
/// at `start` and is returned at `now`.
pub open spec fn owner_share_at(o: OfferView, now: u64) -> int {
    let seconds = (now - o.lending_start->Some_0) / 1_000_000_000int;
    if o.rent * seconds > o.guarantee {
        o.guarantee as int
    } else {
        o.rent * seconds
    }
}

/// A lent token can always be returned by its borrower, with one yoctoNEAR
/// attached, from the start of the loan until just before its end: the owner
/// gets the rent for the whole seconds elapsed, never more than the
/// guarantee, and the borrower the rest, in that order.
pub proof fn law_withdraw_guarantee_succeeds(
    s: ContractView,
    ctx: CallContextView,
    nft_contract_id: Seq<char>,
    token_id: Seq<char>,
)
    requires
        ctx.attached_deposit == 1,
        s.offers.contains_key(offer_key(nft_contract_id, token_id)),
        ({
            let o = s.offers[offer_key(nft_contract_id, token_id)];
            &&& o.status == status_on_rent()
            &&& o.user_rights == Some(ctx.predecessor_id)
            &&& o.lending_start matches Some(start) && start <= ctx.block_timestamp
            &&& o.lending_expiry matches Some(end) && ctx.block_timestamp < end
        }),
    ensures
        s.withdraw_guarantee_result(ctx, nft_contract_id, token_id) matches Ok((t, transfers)) && {
            let o = s.offers[offer_key(nft_contract_id, token_id)];
            &&& transfers.len() == 2
            &&& transfers[0].receiver_id == o.owner_id
            &&& transfers[0].amount == owner_share_at(o, ctx.block_timestamp)
            &&& transfers[1].receiver_id == ctx.predecessor_id
            &&& transfers[1].amount == o.guarantee - owner_share_at(o, ctx.block_timestamp)
            &&& t.offers == s.offers.insert(offer_key(nft_contract_id, token_id), returned(o))
        },
{
}

/// The later a loan is returned, the more of the guarantee goes to the owner
/// and the less back to the borrower.
pub proof fn law_owner_share_grows(
    s: ContractView,
    ctx1: CallContextView,
    ctx2: CallContextView,
    nft_contract_id: Seq<char>,
    token_id: Seq<char>,
)
    requires
        ctx1.block_timestamp <= ctx2.block_timestamp,
        s.withdraw_guarantee_result(ctx1, nft_contract_id, token_id) is Ok,
        s.withdraw_guarantee_result(ctx2, nft_contract_id, token_id) is Ok,
    ensures
        ({
            let tr1 = s.withdraw_guarantee_result(ctx1, nft_contract_id, token_id)->Ok_0.1;
            let tr2 = s.withdraw_guarantee_result(ctx2, nft_contract_id, token_id)->Ok_0.1;
            let o = s.offers[offer_key(nft_contract_id, token_id)];
            &&& tr1[0].amount <= tr2[0].amount <= o.guarantee
            &&& tr1[1].amount >= tr2[1].amount >= 0
        }),
{
    let o = s.offers[offer_key(nft_contract_id, token_id)];
    let start = o.lending_start->Some_0;
    let d1 = ctx1.block_timestamp - start;
    let d2 = ctx2.block_timestamp - start;
    vstd::arithmetic::div_mod::lemma_div_is_ordered(d1, d2, 1_000_000_000int);
    let s1 = d1 / 1_000_000_000int;
    let s2 = d2 / 1_000_000_000int;
    assert(s1 >= 0) by {
        vstd::arithmetic::div_mod::lemma_div_pos_is_pos(d1, 1_000_000_000int);
    }
    vstd::arithmetic::mul::lemma_mul_inequality(s1, s2, o.rent as int);
    vstd::arithmetic::mul::lemma_mul_is_commutative(s1, o.rent as int);
    vstd::arithmetic::mul::lemma_mul_is_commutative(s2, o.rent as int);
    assert(owner_share_at(o, ctx1.block_timestamp) <= owner_share_at(o, ctx2.block_timestamp));
}

/// A loan's guarantee is paid out at most once: after a return or a
/// liquidation has succeeded, neither succeeds again until the token is lent
/// anew; and at the very end of a loan neither succeeds.
pub proof fn law_guarantee_paid_once(
    s: ContractView,
    ctx: CallContextView,
    ctx2: CallContextView,
    nft_contract_id: Seq<char>,
    token_id: Seq<char>,
)
    ensures
        s.withdraw_guarantee_result(ctx, nft_contract_id, token_id) matches Ok((t, _)) ==> {
            &&& t.withdraw_guarantee_result(ctx2, nft_contract_id, token_id) is Err
            &&& t.liquidate_result(ctx2, nft_contract_id, token_id) is Err
        },
        s.liquidate_result(ctx, nft_contract_id, token_id) matches Ok((t, _)) ==> {
            &&& t.withdraw_guarantee_result(ctx2, nft_contract_id, token_id) is Err
            &&& t.liquidate_result(ctx2, nft_contract_id, token_id) is Err
        },
        ({
            let key = offer_key(nft_contract_id, token_id);
            s.offers.contains_key(key) && s.offers[key].lending_expiry == Some(ctx.block_timestamp) ==> {
                &&& s.withdraw_guarantee_result(ctx, nft_contract_id, token_id) is Err
                &&& s.liquidate_result(ctx, nft_contract_id, token_id) is Err
            }
        }),
{
    assert(status_offer() != status_on_rent()) by {
        assert(status_offer().len() != status_on_rent().len());
    }
}

/// Putting a token on offer adds one offer to the shop; withdrawing one
/// takes one away; lending, returning, liquidating, changing terms and
/// storage calls keep the number of offers.
pub proof fn law_offer_count(
    s: ContractView,
    ctx: CallContextView,
    nft_contract_id: Seq<char>,
    token_id: Seq<char>,
    owner_id: Seq<char>,
    approval_id: u64,
    args: Option<OfferArgs>,
    sender_id: Seq<char>,
    amount: u128,
    borrow: Option<BorrowArgsView>,
)
    requires
        s.offers.dom().finite(),
    ensures
        s.nft_on_approve_result(ctx, token_id, owner_id, approval_id, args) matches Ok(t) ==> t.offers.len()
            == s.offers.len() + 1,
        s.remove_offer_result(ctx, nft_contract_id, token_id) matches Ok(t) ==> t.offers.len() + 1
            == s.offers.len(),
        s.ft_on_transfer_result(ctx, sender_id, amount, borrow) matches Ok(t) ==> t.offers.len()
            == s.offers.len(),
        s.withdraw_guarantee_result(ctx, nft_contract_id, token_id) matches Ok((t, _)) ==> t.offers.len()
            == s.offers.len(),
        s.liquidate_result(ctx, nft_contract_id, token_id) matches Ok((t, _)) ==> t.offers.len()
            == s.offers.len(),
        s.storage_withdraw_result(ctx) matches Ok((t, _)) ==> t.offers.len() == s.offers.len(),
{
    if let Ok(t) = s.ft_on_transfer_result(ctx, sender_id, amount, borrow) {
        let a = borrow->Some_0;
        assert(t.offers.dom() =~= s.offers.dom().insert(offer_key(a.nft_contract, a.token_id)));
    }
    let key = offer_key(nft_contract_id, token_id);
    if s.offers.contains_key(key) {
        assert(s.offers.dom().insert(key) =~= s.offers.dom());
    }
}

} // verus!
