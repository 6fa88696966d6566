//! Laws over whole histories of calls: every state that calls can reach
//! from a new shop keeps the core invariant; a loan's guarantee is paid out
//! at most once; and an account's storage balance is what it was credited,
//! as long as it withdraws nothing.

use vstd::prelude::*;
use crate::contract::{BorrowArgsView, CallContextView, ContractView, offer_key};
use crate::invariants::{
    core_invariant, law_empty_shop_core, law_nft_on_approve_keeps_core, law_offer_updates_keep_core,
    law_remove_offer_keeps_core, law_storage_calls_keep_core,
};
use crate::offer::{OfferArgs, status_offer, status_on_rent};

verus! {

/// One call of an entry point, with its context and arguments.
pub enum ShopCall {
    Approve {
        ctx: CallContextView,
        token_id: Seq<char>,
        owner_id: Seq<char>,
        approval_id: u64,
        terms: Option<OfferArgs>,
    },
    Borrow { ctx: CallContextView, sender_id: Seq<char>, amount: u128, args: Option<BorrowArgsView> },
    RemoveOffer { ctx: CallContextView, nft_contract_id: Seq<char>, token_id: Seq<char> },
    UpdateOffer {
        ctx: CallContextView,
        nft_contract_id: Seq<char>,
        token_id: Seq<char>,
        rent: u64,
        guarantee: u64,
        max_duration: u64,
    },
    Return { ctx: CallContextView, nft_contract_id: Seq<char>, token_id: Seq<char> },
    Liquidate { ctx: CallContextView, nft_contract_id: Seq<char>, token_id: Seq<char> },
    StorageDeposit { ctx: CallContextView, account_id: Option<Seq<char>> },
    StorageWithdraw { ctx: CallContextView },
}

/// The state after a call, and whether it succeeded; a refused call leaves
/// the state as it was.
pub open spec fn apply(s: ContractView, call: ShopCall) -> (ContractView, bool) {
    match call {
        ShopCall::Approve { ctx, token_id, owner_id, approval_id, terms } => match s.nft_on_approve_result(
            ctx,
            token_id,
            owner_id,
            approval_id,
            terms,
        ) {
            Ok(t) => (t, true),
            Err(_) => (s, false),
        },
        ShopCall::Borrow { ctx, sender_id, amount, args } => match s.ft_on_transfer_result(
            ctx,
            sender_id,
            amount,
            args,
        ) {
            Ok(t) => (t, true),
            Err(_) => (s, false),
        },
        ShopCall::RemoveOffer { ctx, nft_contract_id, token_id } => match s.remove_offer_result(
            ctx,
            nft_contract_id,
            token_id,
        ) {
            Ok(t) => (t, true),
            Err(_) => (s, false),
        },
        ShopCall::UpdateOffer { ctx, nft_contract_id, token_id, rent, guarantee, max_duration } => match s.update_offer_result(
            ctx,
            nft_contract_id,
            token_id,
            rent,
            guarantee,
            max_duration,
        ) {
            Ok(t) => (t, true),
            Err(_) => (s, false),
        },
        ShopCall::Return { ctx, nft_contract_id, token_id } => match s.withdraw_guarantee_result(
            ctx,
            nft_contract_id,
            token_id,
        ) {
            Ok((t, _)) => (t, true),
            Err(_) => (s, false),
        },
        ShopCall::Liquidate { ctx, nft_contract_id, token_id } => match s.liquidate_result(
            ctx,
            nft_contract_id,
            token_id,
        ) {
            Ok((t, _)) => (t, true),
            Err(_) => (s, false),
        },
        ShopCall::StorageDeposit { ctx, account_id } => match s.storage_deposit_result(ctx, account_id) {
            Ok(t) => (t, true),
            Err(_) => (s, false),
        },
        ShopCall::StorageWithdraw { ctx } => match s.storage_withdraw_result(ctx) {
            Ok((t, _)) => (t, true),
            Err(_) => (s, false),
        },
    }
}

/// The state after the calls, made in order.
pub open spec fn run(s: ContractView, calls: Seq<ShopCall>) -> ContractView
    decreases calls.len(),
{
    if calls.len() == 0 {
        s
    } else {
        apply(run(s, calls.drop_last()), calls.last()).0
    }
}

proof fn lemma_apply_keeps_core(s: ContractView, call: ShopCall)
    requires
        core_invariant(s),
    ensures
        core_invariant(apply(s, call).0),
{
    match call {
        ShopCall::Approve { ctx, token_id, owner_id, approval_id, terms } => {
            law_nft_on_approve_keeps_core(s, ctx, token_id, owner_id, approval_id, terms);
        },
        ShopCall::Borrow { ctx, sender_id, amount, args } => {
            law_offer_updates_keep_core(s, ctx, Seq::empty(), Seq::empty(), 0, 0, 0, sender_id, amount, args);
        },
        ShopCall::RemoveOffer { ctx, nft_contract_id, token_id } => {
            law_remove_offer_keeps_core(s, ctx, nft_contract_id, token_id);
        },
        ShopCall::UpdateOffer { ctx, nft_contract_id, token_id, rent, guarantee, max_duration } => {
            law_offer_updates_keep_core(
                s,
                ctx,
                nft_contract_id,
                token_id,
                rent,
                guarantee,
                max_duration,
                Seq::empty(),
                0,
                None,
            );
        },
        ShopCall::Return { ctx, nft_contract_id, token_id } => {
            law_offer_updates_keep_core(s, ctx, nft_contract_id, token_id, 0, 0, 0, Seq::empty(), 0, None);
        },
        ShopCall::Liquidate { ctx, nft_contract_id, token_id } => {
            law_offer_updates_keep_core(s, ctx, nft_contract_id, token_id, 0, 0, 0, Seq::empty(), 0, None);
        },
        ShopCall::StorageDeposit { ctx, account_id } => {
            law_storage_calls_keep_core(s, ctx, account_id);
        },
        ShopCall::StorageWithdraw { ctx } => {
            law_storage_calls_keep_core(s, ctx, None);
        },
    }
}

/// Any history of calls keeps the core invariant.
pub proof fn law_run_keeps_core(s: ContractView, calls: Seq<ShopCall>)
    requires
        core_invariant(s),
    ensures
        core_invariant(run(s, calls)),
    decreases calls.len(),
{
    if calls.len() > 0 {
        law_run_keeps_core(s, calls.drop_last());
        lemma_apply_keeps_core(run(s, calls.drop_last()), calls.last());
    }
}

/// Every state that calls reach from a new shop meets the core invariant:
/// each offer sits under its own key and is waiting or fully lent, the
/// owner index is exact, and every owner's storage is covered.
pub proof fn law_reachable_core(owner_id: Seq<char>, ft_contract_id: Seq<char>, calls: Seq<ShopCall>)
    ensures
        core_invariant(run(ContractView::empty(owner_id, ft_contract_id), calls)),
{
    law_empty_shop_core(owner_id, ft_contract_id);
    law_run_keeps_core(ContractView::empty(owner_id, ft_contract_id), calls);
}


/// The call pays out the guarantee of the loan held under `key`: a return
/// or a liquidation of that key that succeeds.
pub open spec fn pays_out(s: ContractView, call: ShopCall, key: Seq<char>) -> bool {
    match call {
        ShopCall::Return { ctx, nft_contract_id, token_id } => offer_key(nft_contract_id, token_id) == key
            && s.withdraw_guarantee_result(ctx, nft_contract_id, token_id) is Ok,
        ShopCall::Liquidate { ctx, nft_contract_id, token_id } => offer_key(nft_contract_id, token_id) == key
            && s.liquidate_result(ctx, nft_contract_id, token_id) is Ok,
        _ => false,
    }
}

/// How many calls of the history pay out the loan held under `key`.
pub open spec fn payouts(s: ContractView, calls: Seq<ShopCall>, key: Seq<char>) -> nat
    decreases calls.len(),
{
    if calls.len() == 0 {
        0
    } else {
        payouts(s, calls.drop_last(), key) + if pays_out(run(s, calls.drop_last()), calls.last(), key) {
            1nat
        } else {
            0nat
        }
    }
}

/// The call is a loan notice for the offer held under `key`.
pub open spec fn lends(call: ShopCall, key: Seq<char>) -> bool {
    match call {
        ShopCall::Borrow { args, .. } => args matches Some(a) && offer_key(a.nft_contract, a.token_id) == key,
        _ => false,
    }
}

/// The offer under `key`, if any, is not lent.
pub open spec fn not_lent(s: ContractView, key: Seq<char>) -> bool {
    s.offers.contains_key(key) ==> s.offers[key].status != status_on_rent()
}

proof fn lemma_apply_keeps_not_lent(s: ContractView, call: ShopCall, key: Seq<char>)
    requires
        not_lent(s, key),
        !lends(call, key),
    ensures
        not_lent(apply(s, call).0, key),
{
    assert(status_offer() != status_on_rent()) by {
        assert(status_offer().len() != status_on_rent().len());
    }
}

proof fn lemma_payouts_at_most_once(s: ContractView, calls: Seq<ShopCall>, key: Seq<char>)
    requires
        forall|i: int| 0 <= i < calls.len() ==> !lends(#[trigger] calls[i], key),
    ensures
        payouts(s, calls, key) == 0 || (payouts(s, calls, key) == 1 && not_lent(run(s, calls), key)),
    decreases calls.len(),
{
    assert(status_offer() != status_on_rent()) by {
        assert(status_offer().len() != status_on_rent().len());
    }
    if calls.len() > 0 {
        let prefix = calls.drop_last();
        assert forall|i: int| 0 <= i < prefix.len() implies !lends(#[trigger] prefix[i], key) by {
            assert(prefix[i] == calls[i]);
        }
        lemma_payouts_at_most_once(s, prefix, key);
        let u = run(s, prefix);
        let c = calls.last();
        assert(!lends(c, key));
        if payouts(s, prefix, key) == 1 {
            lemma_apply_keeps_not_lent(u, c, key);
        }
    }
}

/// A loan's guarantee is paid out at most once: in any history with no loan
/// notice for the offer held under `key`, at most one return or
/// liquidation of that key succeeds.
pub proof fn law_guarantee_paid_out_at_most_once(s: ContractView, calls: Seq<ShopCall>, key: Seq<char>)
    requires
        forall|i: int| 0 <= i < calls.len() ==> !lends(#[trigger] calls[i], key),
    ensures
        payouts(s, calls, key) <= 1,
{
    lemma_payouts_at_most_once(s, calls, key);
}

/// The account that a storage payment credits.
pub open spec fn credited_account(ctx: CallContextView, account_id: Option<Seq<char>>) -> Seq<char> {
    match account_id {
        Some(a) => a,
        None => ctx.predecessor_id,
    }
}

/// The sum of the deposits that the history's successful storage payments
/// credit to `account`.
pub open spec fn credited(s: ContractView, calls: Seq<ShopCall>, account: Seq<char>) -> int
    decreases calls.len(),
{
    if calls.len() == 0 {
        0
    } else {
        let u = run(s, calls.drop_last());
        credited(s, calls.drop_last(), account) + match calls.last() {
            ShopCall::StorageDeposit { ctx, account_id } => if apply(u, calls.last()).1 && credited_account(
                ctx,
                account_id,
            ) == account {
                ctx.attached_deposit as int
            } else {
                0int
            },
            _ => 0int,
        }
    }
}

/// The call is a storage withdrawal made by `account`.
pub open spec fn withdraws_storage(call: ShopCall, account: Seq<char>) -> bool {
    match call {
        ShopCall::StorageWithdraw { ctx } => ctx.predecessor_id == account,
        _ => false,
    }
}

/// As long as an account withdraws no storage, its balance is what it had
/// plus every deposit credited to it, whatever else happens: no other call
/// moves it.
pub proof fn law_balance_is_credited_deposits(s: ContractView, calls: Seq<ShopCall>, account: Seq<char>)
    requires
        forall|i: int| 0 <= i < calls.len() ==> !withdraws_storage(#[trigger] calls[i], account),
    ensures
        run(s, calls).balance_of(account) == s.balance_of(account) + credited(s, calls, account),
    decreases calls.len(),
{
    if calls.len() > 0 {
        let prefix = calls.drop_last();
        assert forall|i: int| 0 <= i < prefix.len() implies !withdraws_storage(#[trigger] prefix[i], account) by {
            assert(prefix[i] == calls[i]);
        }
        law_balance_is_credited_deposits(s, prefix, account);
        assert(!withdraws_storage(calls.last(), account));
    }
}


/// The call is a successful approval that creates the offer held under `key`.
pub open spec fn creates(s: ContractView, call: ShopCall, key: Seq<char>) -> bool {
    match call {
        ShopCall::Approve { ctx, token_id, .. } => offer_key(ctx.predecessor_id, token_id) == key && apply(
            s,
            call,
        ).1,
        _ => false,
    }
}

/// The call is a successful withdrawal of the offer held under `key`.
pub open spec fn removes(s: ContractView, call: ShopCall, key: Seq<char>) -> bool {
    match call {
        ShopCall::RemoveOffer { nft_contract_id, token_id, .. } => offer_key(nft_contract_id, token_id) == key
            && apply(s, call).1,
        _ => false,
    }
}

/// Whether, after the history, an offer is held under `key`: the latest
/// call that created or removed it decides; when none did, it is held as it
/// was at the start.
pub open spec fn held_after(s: ContractView, calls: Seq<ShopCall>, key: Seq<char>) -> bool
    decreases calls.len(),
{
    if calls.len() == 0 {
        s.offers.contains_key(key)
    } else {
        let u = run(s, calls.drop_last());
        if creates(u, calls.last(), key) {
            true
        } else if removes(u, calls.last(), key) {
            false
        } else {
            held_after(s, calls.drop_last(), key)
        }
    }
}

/// An offer is held under a key exactly when the latest call that created
/// or removed it created it (or, with no such call, when it was held at the
/// start): no other call creates or removes offers.
pub proof fn law_offers_held_trace(s: ContractView, calls: Seq<ShopCall>, key: Seq<char>)
    ensures
        run(s, calls).offers.contains_key(key) == held_after(s, calls, key),
    decreases calls.len(),
{
    if calls.len() > 0 {
        law_offers_held_trace(s, calls.drop_last(), key);
        let u = run(s, calls.drop_last());
        match calls.last() {
            ShopCall::Borrow { ctx, sender_id, amount, args } => {
                if let Ok(t) = u.ft_on_transfer_result(ctx, sender_id, amount, args) {
                    let a = args->Some_0;
                    assert(t.offers.dom() =~= u.offers.dom().insert(offer_key(a.nft_contract, a.token_id)));
                }
            },
            ShopCall::RemoveOffer { ctx, nft_contract_id, token_id } => {
                if let Ok(t) = u.remove_offer_result(ctx, nft_contract_id, token_id) {
                    assert(t.offers.dom() =~= u.offers.dom().remove(offer_key(nft_contract_id, token_id)));
                }
            },
            _ => {},
        }
    }
}

} // verus!
