//! When each call may succeed, and what a success leaves behind, stated as
//! properties of its outcome: a call that succeeds had its caller, deposit,
//! time and arguments right, and changed exactly what it is for.

use vstd::prelude::*;
use crate::contract::{BorrowArgsView, CallContextView, ContractError, ContractView, offer_key, set_at};
use crate::offer::{OfferArgs, status_offer, status_on_rent};
use crate::storage::STORAGE_PER_OFFER;

verus! {

/// An approval succeeds only when it comes from an NFT contract (not from
/// the signer), names the signer as owner, carries valid terms, finds the
/// signer's storage paid for one more offer, and the token is not on offer
/// yet; the new offer is waiting, with the owner, contract, token, approval
/// and terms given.
pub proof fn law_nft_on_approve_guards(
    s: ContractView,
    ctx: CallContextView,
    token_id: Seq<char>,
    owner_id: Seq<char>,
    approval_id: u64,
    args: Option<OfferArgs>,
)
    ensures
        s.nft_on_approve_result(ctx, token_id, owner_id, approval_id, args) matches Ok(t) ==> {
            let key = offer_key(ctx.predecessor_id, token_id);
            let o = t.offers[key];
            &&& ctx.predecessor_id != ctx.signer_id
            &&& owner_id == ctx.signer_id
            &&& args is Some
            &&& (s.supply_by_owner(owner_id) + 1) * STORAGE_PER_OFFER <= s.balance_of(owner_id)
            &&& !s.offers.contains_key(key)
            &&& t.offers.contains_key(key)
            &&& o.owner_id == owner_id
            &&& o.nft_contract_id == ctx.predecessor_id
            &&& o.token_id == token_id
            &&& o.approval_id == approval_id
            &&& o.status == status_offer()
            &&& o.rent == args->Some_0.rent
            &&& o.guarantee == args->Some_0.guarantee
            &&& o.max_duration == args->Some_0.max_duration
            &&& o.lending_start is None && o.lending_expiry is None && o.user_rights is None
            &&& forall|k: Seq<char>| k != key ==> #[trigger] t.offers.contains_key(k) == s.offers.contains_key(k)
                && (s.offers.contains_key(k) ==> t.offers[k] == s.offers[k])
            &&& t.storage_deposits == s.storage_deposits
        },
{
}

/// A loan succeeds only when the shop's token contract reports it, for an
/// offer that is waiting, with exactly its guarantee paid and a loan
/// strictly shorter than its maximum duration; the offer is then lent to
/// the sender from now until now plus the loan's length, terms unchanged.
pub proof fn law_ft_on_transfer_guards(
    s: ContractView,
    ctx: CallContextView,
    sender_id: Seq<char>,
    amount: u128,
    args: Option<BorrowArgsView>,
)
    ensures
        s.ft_on_transfer_result(ctx, sender_id, amount, args) matches Ok(t) ==> {
            let a = args->Some_0;
            let key = offer_key(a.nft_contract, a.token_id);
            let before = s.offers[key];
            let after = t.offers[key];
            &&& ctx.predecessor_id == s.ft_contract_id
            &&& args is Some
            &&& s.offers.contains_key(key)
            &&& before.status == status_offer()
            &&& a.expiry < before.max_duration
            &&& amount == before.guarantee
            &&& after.status == status_on_rent()
            &&& after.user_rights == Some(sender_id)
            &&& after.lending_start == Some(ctx.block_timestamp)
            &&& after.lending_expiry matches Some(end) && end == ctx.block_timestamp + a.expiry * 1_000_000_000
            &&& after.lending_expiry->Some_0 - after.lending_start->Some_0 < before.max_duration
                * 1_000_000_000
            &&& after.owner_id == before.owner_id && after.nft_contract_id == before.nft_contract_id
                && after.token_id == before.token_id && after.approval_id == before.approval_id
            &&& after.rent == before.rent && after.guarantee == before.guarantee && after.max_duration
                == before.max_duration
            &&& t.offers.dom() == s.offers.dom()
            &&& forall|k: Seq<char>| k != key && #[trigger] s.offers.contains_key(k) ==> t.offers[k] == s.offers[k]
            &&& t.by_owner_id == s.by_owner_id && t.by_nft_contract_id == s.by_nft_contract_id
            &&& t.storage_deposits == s.storage_deposits
        },
{
    if let Ok(t) = s.ft_on_transfer_result(ctx, sender_id, amount, args) {
        let a = args->Some_0;
        assert(t.offers.dom() =~= s.offers.dom());
    }
}

/// A withdrawal of an offer succeeds only with one yoctoNEAR attached, by
/// the offer's owner, while the offer is waiting; the offer is gone after.
pub proof fn law_remove_offer_guards(
    s: ContractView,
    ctx: CallContextView,
    nft_contract_id: Seq<char>,
    token_id: Seq<char>,
)
    ensures
        s.remove_offer_result(ctx, nft_contract_id, token_id) matches Ok(t) ==> {
            let key = offer_key(nft_contract_id, token_id);
            &&& ctx.attached_deposit == 1
            &&& s.offers.contains_key(key)
            &&& ctx.predecessor_id == s.offers[key].owner_id
            &&& s.offers[key].status == status_offer()
            &&& !t.offers.contains_key(key)
            &&& !set_at(t.by_owner_id, ctx.predecessor_id).contains(key) || !set_at(
                s.by_owner_id,
                ctx.predecessor_id,
            ).no_duplicates()
            &&& t.storage_deposits == s.storage_deposits
        },
{
    if let Ok(t) = s.remove_offer_result(ctx, nft_contract_id, token_id) {
        let key = offer_key(nft_contract_id, token_id);
        let owner = ctx.predecessor_id;
        if s.by_owner_id[owner].no_duplicates() {
            crate::str_set::lemma_seq_set_remove(s.by_owner_id[owner], key);
            crate::laws::lemma_set_at_put(
                s.by_owner_id,
                owner,
                crate::str_set::seq_set_remove(s.by_owner_id[owner], key),
                owner,
            );
        }
    }
}

/// A change of terms succeeds only with one yoctoNEAR attached, by the
/// offer's owner, while the offer is waiting; after it the offer has
/// exactly the rent, guarantee and maximum duration given, and nothing else
/// about it or any other offer changed.
pub proof fn law_update_offer_guards(
    s: ContractView,
    ctx: CallContextView,
    nft_contract_id: Seq<char>,
    token_id: Seq<char>,
    rent: u64,
    guarantee: u64,
    max_duration: u64,
)
    ensures
        s.update_offer_result(ctx, nft_contract_id, token_id, rent, guarantee, max_duration) matches Ok(t) ==> {
            let key = offer_key(nft_contract_id, token_id);
            let before = s.offers[key];
            let after = t.offers[key];
            &&& ctx.attached_deposit == 1
            &&& s.offers.contains_key(key)
            &&& ctx.predecessor_id == before.owner_id
            &&& before.status == status_offer()
            &&& t.offers.contains_key(key)
            &&& after.rent == rent
            &&& after.guarantee == guarantee
            &&& after.max_duration == max_duration
            &&& after.owner_id == before.owner_id && after.nft_contract_id == before.nft_contract_id
                && after.token_id == before.token_id && after.approval_id == before.approval_id
            &&& after.status == before.status && after.lending_start == before.lending_start
                && after.lending_expiry == before.lending_expiry && after.user_rights == before.user_rights
            &&& t.offers.dom() == s.offers.dom()
            &&& forall|k: Seq<char>| k != key && #[trigger] s.offers.contains_key(k) ==> t.offers[k] == s.offers[k]
            &&& t.by_owner_id == s.by_owner_id && t.by_nft_contract_id == s.by_nft_contract_id
            &&& t.storage_deposits == s.storage_deposits
        },
{
    let key = offer_key(nft_contract_id, token_id);
    if let Ok(t) = s.update_offer_result(ctx, nft_contract_id, token_id, rent, guarantee, max_duration) {
        assert(t.offers.dom() =~= s.offers.dom().insert(key));
        assert(s.offers.dom().insert(key) =~= s.offers.dom());
    }
}

/// A return succeeds only with one yoctoNEAR attached, by the borrower of a
/// lent offer, strictly before the loan's end and not before its start: at
/// or after the end the guarantee is the owner's to liquidate. The offer is
/// then waiting again, its terms kept, and the two transfers together pay
/// out exactly the guarantee.
pub proof fn law_withdraw_guarantee_guards(
    s: ContractView,
    ctx: CallContextView,
    nft_contract_id: Seq<char>,
    token_id: Seq<char>,
)
    ensures
        s.withdraw_guarantee_result(ctx, nft_contract_id, token_id) matches Ok((t, transfers)) ==> {
            let key = offer_key(nft_contract_id, token_id);
            let before = s.offers[key];
            let after = t.offers[key];
            &&& ctx.attached_deposit == 1
            &&& s.offers.contains_key(key)
            &&& before.status == status_on_rent()
            &&& before.user_rights == Some(ctx.predecessor_id)
            &&& before.lending_expiry matches Some(end) && ctx.block_timestamp < end
            &&& before.lending_start matches Some(start) && start <= ctx.block_timestamp
            &&& after.status == status_offer()
            &&& after.lending_start is None && after.lending_expiry is None && after.user_rights is None
            &&& after.rent == before.rent && after.guarantee == before.guarantee && after.max_duration
                == before.max_duration && after.owner_id == before.owner_id
            &&& transfers.len() == 2
            &&& transfers[0].amount + transfers[1].amount == before.guarantee
            &&& transfers[0].amount <= before.guarantee
        },
        ({
            let key = offer_key(nft_contract_id, token_id);
            s.offers.contains_key(key) && s.offers[key].lending_expiry is Some && ctx.block_timestamp
                >= s.offers[key].lending_expiry->Some_0 ==> s.withdraw_guarantee_result(
                ctx,
                nft_contract_id,
                token_id,
            ) is Err
        }),
{
}

/// A liquidation succeeds only with one yoctoNEAR attached, by the offer's
/// owner and nobody else, for a lent offer, strictly after the loan's end;
/// the whole guarantee goes to the owner and the offer is waiting again,
/// its terms kept.
pub proof fn law_liquidate_guards(
    s: ContractView,
    ctx: CallContextView,
    nft_contract_id: Seq<char>,
    token_id: Seq<char>,
)
    ensures
        s.liquidate_result(ctx, nft_contract_id, token_id) matches Ok((t, transfer)) ==> {
            let key = offer_key(nft_contract_id, token_id);
            let before = s.offers[key];
            let after = t.offers[key];
            &&& ctx.attached_deposit == 1
            &&& s.offers.contains_key(key)
            &&& ctx.predecessor_id == before.owner_id
            &&& before.status == status_on_rent()
            &&& before.lending_expiry matches Some(end) && ctx.block_timestamp > end
            &&& transfer.receiver_id == before.owner_id
            &&& transfer.amount == before.guarantee
            &&& after.status == status_offer()
            &&& after.lending_start is None && after.lending_expiry is None && after.user_rights is None
            &&& after.rent == before.rent && after.guarantee == before.guarantee && after.max_duration
                == before.max_duration && after.owner_id == before.owner_id
        },
        ({
            let key = offer_key(nft_contract_id, token_id);
            s.offers.contains_key(key) && ctx.predecessor_id != s.offers[key].owner_id
                ==> s.liquidate_result(ctx, nft_contract_id, token_id) is Err
        }),
{
}

/// A storage payment succeeds only with at least one offer's storage
/// attached; a storage withdrawal only with one yoctoNEAR attached. Neither
/// touches the offers.
pub proof fn law_storage_guards(s: ContractView, ctx: CallContextView, account_id: Option<Seq<char>>)
    ensures
        s.storage_deposit_result(ctx, account_id) matches Ok(t) ==> ctx.attached_deposit >= STORAGE_PER_OFFER
            && t.offers == s.offers,
        s.storage_withdraw_result(ctx) matches Ok((t, _)) ==> ctx.attached_deposit == 1 && t.offers == s.offers,
{
}


/// Which refusal a call meets first: calls that need one yoctoNEAR refuse
/// any other deposit; with it, a call on a key that holds no offer is
/// refused for that; loan notices from any account but the shop's token
/// contract are refused before anything else; an approval sent by the
/// signer itself is refused first; a storage payment below one offer's
/// storage is refused.
pub proof fn law_refusal_reasons(
    s: ContractView,
    ctx: CallContextView,
    nft_contract_id: Seq<char>,
    token_id: Seq<char>,
    owner_id: Seq<char>,
    approval_id: u64,
    args: Option<OfferArgs>,
    rent: u64,
    guarantee: u64,
    max_duration: u64,
    sender_id: Seq<char>,
    amount: u128,
    borrow: Option<BorrowArgsView>,
    account_id: Option<Seq<char>>,
)
    ensures
        ctx.attached_deposit != 1 ==> {
            &&& s.remove_offer_result(ctx, nft_contract_id, token_id) == Err::<ContractView, ContractError>(
                ContractError::RequiresOneYocto,
            )
            &&& s.update_offer_result(ctx, nft_contract_id, token_id, rent, guarantee, max_duration) == Err::<
                ContractView,
                ContractError,
            >(ContractError::RequiresOneYocto)
            &&& s.withdraw_guarantee_result(ctx, nft_contract_id, token_id) matches Err(e) && e
                == ContractError::RequiresOneYocto
            &&& s.liquidate_result(ctx, nft_contract_id, token_id) matches Err(e) && e
                == ContractError::RequiresOneYocto
            &&& s.storage_withdraw_result(ctx) matches Err(e) && e == ContractError::RequiresOneYocto
        },
        ctx.attached_deposit == 1 && !s.offers.contains_key(offer_key(nft_contract_id, token_id)) ==> {
            &&& s.remove_offer_result(ctx, nft_contract_id, token_id) == Err::<ContractView, ContractError>(
                ContractError::NoOffer,
            )
            &&& s.update_offer_result(ctx, nft_contract_id, token_id, rent, guarantee, max_duration) == Err::<
                ContractView,
                ContractError,
            >(ContractError::NoOffer)
            &&& s.withdraw_guarantee_result(ctx, nft_contract_id, token_id) matches Err(e) && e
                == ContractError::NoOffer
            &&& s.liquidate_result(ctx, nft_contract_id, token_id) matches Err(e) && e == ContractError::NoOffer
        },
        ctx.predecessor_id != s.ft_contract_id ==> s.ft_on_transfer_result(ctx, sender_id, amount, borrow)
            == Err::<ContractView, ContractError>(ContractError::NotTokenContract),
        ctx.predecessor_id == s.ft_contract_id && borrow is None ==> s.ft_on_transfer_result(
            ctx,
            sender_id,
            amount,
            borrow,
        ) == Err::<ContractView, ContractError>(ContractError::InvalidArgs),
        ctx.predecessor_id == s.ft_contract_id && borrow is Some && !s.offers.contains_key(
            offer_key(borrow->Some_0.nft_contract, borrow->Some_0.token_id),
        ) ==> s.ft_on_transfer_result(ctx, sender_id, amount, borrow) == Err::<ContractView, ContractError>(
            ContractError::OfferNotAvailable,
        ),
        ctx.predecessor_id == ctx.signer_id ==> s.nft_on_approve_result(
            ctx,
            token_id,
            owner_id,
            approval_id,
            args,
        ) == Err::<ContractView, ContractError>(ContractError::NotCrossContractCall),
        ctx.predecessor_id != ctx.signer_id && owner_id != ctx.signer_id ==> s.nft_on_approve_result(
            ctx,
            token_id,
            owner_id,
            approval_id,
            args,
        ) == Err::<ContractView, ContractError>(ContractError::OwnerNotSigner),
        ctx.attached_deposit < STORAGE_PER_OFFER ==> s.storage_deposit_result(ctx, account_id) == Err::<
            ContractView,
            ContractError,
        >(ContractError::DepositTooSmall),
{
}

} // verus!
