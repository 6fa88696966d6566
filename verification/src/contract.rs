//! The shop: offers, the indexes by owner and by NFT contract, and the storage
//! deposits that owners pay for their offers.
//!
//! Every entry point takes the caller's context (who calls, what is attached,
//! the block time) as a value, and either returns the new state with the
//! transfers to make, or an error with the state unchanged: a failed call on
//! chain leaves no trace in the state.

use vstd::prelude::*;
use crate::offer::{
    BorrowArgs, Offer, OfferArgs, OfferView, offer_status, on_rent_status, opt_string_view, status_offer,
    status_on_rent,
};
use crate::storage::STORAGE_PER_OFFER;
use crate::str_map::{StrMap, entries_map};
use crate::str_set::{
    StrSet, lemma_ordered_set_of, ordered_set_of, seq_page, seq_set_insert, seq_set_remove, strings_view,
};

verus! {

/// Nanoseconds per second: block time counts nanoseconds, loans count seconds.
pub const NANOS_PER_SECOND: u64 = 1_000_000_000u64;

/// What a fungible-token transfer made by the shop attaches: one yoctoNEAR.
pub const FT_TRANSFER_DEPOSIT: u128 = 1u128;

/// The gas given to each fungible-token transfer made by the shop.
pub const GAS_FOR_FT_TRANSFER: u64 = 50_000_000_000_000u64;

/// Why a call is refused.
#[derive(Debug, Clone, PartialEq, Eq)]
pub enum ContractError {
    /// The message does not hold valid offer or borrow arguments.
    InvalidArgs,
    /// A transfer notice came from an account other than the shop's token contract.
    NotTokenContract,
    /// A borrower asked for an offer that the shop does not hold.
    OfferNotAvailable,
    /// The offer is not in the state that the call needs.
    InvalidOfferState,
    /// The loan asked for is not shorter than the offer's maximum duration.
    InvalidExpiry,
    /// The amount transferred is not the offer's guarantee.
    InvalidTransferAmount,
    /// An approval came directly from the signer rather than from an NFT contract.
    NotCrossContractCall,
    /// The owner named in an approval is not the signer.
    OwnerNotSigner,
    /// The owner has not paid storage for one more offer.
    InsufficientStorage { paid: u128, required: u128 },
    /// The token is already on offer.
    OfferAlreadyAvailable,
    /// No offer for that NFT contract and token.
    NoOffer,
    /// The owner index has no entry for the offer's owner.
    NoOfferByOwner,
    /// The NFT contract index has no entry for the contract.
    NoOfferByNftContract,
    /// A storage deposit below the cost of one offer.
    DepositTooSmall,
    /// The call must carry exactly one yoctoNEAR.
    RequiresOneYocto,
    /// Only the offer's owner may update or remove it.
    MustBeOfferOwner,
    /// Only the offer's owner may liquidate it.
    OnlyOwner,
    /// Only the borrower may return the token.
    OnlyUser,
    /// The loan has ended: the guarantee can no longer be withdrawn.
    ContractExpired,
    /// The loan has not ended yet: it cannot be liquidated.
    NotExpiredYet,
    /// A lent offer lacks its borrower, start or end.
    MissingLendingTerm,
    /// An amount or a time does not fit its integer type.
    ArithmeticOverflow,
    /// An index lists an offer that the shop does not hold.
    StaleIndex,
}

/// Who calls, with what attached, and when.
#[derive(Debug, Clone)]
pub struct CallContext {
    /// The account that made the call (the NFT contract for an approval,
    /// the token contract for a transfer).
    pub predecessor_id: String,
    /// The account that signed the transaction.
    pub signer_id: String,
    /// yoctoNEAR attached to the call.
    pub attached_deposit: u128,
    /// Block time in nanoseconds.
    pub block_timestamp: u64,
}

pub struct CallContextView {
    pub predecessor_id: Seq<char>,
    pub signer_id: Seq<char>,
    pub attached_deposit: u128,
    pub block_timestamp: u64,
}

impl View for CallContext {
    type V = CallContextView;

    open spec fn view(&self) -> CallContextView {
        CallContextView {
            predecessor_id: self.predecessor_id@,
            signer_id: self.signer_id@,
            attached_deposit: self.attached_deposit,
            block_timestamp: self.block_timestamp,
        }
    }
}

pub struct BorrowArgsView {
    pub nft_contract: Seq<char>,
    pub token_id: Seq<char>,
    pub expiry: u64,
}

impl View for BorrowArgs {
    type V = BorrowArgsView;

    open spec fn view(&self) -> BorrowArgsView {
        BorrowArgsView { nft_contract: self.nft_contract@, token_id: self.token_id@, expiry: self.expiry }
    }
}

pub open spec fn opt_borrow_view(a: Option<BorrowArgs>) -> Option<BorrowArgsView> {
    match a {
        Some(b) => Some(b@),
        None => None,
    }
}

/// A call `ft_transfer(receiver_id, amount, memo)` on the token contract,
/// with `FT_TRANSFER_DEPOSIT` attached and `GAS_FOR_FT_TRANSFER` gas.
#[derive(Debug, Clone, PartialEq, Eq)]
pub struct FtTransfer {
    pub ft_contract_id: String,
    pub receiver_id: String,
    pub amount: u128,
    pub memo: String,
}

pub struct FtTransferView {
    pub ft_contract_id: Seq<char>,
    pub receiver_id: Seq<char>,
    pub amount: u128,
    pub memo: Seq<char>,
}

impl View for FtTransfer {
    type V = FtTransferView;

    open spec fn view(&self) -> FtTransferView {
        FtTransferView {
            ft_contract_id: self.ft_contract_id@,
            receiver_id: self.receiver_id@,
            amount: self.amount,
            memo: self.memo@,
        }
    }
}

/// A transfer of NEAR from the shop's account.
#[derive(Debug, Clone, PartialEq, Eq)]
pub struct NativeTransfer {
    pub receiver_id: String,
    pub amount: u128,
}

/// The shop's state, seen as maps.
pub struct ContractView {
    pub owner_id: Seq<char>,
    pub ft_contract_id: Seq<char>,
    /// Offers by the key `nft_contract_id + "." + token_id`.
    pub offers: Map<Seq<char>, OfferView>,
    /// For each owner, the keys of their offers, in the order that the index keeps.
    pub by_owner_id: Map<Seq<char>, Seq<Seq<char>>>,
    /// For each NFT contract, the token ids on offer, in the order that the index keeps.
    pub by_nft_contract_id: Map<Seq<char>, Seq<Seq<char>>>,
    /// yoctoNEAR paid for storage, by account.
    pub storage_deposits: Map<Seq<char>, u128>,
}

/// The key under which the offer for a token is held.
pub open spec fn offer_key(nft_contract_id: Seq<char>, token_id: Seq<char>) -> Seq<char> {
    nft_contract_id + seq!['.'] + token_id
}

/// The ordered set held under `k`, or the empty one.
pub open spec fn set_at(m: Map<Seq<char>, Seq<Seq<char>>>, k: Seq<char>) -> Seq<Seq<char>> {
    if m.contains_key(k) {
        m[k]
    } else {
        Seq::empty()
    }
}

/// An index after its set for `k` became `s`: an empty set is dropped.
pub open spec fn put_set(m: Map<Seq<char>, Seq<Seq<char>>>, k: Seq<char>, s: Seq<Seq<char>>) -> Map<
    Seq<char>,
    Seq<Seq<char>>,
> {
    if s.len() == 0 {
        m.remove(k)
    } else {
        m.insert(k, s)
    }
}

/// An offer with its loan cleared, back on offer.
pub open spec fn returned(o: OfferView) -> OfferView {
    OfferView {
        status: status_offer(),
        lending_start: None,
        lending_expiry: None,
        user_rights: None,
        ..o
    }
}

pub open spec fn ft_transfer_view(
    ft: Seq<char>,
    receiver: Seq<char>,
    amount: u128,
    memo: Seq<char>,
) -> FtTransferView {
    FtTransferView { ft_contract_id: ft, receiver_id: receiver, amount, memo }
}

/// The memo of the transfers that settle a returned token.
pub open spec fn memo_withdraw() -> Seq<char> {
    seq!['w', 'i', 't', 'h', 'd', 'r', 'a', 'w', ' ', 'g', 'u', 'a', 'r', 'a', 'n', 't', 'e', 'e']
}

/// The memo of the transfer that pays a liquidated guarantee.
pub open spec fn memo_liquidate() -> Seq<char> {
    seq!['l', 'i', 'q', 'u', 'i', 'd', 'a', 't', 'e']
}

/// What the owner gets of the guarantee after `days` seconds of rent:
/// the rent owed, but never more than the guarantee.
pub open spec fn owner_share(rent: u64, days: u64, guarantee: u64) -> int {
    if rent * days > guarantee {
        guarantee as int
    } else {
        rent * days
    }
}

impl ContractView {
    pub open spec fn empty(owner_id: Seq<char>, ft_contract_id: Seq<char>) -> ContractView {
        ContractView {
            owner_id,
            ft_contract_id,
            offers: Map::empty(),
            by_owner_id: Map::empty(),
            by_nft_contract_id: Map::empty(),
            storage_deposits: Map::empty(),
        }
    }

    /// Storage paid by an account; zero for one that never paid.
    pub open spec fn balance_of(self, account: Seq<char>) -> u128 {
        if self.storage_deposits.contains_key(account) {
            self.storage_deposits[account]
        } else {
            0
        }
    }

    /// How many offers the owner index lists for an account.
    pub open spec fn supply_by_owner(self, account: Seq<char>) -> nat {
        set_at(self.by_owner_id, account).len()
    }

    /// How many tokens the NFT contract index lists for a contract.
    pub open spec fn supply_by_nft_contract(self, nft_contract_id: Seq<char>) -> nat {
        set_at(self.by_nft_contract_id, nft_contract_id).len()
    }

    /// An approval from an NFT contract: the token goes on offer on the terms in `args`.
    pub open spec fn nft_on_approve_result(
        self,
        ctx: CallContextView,
        token_id: Seq<char>,
        owner_id: Seq<char>,
        approval_id: u64,
        args: Option<OfferArgs>,
    ) -> Result<ContractView, ContractError> {
        let nft = ctx.predecessor_id;
        let signer = ctx.signer_id;
        let paid = self.balance_of(signer);
        let required = (self.supply_by_owner(signer) + 1) * STORAGE_PER_OFFER;
        let key = offer_key(nft, token_id);
        if nft == signer {
            Err(ContractError::NotCrossContractCall)
        } else if owner_id != signer {
            Err(ContractError::OwnerNotSigner)
        } else if required > u128::MAX {
            Err(ContractError::ArithmeticOverflow)
        } else if paid < required {
            Err(ContractError::InsufficientStorage { paid, required: required as u128 })
        } else if args is None {
            Err(ContractError::InvalidArgs)
        } else if self.offers.contains_key(key) {
            Err(ContractError::OfferAlreadyAvailable)
        } else {
            let a = args->Some_0;
            let offer = OfferView {
                owner_id,
                approval_id,
                nft_contract_id: nft,
                token_id,
                status: status_offer(),
                rent: a.rent,
                guarantee: a.guarantee,
                max_duration: a.max_duration,
                lending_start: None,
                lending_expiry: None,
                user_rights: None,
            };
            Ok(
                ContractView {
                    offers: self.offers.insert(key, offer),
                    by_owner_id: self.by_owner_id.insert(
                        owner_id,
                        seq_set_insert(set_at(self.by_owner_id, owner_id), key),
                    ),
                    by_nft_contract_id: self.by_nft_contract_id.insert(
                        nft,
                        seq_set_insert(set_at(self.by_nft_contract_id, nft), token_id),
                    ),
                    ..self
                },
            )
        }
    }

    /// The shop's token contract reports that a borrower paid `amount` of the
    /// token to borrow an offer on `args`. Notices from any other account are
    /// refused: a loan is paid in the shop's token only.
    pub open spec fn ft_on_transfer_result(
        self,
        ctx: CallContextView,
        sender_id: Seq<char>,
        amount: u128,
        args: Option<BorrowArgsView>,
    ) -> Result<ContractView, ContractError> {
        if ctx.predecessor_id != self.ft_contract_id {
            Err(ContractError::NotTokenContract)
        } else if args is None {
            Err(ContractError::InvalidArgs)
        } else {
            let a = args->Some_0;
            let key = offer_key(a.nft_contract, a.token_id);
            let o = self.offers[key];
            let now = ctx.block_timestamp;
            let length = a.expiry * NANOS_PER_SECOND;
            if !self.offers.contains_key(key) {
                Err(ContractError::OfferNotAvailable)
            } else if o.status != status_offer() {
                Err(ContractError::InvalidOfferState)
            } else if !(a.expiry < o.max_duration) {
                Err(ContractError::InvalidExpiry)
            } else if o.guarantee != amount {
                Err(ContractError::InvalidTransferAmount)
            } else if length > u64::MAX || now + length > u64::MAX {
                Err(ContractError::ArithmeticOverflow)
            } else {
                let lent = OfferView {
                    status: status_on_rent(),
                    lending_start: Some(now),
                    lending_expiry: Some((now + length) as u64),
                    user_rights: Some(sender_id),
                    ..o
                };
                Ok(ContractView { offers: self.offers.insert(key, lent), ..self })
            }
        }
    }

    /// The offer for a token is taken out of the shop and out of both indexes.
    pub open spec fn remove_offer_internal(self, nft_contract_id: Seq<char>, token_id: Seq<char>) -> Result<
        (ContractView, OfferView),
        ContractError,
    > {
        let key = offer_key(nft_contract_id, token_id);
        let o = self.offers[key];
        if !self.offers.contains_key(key) {
            Err(ContractError::NoOffer)
        } else if !self.by_owner_id.contains_key(o.owner_id) {
            Err(ContractError::NoOfferByOwner)
        } else if !self.by_nft_contract_id.contains_key(nft_contract_id) {
            Err(ContractError::NoOfferByNftContract)
        } else {
            Ok(
                (
                    ContractView {
                        offers: self.offers.remove(key),
                        by_owner_id: put_set(
                            self.by_owner_id,
                            o.owner_id,
                            seq_set_remove(self.by_owner_id[o.owner_id], key),
                        ),
                        by_nft_contract_id: put_set(
                            self.by_nft_contract_id,
                            nft_contract_id,
                            seq_set_remove(self.by_nft_contract_id[nft_contract_id], token_id),
                        ),
                        ..self
                    },
                    o,
                ),
            )
        }
    }

    /// The owner withdraws an offer that is not lent.
    pub open spec fn remove_offer_result(
        self,
        ctx: CallContextView,
        nft_contract_id: Seq<char>,
        token_id: Seq<char>,
    ) -> Result<ContractView, ContractError> {
        let key = offer_key(nft_contract_id, token_id);
        if ctx.attached_deposit != 1 {
            Err(ContractError::RequiresOneYocto)
        } else if !self.offers.contains_key(key) {
            Err(ContractError::NoOffer)
        } else if self.offers[key].status != status_offer() {
            Err(ContractError::InvalidOfferState)
        } else {
            match self.remove_offer_internal(nft_contract_id, token_id) {
                Err(e) => Err(e),
                Ok((s, o)) => if ctx.predecessor_id != o.owner_id {
                    Err(ContractError::MustBeOfferOwner)
                } else {
                    Ok(s)
                },
            }
        }
    }

    /// The owner changes the terms of an offer that is not lent.
    pub open spec fn update_offer_result(
        self,
        ctx: CallContextView,
        nft_contract_id: Seq<char>,
        token_id: Seq<char>,
        rent: u64,
        guarantee: u64,
        max_duration: u64,
    ) -> Result<ContractView, ContractError> {
        let key = offer_key(nft_contract_id, token_id);
        let o = self.offers[key];
        if ctx.attached_deposit != 1 {
            Err(ContractError::RequiresOneYocto)
        } else if !self.offers.contains_key(key) {
            Err(ContractError::NoOffer)
        } else if ctx.predecessor_id != o.owner_id {
            Err(ContractError::MustBeOfferOwner)
        } else if o.status != status_offer() {
            Err(ContractError::InvalidOfferState)
        } else {
            Ok(
                ContractView {
                    offers: self.offers.insert(key, OfferView { rent, guarantee, max_duration, ..o }),
                    ..self
                },
            )
        }
    }

    /// The borrower returns the token before the loan ends: the owner gets the
    /// rent owed (at most the guarantee) and the borrower the rest.
    pub open spec fn withdraw_guarantee_result(
        self,
        ctx: CallContextView,
        nft_contract_id: Seq<char>,
        token_id: Seq<char>,
    ) -> Result<(ContractView, Seq<FtTransferView>), ContractError> {
        let key = offer_key(nft_contract_id, token_id);
        let o = self.offers[key];
        let now = ctx.block_timestamp;
        if ctx.attached_deposit != 1 {
            Err(ContractError::RequiresOneYocto)
        } else if !self.offers.contains_key(key) {
            Err(ContractError::NoOffer)
        } else if o.status != status_on_rent() {
            Err(ContractError::InvalidOfferState)
        } else if o.user_rights is None {
            Err(ContractError::MissingLendingTerm)
        } else if ctx.predecessor_id != o.user_rights->Some_0 {
            Err(ContractError::OnlyUser)
        } else if o.lending_expiry is None {
            Err(ContractError::MissingLendingTerm)
        } else if !(now < o.lending_expiry->Some_0) {
            Err(ContractError::ContractExpired)
        } else if o.lending_start is None {
            Err(ContractError::MissingLendingTerm)
        } else if now < o.lending_start->Some_0 {
            Err(ContractError::ArithmeticOverflow)
        } else {
            let days = ((now - o.lending_start->Some_0) / (NANOS_PER_SECOND as int)) as u64;
            let to_owner = owner_share(o.rent, days, o.guarantee);
            let to_user = o.guarantee - to_owner;
            Ok(
                (
                    ContractView { offers: self.offers.insert(key, returned(o)), ..self },
                    seq![
                        ft_transfer_view(self.ft_contract_id, o.owner_id, to_owner as u128, memo_withdraw()),
                        ft_transfer_view(
                            self.ft_contract_id,
                            o.user_rights->Some_0,
                            to_user as u128,
                            memo_withdraw(),
                        ),
                    ],
                ),
            )
        }
    }

    /// The owner takes the whole guarantee of a loan that has ended.
    pub open spec fn liquidate_result(
        self,
        ctx: CallContextView,
        nft_contract_id: Seq<char>,
        token_id: Seq<char>,
    ) -> Result<(ContractView, FtTransferView), ContractError> {
        let key = offer_key(nft_contract_id, token_id);
        let o = self.offers[key];
        if ctx.attached_deposit != 1 {
            Err(ContractError::RequiresOneYocto)
        } else if !self.offers.contains_key(key) {
            Err(ContractError::NoOffer)
        } else if o.status != status_on_rent() {
            Err(ContractError::InvalidOfferState)
        } else if ctx.predecessor_id != o.owner_id {
            Err(ContractError::OnlyOwner)
        } else if o.lending_expiry is None {
            Err(ContractError::MissingLendingTerm)
        } else if !(ctx.block_timestamp > o.lending_expiry->Some_0) {
            Err(ContractError::NotExpiredYet)
        } else {
            Ok(
                (
                    ContractView { offers: self.offers.insert(key, returned(o)), ..self },
                    ft_transfer_view(
                        self.ft_contract_id,
                        o.owner_id,
                        o.guarantee as u128,
                        memo_liquidate(),
                    ),
                ),
            )
        }
    }

    /// A storage payment for `account_id`, or for the caller when none is named.
    pub open spec fn storage_deposit_result(self, ctx: CallContextView, account_id: Option<Seq<char>>) -> Result<
        ContractView,
        ContractError,
    > {
        let account = match account_id {
            Some(a) => a,
            None => ctx.predecessor_id,
        };
        let balance = self.balance_of(account) + ctx.attached_deposit;
        if ctx.attached_deposit < STORAGE_PER_OFFER {
            Err(ContractError::DepositTooSmall)
        } else if balance > u128::MAX {
            Err(ContractError::ArithmeticOverflow)
        } else {
            Ok(
                ContractView {
                    storage_deposits: self.storage_deposits.insert(account, balance as u128),
                    ..self
                },
            )
        }
    }

    /// The caller takes back what they paid for storage beyond what their
    /// offers use; what their offers use stays deposited.
    pub open spec fn storage_withdraw_result(self, ctx: CallContextView) -> Result<
        (ContractView, Option<(Seq<char>, u128)>),
        ContractError,
    > {
        let account = ctx.predecessor_id;
        let amount = self.balance_of(account);
        let used = self.supply_by_owner(account) * STORAGE_PER_OFFER;
        if ctx.attached_deposit != 1 {
            Err(ContractError::RequiresOneYocto)
        } else if used > u128::MAX || amount < used {
            Err(ContractError::ArithmeticOverflow)
        } else {
            let excess = (amount - used) as u128;
            let deposits = if used > 0 {
                self.storage_deposits.insert(account, used as u128)
            } else {
                self.storage_deposits.remove(account)
            };
            Ok(
                (
                    ContractView { storage_deposits: deposits, ..self },
                    if excess > 0 {
                        Some((account, excess))
                    } else {
                        None
                    },
                ),
            )
        }
    }

    /// The offers listed under `keys`, if the shop holds each of them.
    pub open spec fn offers_at(self, keys: Seq<Seq<char>>) -> Option<Seq<OfferView>> {
        if forall|i: int| 0 <= i < keys.len() ==> self.offers.contains_key(#[trigger] keys[i]) {
            Some(keys.map_values(|k: Seq<char>| self.offers[k]))
        } else {
            None
        }
    }
}


pub open spec fn native_transfer_view(t: Option<NativeTransfer>) -> Option<(Seq<char>, u128)> {
    match t {
        Some(n) => Some((n.receiver_id@, n.amount)),
        None => None,
    }
}

pub open spec fn unwrap_or_zero_u128(x: Option<u128>) -> u128 {
    match x {
        Some(v) => v,
        None => 0,
    }
}

pub open spec fn unwrap_or_zero_u64(x: Option<u64>) -> u64 {
    match x {
        Some(v) => v,
        None => 0,
    }
}

/// The keys of the offers for the given tokens of one NFT contract.
pub open spec fn keys_for_tokens(nft_contract_id: Seq<char>, tokens: Seq<Seq<char>>) -> Seq<Seq<char>> {
    tokens.map_values(|t: Seq<char>| offer_key(nft_contract_id, t))
}

/// The key under which the offer for a token is held.
pub fn offer_key_of(nft_contract_id: &String, token_id: &String) -> (key: String)
    ensures
        key@ == offer_key(nft_contract_id@, token_id@),
{
    let mut key = nft_contract_id.clone();
    key.append(".");
    key.append(token_id.as_str());
    proof {
        reveal_strlit(".");
    }
    key
}

pub struct Contract {
    /// The account that set up the shop.
    pub owner_id: String,
    offers: StrMap<Offer>,
    by_owner_id: StrMap<StrSet>,
    by_nft_contract_id: StrMap<StrSet>,
    storage_deposits: StrMap<u128>,
    /// The fungible token in which rents and guarantees are paid.
    pub ft_contract_id: String,
}

impl View for Contract {
    type V = ContractView;

    closed spec fn view(&self) -> ContractView {
        ContractView {
            owner_id: self.owner_id@,
            ft_contract_id: self.ft_contract_id@,
            offers: self.offers.spec_map(),
            by_owner_id: self.by_owner_id.spec_map(),
            by_nft_contract_id: self.by_nft_contract_id.spec_map(),
            storage_deposits: self.storage_deposits.spec_map(),
        }
    }
}

/// Every set in an index holds each element once.
pub open spec fn sets_wf(m: Map<Seq<char>, Seq<Seq<char>>>) -> bool {
    forall|k: Seq<char>| #[trigger] m.contains_key(k) ==> m[k].no_duplicates()
}

impl Contract {
    /// The maps are well formed and every indexed set holds each element once.
    pub closed spec fn wf(&self) -> bool {
        &&& self.offers.wf()
        &&& self.by_owner_id.wf()
        &&& self.by_nft_contract_id.wf()
        &&& self.storage_deposits.wf()
        &&& sets_wf(self.by_owner_id.spec_map())
        &&& sets_wf(self.by_nft_contract_id.spec_map())
    }

    /// What a well-formed shop guarantees of its view: every map holds
    /// finitely many keys, and no index set holds an element twice.
    pub proof fn lemma_wf_view(&self)
        requires
            self.wf(),
        ensures
            self@.offers.dom().finite(),
            self@.by_owner_id.dom().finite(),
            self@.by_nft_contract_id.dom().finite(),
            self@.storage_deposits.dom().finite(),
            sets_wf(self@.by_owner_id),
            sets_wf(self@.by_nft_contract_id),
    {
        self.offers.lemma_finite();
        self.by_owner_id.lemma_finite();
        self.by_nft_contract_id.lemma_finite();
        self.storage_deposits.lemma_finite();
    }

    pub fn new(owner_id: String, ft_contract_id: String) -> (c: Contract)
        ensures
            c.wf(),
            c@ == ContractView::empty(owner_id@, ft_contract_id@),
    {
        Contract {
            owner_id,
            offers: StrMap::new(),
            by_owner_id: StrMap::new(),
            by_nft_contract_id: StrMap::new(),
            storage_deposits: StrMap::new(),
            ft_contract_id,
        }
    }

    fn balance(&self, account: &String) -> (b: u128)
        requires
            self.wf(),
        ensures
            b == self@.balance_of(account@),
    {
        match self.storage_deposits.get(account) {
            Some(b) => *b,
            None => 0,
        }
    }

    fn owned_count(&self, account: &String) -> (n: usize)
        requires
            self.wf(),
        ensures
            n == self@.supply_by_owner(account@),
    {
        match self.by_owner_id.get(account) {
            Some(s) => s.len(),
            None => 0,
        }
    }

    /// Pays for storage, for `account_id` or for the caller.
    pub fn storage_deposit(&mut self, ctx: &CallContext, account_id: Option<String>) -> (r: Result<
        (),
        ContractError,
    >)
        requires
            old(self).wf(),
        ensures
            final(self).wf(),
            match old(self)@.storage_deposit_result(ctx@, opt_string_view(account_id)) {
                Ok(s) => r is Ok && final(self)@ == s,
                Err(e) => r == Err::<(), ContractError>(e) && final(self)@ == old(self)@,
            },
    {
        let account = match account_id {
            Some(a) => a,
            None => ctx.predecessor_id.clone(),
        };
        if ctx.attached_deposit < STORAGE_PER_OFFER {
            return Err(ContractError::DepositTooSmall);
        }
        let balance = self.balance(&account);
        match balance.checked_add(ctx.attached_deposit) {
            Some(total) => {
                self.storage_deposits.insert(account, total);
                Ok(())
            },
            None => Err(ContractError::ArithmeticOverflow),
        }
    }

    /// Gives the caller back what they paid for storage beyond what their
    /// offers use.
    pub fn storage_withdraw(&mut self, ctx: &CallContext) -> (r: Result<Option<NativeTransfer>, ContractError>)
        requires
            old(self).wf(),
        ensures
            final(self).wf(),
            match old(self)@.storage_withdraw_result(ctx@) {
                Ok((s, t)) => r is Ok && final(self)@ == s && native_transfer_view(r->Ok_0) == t,
                Err(e) => r matches Err(e2) && e2 == e && final(self)@ == old(self)@,
            },
    {
        if ctx.attached_deposit != 1 {
            return Err(ContractError::RequiresOneYocto);
        }
        let account = &ctx.predecessor_id;
        let amount = self.balance(account);
        let count = self.owned_count(account) as u128;
        let used = match count.checked_mul(STORAGE_PER_OFFER) {
            Some(u) => u,
            None => {
                return Err(ContractError::ArithmeticOverflow);
            },
        };
        if amount < used {
            return Err(ContractError::ArithmeticOverflow);
        }
        let ghost before = self.storage_deposits.spec_map();
        self.storage_deposits.remove(account);
        if used > 0 {
            self.storage_deposits.insert(account.clone(), used);
            assert(self.storage_deposits.spec_map() =~= before.insert(account@, used));
        }
        let excess = amount - used;
        if excess > 0 {
            Ok(Some(NativeTransfer { receiver_id: account.clone(), amount: excess }))
        } else {
            Ok(None)
        }
    }

    /// What one offer costs in storage deposit.
    pub fn storage_minimum_balance(&self) -> (b: u128)
        ensures
            b == STORAGE_PER_OFFER,
    {
        STORAGE_PER_OFFER
    }

    /// What an account has paid for storage.
    pub fn storage_balance_of(&self, account_id: &String) -> (b: u128)
        requires
            self.wf(),
        ensures
            b == self@.balance_of(account_id@),
    {
        self.balance(account_id)
    }
}


impl Contract {
    /// Adds `x` to the set that `index` holds under `k`, creating the set if needed.
    fn index_insert(index: &mut StrMap<StrSet>, k: String, x: String)
        requires
            old(index).wf(),
            sets_wf(old(index).spec_map()),
        ensures
            final(index).wf(),
            sets_wf(final(index).spec_map()),
            final(index).spec_map() == old(index).spec_map().insert(
                k@,
                seq_set_insert(set_at(old(index).spec_map(), k@), x@),
            ),
    {
        let ghost kv = k@;
        let mut set = match index.remove(&k) {
            Some(s) => s,
            None => StrSet::new(),
        };
        set.insert(x);
        index.insert(k, set);
        assert(index.spec_map() =~= old(index).spec_map().insert(
            kv,
            seq_set_insert(set_at(old(index).spec_map(), kv), x@),
        ));
    }

    /// Takes `x` out of the set that `index` holds under `k`, dropping the set
    /// when it becomes empty.
    fn index_remove(index: &mut StrMap<StrSet>, k: &String, x: &String)
        requires
            old(index).wf(),
            sets_wf(old(index).spec_map()),
            old(index).spec_map().contains_key(k@),
        ensures
            final(index).wf(),
            sets_wf(final(index).spec_map()),
            final(index).spec_map() == put_set(
                old(index).spec_map(),
                k@,
                seq_set_remove(old(index).spec_map()[k@], x@),
            ),
    {
        let ghost kv = k@;
        match index.remove(k) {
            Some(set) => {
                let mut set = set;
                set.remove(x);
                if !set.is_empty() {
                    index.insert(k.clone(), set);
                }
                assert(index.spec_map() =~= put_set(
                    old(index).spec_map(),
                    kv,
                    seq_set_remove(old(index).spec_map()[kv], x@),
                ));
            },
            None => {},
        }
    }

    /// An NFT contract tells the shop that `owner_id` approved it for
    /// `token_id`: the token goes on offer on the terms in `args` (`None`
    /// when the message did not hold valid terms).
    pub fn nft_on_approve(
        &mut self,
        ctx: &CallContext,
        token_id: String,
        owner_id: String,
        approval_id: u64,
        args: Option<OfferArgs>,
    ) -> (r: Result<(), ContractError>)
        requires
            old(self).wf(),
        ensures
            final(self).wf(),
            match old(self)@.nft_on_approve_result(ctx@, token_id@, owner_id@, approval_id, args) {
                Ok(s) => r is Ok && final(self)@ == s,
                Err(e) => r == Err::<(), ContractError>(e) && final(self)@ == old(self)@,
            },
    {
        if ctx.predecessor_id == ctx.signer_id {
            return Err(ContractError::NotCrossContractCall);
        }
        if owner_id != ctx.signer_id {
            return Err(ContractError::OwnerNotSigner);
        }
        let paid = self.balance(&ctx.signer_id);
        let count = self.owned_count(&ctx.signer_id) as u128;
        let required = match (count + 1).checked_mul(STORAGE_PER_OFFER) {
            Some(r) => r,
            None => {
                return Err(ContractError::ArithmeticOverflow);
            },
        };
        if paid < required {
            return Err(ContractError::InsufficientStorage { paid, required });
        }
        let terms = match args {
            Some(a) => a,
            None => {
                return Err(ContractError::InvalidArgs);
            },
        };
        let key = offer_key_of(&ctx.predecessor_id, &token_id);
        if self.offers.contains_key(&key) {
            return Err(ContractError::OfferAlreadyAvailable);
        }
        let offer = Offer {
            owner_id: owner_id.clone(),
            approval_id,
            nft_contract_id: ctx.predecessor_id.clone(),
            token_id: token_id.clone(),
            status: offer_status(),
            rent: terms.rent,
            guarantee: terms.guarantee,
            max_duration: terms.max_duration,
            lending_start: None,
            lending_expiry: None,
            user_rights: None,
        };
        self.offers.insert(key.clone(), offer);
        Self::index_insert(&mut self.by_owner_id, owner_id, key);
        Self::index_insert(&mut self.by_nft_contract_id, ctx.predecessor_id.clone(), token_id);
        Ok(())
    }

    /// The token contract tells the shop that `sender_id` transferred
    /// `amount` to borrow the offer named in `args` (`None` when the message
    /// did not name one validly). Returns the amount to refund: none.
    pub fn ft_on_transfer(
        &mut self,
        ctx: &CallContext,
        sender_id: String,
        amount: u128,
        args: Option<BorrowArgs>,
    ) -> (r: Result<u128, ContractError>)
        requires
            old(self).wf(),
        ensures
            final(self).wf(),
            match old(self)@.ft_on_transfer_result(ctx@, sender_id@, amount, opt_borrow_view(args)) {
                Ok(s) => r == Ok::<u128, ContractError>(0) && final(self)@ == s,
                Err(e) => r == Err::<u128, ContractError>(e) && final(self)@ == old(self)@,
            },
    {
        if ctx.predecessor_id != self.ft_contract_id {
            return Err(ContractError::NotTokenContract);
        }
        let a = match args {
            Some(a) => a,
            None => {
                return Err(ContractError::InvalidArgs);
            },
        };
        let key = offer_key_of(&a.nft_contract, &a.token_id);
        let offer = match self.offers.get(&key) {
            Some(o) => o.copy(),
            None => {
                return Err(ContractError::OfferNotAvailable);
            },
        };
        if offer.status != offer_status() {
            return Err(ContractError::InvalidOfferState);
        }
        if !(a.expiry < offer.max_duration) {
            return Err(ContractError::InvalidExpiry);
        }
        if offer.guarantee as u128 != amount {
            return Err(ContractError::InvalidTransferAmount);
        }
        let now = ctx.block_timestamp;
        let length = match a.expiry.checked_mul(NANOS_PER_SECOND) {
            Some(l) => l,
            None => {
                return Err(ContractError::ArithmeticOverflow);
            },
        };
        let end = match now.checked_add(length) {
            Some(e) => e,
            None => {
                return Err(ContractError::ArithmeticOverflow);
            },
        };
        let mut lent = offer;
        lent.status = on_rent_status();
        lent.lending_start = Some(now);
        lent.lending_expiry = Some(end);
        lent.user_rights = Some(sender_id);
        self.offers.insert(key, lent);
        Ok(0)
    }

    /// Takes the offer for a token out of the shop and out of both indexes.
    pub(crate) fn internal_remove_offer(&mut self, nft_contract_id: &String, token_id: &String) -> (r:
        Result<Offer, ContractError>)
        requires
            old(self).wf(),
        ensures
            final(self).wf(),
            match old(self)@.remove_offer_internal(nft_contract_id@, token_id@) {
                Ok((s, o)) => r matches Ok(x) && x@ == o && final(self)@ == s,
                Err(e) => r matches Err(e2) && e2 == e && final(self)@ == old(self)@,
            },
    {
        let key = offer_key_of(nft_contract_id, token_id);
        let owner = match self.offers.get(&key) {
            Some(o) => o.owner_id.clone(),
            None => {
                return Err(ContractError::NoOffer);
            },
        };
        if !self.by_owner_id.contains_key(&owner) {
            return Err(ContractError::NoOfferByOwner);
        }
        if !self.by_nft_contract_id.contains_key(nft_contract_id) {
            return Err(ContractError::NoOfferByNftContract);
        }
        let offer = match self.offers.remove(&key) {
            Some(o) => o,
            None => {
                return Err(ContractError::NoOffer);
            },
        };
        Self::index_remove(&mut self.by_owner_id, &owner, &key);
        Self::index_remove(&mut self.by_nft_contract_id, nft_contract_id, token_id);
        Ok(offer)
    }

    /// The owner withdraws an offer that is not lent.
    pub fn remove_offer(&mut self, ctx: &CallContext, nft_contract_id: String, token_id: String) -> (r:
        Result<(), ContractError>)
        requires
            old(self).wf(),
        ensures
            final(self).wf(),
            match old(self)@.remove_offer_result(ctx@, nft_contract_id@, token_id@) {
                Ok(s) => r is Ok && final(self)@ == s,
                Err(e) => r == Err::<(), ContractError>(e) && final(self)@ == old(self)@,
            },
    {
        if ctx.attached_deposit != 1 {
            return Err(ContractError::RequiresOneYocto);
        }
        let key = offer_key_of(&nft_contract_id, &token_id);
        let owner = match self.offers.get(&key) {
            Some(o) => {
                if o.status != offer_status() {
                    return Err(ContractError::InvalidOfferState);
                }
                o.owner_id.clone()
            },
            None => {
                return Err(ContractError::NoOffer);
            },
        };
        if !self.by_owner_id.contains_key(&owner) {
            return Err(ContractError::NoOfferByOwner);
        }
        if !self.by_nft_contract_id.contains_key(&nft_contract_id) {
            return Err(ContractError::NoOfferByNftContract);
        }
        if ctx.predecessor_id != owner {
            return Err(ContractError::MustBeOfferOwner);
        }
        match self.internal_remove_offer(&nft_contract_id, &token_id) {
            Ok(_) => Ok(()),
            Err(e) => Err(e),
        }
    }

    /// The owner changes the rent, the guarantee and the maximum duration of
    /// an offer that is not lent.
    pub fn update_offer(
        &mut self,
        ctx: &CallContext,
        nft_contract_id: String,
        token_id: String,
        rent: u64,
        guarantee: u64,
        max_duration: u64,
    ) -> (r: Result<(), ContractError>)
        requires
            old(self).wf(),
        ensures
            final(self).wf(),
            match old(self)@.update_offer_result(
                ctx@,
                nft_contract_id@,
                token_id@,
                rent,
                guarantee,
                max_duration,
            ) {
                Ok(s) => r is Ok && final(self)@ == s,
                Err(e) => r == Err::<(), ContractError>(e) && final(self)@ == old(self)@,
            },
    {
        if ctx.attached_deposit != 1 {
            return Err(ContractError::RequiresOneYocto);
        }
        let key = offer_key_of(&nft_contract_id, &token_id);
        let mut offer = match self.offers.get(&key) {
            Some(o) => o.copy(),
            None => {
                return Err(ContractError::NoOffer);
            },
        };
        if ctx.predecessor_id != offer.owner_id {
            return Err(ContractError::MustBeOfferOwner);
        }
        if offer.status != offer_status() {
            return Err(ContractError::InvalidOfferState);
        }
        offer.rent = rent;
        offer.guarantee = guarantee;
        offer.max_duration = max_duration;
        self.offers.insert(key, offer);
        Ok(())
    }
}


pub open spec fn ft_transfers_view(v: Seq<FtTransfer>) -> Seq<FtTransferView> {
    v.map_values(|t: FtTransfer| t@)
}

pub open spec fn offers_view(v: Seq<Offer>) -> Seq<OfferView> {
    v.map_values(|o: Offer| o@)
}

/// Where a page of a set of `len` elements starts and how many elements it
/// holds, for a cursor `from` and a `limit` of any size.
fn page_bounds(len: usize, from: u128, limit: u64) -> (r: (usize, usize))
    ensures
        forall|s: Seq<Seq<char>>| s.len() == len ==> #[trigger] seq_page(s, r.0 as int, r.1 as int) == seq_page(
            s,
            from as int,
            limit as int,
        ),
{
    let start: usize = if from >= len as u128 {
        len
    } else {
        from as usize
    };
    let count: usize = if limit as u128 >= (len - start) as u128 {
        len - start
    } else {
        limit as usize
    };
    (start, count)
}

fn withdraw_memo() -> (m: String)
    ensures
        m@ == memo_withdraw(),
{
    let m = String::from_str("withdraw guarantee");
    proof {
        reveal_strlit("withdraw guarantee");
    }
    m
}

fn liquidate_memo() -> (m: String)
    ensures
        m@ == memo_liquidate(),
{
    let m = String::from_str("liquidate");
    proof {
        reveal_strlit("liquidate");
    }
    m
}

impl Contract {
    /// The borrower returns the token before the loan ends. The offer goes
    /// back on offer; the guarantee is split between the owner (the rent
    /// owed, at most the guarantee) and the borrower (the rest), by two
    /// transfers of the token made in that order.
    pub fn withdraw_guarantee(&mut self, ctx: &CallContext, nft_contract_id: String, token_id: String) -> (r:
        Result<Vec<FtTransfer>, ContractError>)
        requires
            old(self).wf(),
        ensures
            final(self).wf(),
            match old(self)@.withdraw_guarantee_result(ctx@, nft_contract_id@, token_id@) {
                Ok((s, t)) => r is Ok && final(self)@ == s && ft_transfers_view(r->Ok_0@) == t,
                Err(e) => r matches Err(e2) && e2 == e && final(self)@ == old(self)@,
            },
    {
        if ctx.attached_deposit != 1 {
            return Err(ContractError::RequiresOneYocto);
        }
        let key = offer_key_of(&nft_contract_id, &token_id);
        let mut offer = match self.offers.get(&key) {
            Some(o) => o.copy(),
            None => {
                return Err(ContractError::NoOffer);
            },
        };
        if offer.status != on_rent_status() {
            return Err(ContractError::InvalidOfferState);
        }
        let user = match &offer.user_rights {
            Some(u) => u.clone(),
            None => {
                return Err(ContractError::MissingLendingTerm);
            },
        };
        if ctx.predecessor_id != user {
            return Err(ContractError::OnlyUser);
        }
        let now = ctx.block_timestamp;
        let expiry = match offer.lending_expiry {
            Some(e) => e,
            None => {
                return Err(ContractError::MissingLendingTerm);
            },
        };
        if !(now < expiry) {
            return Err(ContractError::ContractExpired);
        }
        let start = match offer.lending_start {
            Some(s) => s,
            None => {
                return Err(ContractError::MissingLendingTerm);
            },
        };
        if now < start {
            return Err(ContractError::ArithmeticOverflow);
        }
        let days = (now - start) / NANOS_PER_SECOND;
        // the rent owed always fits in u128: both factors fit in u64
        let rent = offer.rent as u128;
        let secs = days as u128;
        assert(rent * secs <= u64::MAX as int * u64::MAX as int) by (nonlinear_arith)
            requires
                rent <= u64::MAX,
                secs <= u64::MAX,
        ;
        let owed: u128 = rent * secs;
        let to_owner: u64 = if owed > offer.guarantee as u128 {
            offer.guarantee
        } else {
            owed as u64
        };
        let to_user = offer.guarantee - to_owner;
        let owner = offer.owner_id.clone();
        offer.status = offer_status();
        offer.lending_start = None;
        offer.lending_expiry = None;
        offer.user_rights = None;
        self.offers.insert(key, offer);
        let mut transfers: Vec<FtTransfer> = Vec::new();
        transfers.push(
            FtTransfer {
                ft_contract_id: self.ft_contract_id.clone(),
                receiver_id: owner,
                amount: to_owner as u128,
                memo: withdraw_memo(),
            },
        );
        transfers.push(
            FtTransfer {
                ft_contract_id: self.ft_contract_id.clone(),
                receiver_id: user,
                amount: to_user as u128,
                memo: withdraw_memo(),
            },
        );
        assert(ft_transfers_view(transfers@) =~= old(self)@.withdraw_guarantee_result(
            ctx@,
            nft_contract_id@,
            token_id@,
        )->Ok_0.1);
        Ok(transfers)
    }

    /// The owner takes the whole guarantee of a loan that has ended; the
    /// offer goes back on offer.
    pub fn liquidate(&mut self, ctx: &CallContext, nft_contract_id: String, token_id: String) -> (r: Result<
        FtTransfer,
        ContractError,
    >)
        requires
            old(self).wf(),
        ensures
            final(self).wf(),
            match old(self)@.liquidate_result(ctx@, nft_contract_id@, token_id@) {
                Ok((s, t)) => r is Ok && final(self)@ == s && r->Ok_0@ == t,
                Err(e) => r matches Err(e2) && e2 == e && final(self)@ == old(self)@,
            },
    {
        if ctx.attached_deposit != 1 {
            return Err(ContractError::RequiresOneYocto);
        }
        let key = offer_key_of(&nft_contract_id, &token_id);
        let mut offer = match self.offers.get(&key) {
            Some(o) => o.copy(),
            None => {
                return Err(ContractError::NoOffer);
            },
        };
        if offer.status != on_rent_status() {
            return Err(ContractError::InvalidOfferState);
        }
        if ctx.predecessor_id != offer.owner_id {
            return Err(ContractError::OnlyOwner);
        }
        let expiry = match offer.lending_expiry {
            Some(e) => e,
            None => {
                return Err(ContractError::MissingLendingTerm);
            },
        };
        if !(ctx.block_timestamp > expiry) {
            return Err(ContractError::NotExpiredYet);
        }
        let owner = offer.owner_id.clone();
        let guarantee = offer.guarantee;
        offer.status = offer_status();
        offer.lending_start = None;
        offer.lending_expiry = None;
        offer.user_rights = None;
        self.offers.insert(key, offer);
        Ok(
            FtTransfer {
                ft_contract_id: self.ft_contract_id.clone(),
                receiver_id: owner,
                amount: guarantee as u128,
                memo: liquidate_memo(),
            },
        )
    }

    /// How many offers the shop holds.
    pub fn get_supply_offers(&self) -> (n: u64)
        requires
            self.wf(),
        ensures
            n == self@.offers.len(),
    {
        self.offers.len() as u64
    }

    /// How many offers the owner index lists for an account.
    pub fn get_supply_by_owner_id(&self, account_id: &String) -> (n: u64)
        requires
            self.wf(),
        ensures
            n == self@.supply_by_owner(account_id@),
    {
        self.owned_count(account_id) as u64
    }

    /// How many tokens the NFT contract index lists for a contract.
    pub fn get_supply_by_nft_contract_id(&self, nft_contract_id: &String) -> (n: u64)
        requires
            self.wf(),
        ensures
            n == self@.supply_by_nft_contract(nft_contract_id@),
    {
        match self.by_nft_contract_id.get(nft_contract_id) {
            Some(s) => s.len() as u64,
            None => 0,
        }
    }

    /// The offer held under a key `nft_contract_id + "." + token_id`.
    pub fn get_offer(&self, nft_contract_token: &String) -> (r: Option<Offer>)
        requires
            self.wf(),
        ensures
            match r {
                Some(o) => self@.offers.contains_key(nft_contract_token@) && o@ == self@.offers[nft_contract_token@],
                None => !self@.offers.contains_key(nft_contract_token@),
            },
    {
        match self.offers.get(nft_contract_token) {
            Some(o) => Some(o.copy()),
            None => None,
        }
    }

    /// The offers held under the given keys, in their order.
    fn collect_offers(&self, keys: &Vec<String>) -> (r: Result<Vec<Offer>, ContractError>)
        requires
            self.wf(),
        ensures
            match self@.offers_at(keys@.map_values(|k: String| k@)) {
                Some(v) => r is Ok && offers_view(r->Ok_0@) == v,
                None => r == Err::<Vec<Offer>, ContractError>(ContractError::StaleIndex),
            },
    {
        let ghost ks = keys@.map_values(|k: String| k@);
        let mut out: Vec<Offer> = Vec::new();
        let mut i: usize = 0;
        while i < keys.len()
            invariant
                0 <= i <= keys@.len(),
                ks == keys@.map_values(|k: String| k@),
                self.wf(),
                out@.len() == i,
                forall|j: int| 0 <= j < i ==> self@.offers.contains_key(#[trigger] ks[j]),
                forall|j: int| 0 <= j < i ==> (#[trigger] out@[j])@ == self@.offers[ks[j]],
            decreases keys@.len() - i,
        {
            match self.offers.get(&keys[i]) {
                Some(o) => out.push(o.copy()),
                None => {
                    assert(!self@.offers.contains_key(ks[i as int]));
                    return Err(ContractError::StaleIndex);
                },
            }
            i = i + 1;
        }
        assert(offers_view(out@) =~= ks.map_values(|k: Seq<char>| self@.offers[k]));
        Ok(out)
    }

    /// At most `limit` (none when absent) of the offers that the owner index
    /// lists for an account, from position `from_index` (0 when absent), in
    /// the index's order.
    pub fn get_offers_by_owner_id(&self, account_id: &String, from_index: Option<u128>, limit: Option<u64>) -> (r:
        Result<Vec<Offer>, ContractError>)
        requires
            self.wf(),
        ensures
            match self@.offers_at(
                seq_page(
                    set_at(self@.by_owner_id, account_id@),
                    unwrap_or_zero_u128(from_index) as int,
                    unwrap_or_zero_u64(limit) as int,
                ),
            ) {
                Some(v) => r is Ok && offers_view(r->Ok_0@) == v,
                None => r == Err::<Vec<Offer>, ContractError>(ContractError::StaleIndex),
            },
    {
        let from = match from_index {
            Some(x) => x,
            None => 0,
        };
        let take = match limit {
            Some(x) => x,
            None => 0,
        };
        match self.by_owner_id.get(account_id) {
            Some(set) => {
                let (start, count) = page_bounds(set.len(), from, take);
                let keys = set.page(start, count);
                self.collect_offers(&keys)
            },
            None => {
                let out: Vec<Offer> = Vec::new();
                assert(offers_view(out@) =~= Seq::<OfferView>::empty());
                assert(seq_page(set_at(self@.by_owner_id, account_id@), from as int, take as int)
                    =~= Seq::<Seq<char>>::empty());
                Ok(out)
            },
        }
    }

    /// At most `limit` (none when absent) of the offers for the tokens that
    /// the NFT contract index lists for a contract, from position
    /// `from_index` (0 when absent), in the index's order.
    pub fn get_offers_by_nft_contract_id(
        &self,
        nft_contract_id: &String,
        from_index: Option<u128>,
        limit: Option<u64>,
    ) -> (r: Result<Vec<Offer>, ContractError>)
        requires
            self.wf(),
        ensures
            match self@.offers_at(
                keys_for_tokens(
                    nft_contract_id@,
                    seq_page(
                        set_at(self@.by_nft_contract_id, nft_contract_id@),
                        unwrap_or_zero_u128(from_index) as int,
                        unwrap_or_zero_u64(limit) as int,
                    ),
                ),
            ) {
                Some(v) => r is Ok && offers_view(r->Ok_0@) == v,
                None => r == Err::<Vec<Offer>, ContractError>(ContractError::StaleIndex),
            },
    {
        let from = match from_index {
            Some(x) => x,
            None => 0,
        };
        let take = match limit {
            Some(x) => x,
            None => 0,
        };
        match self.by_nft_contract_id.get(nft_contract_id) {
            Some(set) => {
                let (start, count) = page_bounds(set.len(), from, take);
                let tokens = set.page(start, count);
                let mut keys: Vec<String> = Vec::new();
                let mut i: usize = 0;
                while i < tokens.len()
                    invariant
                        0 <= i <= tokens@.len(),
                        keys@.len() == i,
                        forall|j: int| 0 <= j < i ==> (#[trigger] keys@[j])@ == offer_key(nft_contract_id@, tokens@[j]@),
                    decreases tokens@.len() - i,
                {
                    keys.push(offer_key_of(nft_contract_id, &tokens[i]));
                    i = i + 1;
                }
                assert(keys@.map_values(|k: String| k@) =~= keys_for_tokens(
                    nft_contract_id@,
                    tokens@.map_values(|s: String| s@),
                ));
                self.collect_offers(&keys)
            },
            None => {
                let out: Vec<Offer> = Vec::new();
                assert(offers_view(out@) =~= Seq::<OfferView>::empty());
                assert(keys_for_tokens(
                    nft_contract_id@,
                    seq_page(set_at(self@.by_nft_contract_id, nft_contract_id@), from as int, take as int),
                ) =~= Seq::<Seq<char>>::empty());
                Ok(out)
            },
        }
    }
}


/// The shop's state as plain lists, in the order in which it is held: what
/// is written to storage between calls.
#[derive(Debug, Clone, PartialEq, Eq)]
pub struct ContractSnapshot {
    pub owner_id: String,
    pub ft_contract_id: String,
    pub offers: Vec<(String, Offer)>,
    pub by_owner_id: Vec<(String, Vec<String>)>,
    pub by_nft_contract_id: Vec<(String, Vec<String>)>,
    pub storage_deposits: Vec<(String, u128)>,
}

pub open spec fn offer_entries_view(v: Seq<(String, Offer)>) -> Seq<(Seq<char>, OfferView)> {
    v.map_values(|p: (String, Offer)| (p.0@, p.1@))
}

pub open spec fn index_entries_view(v: Seq<(String, Vec<String>)>) -> Seq<(Seq<char>, Seq<Seq<char>>)> {
    v.map_values(|p: (String, Vec<String>)| (p.0@, ordered_set_of(strings_view(p.1@))))
}

pub open spec fn deposit_entries_view(v: Seq<(String, u128)>) -> Seq<(Seq<char>, u128)> {
    v.map_values(|p: (String, u128)| (p.0@, p.1))
}

impl ContractSnapshot {
    /// The state that restoring the snapshot builds: each list inserted in
    /// order, a later entry for the same key winning, each index set built
    /// by adding its elements in order.
    pub open spec fn restored(&self) -> ContractView {
        ContractView {
            owner_id: self.owner_id@,
            ft_contract_id: self.ft_contract_id@,
            offers: entries_map(offer_entries_view(self.offers@)),
            by_owner_id: entries_map(index_entries_view(self.by_owner_id@)),
            by_nft_contract_id: entries_map(index_entries_view(self.by_nft_contract_id@)),
            storage_deposits: entries_map(deposit_entries_view(self.storage_deposits@)),
        }
    }
}

fn snapshot_index(index: &StrMap<StrSet>) -> (v: Vec<(String, Vec<String>)>)
    requires
        index.wf(),
        sets_wf(index.spec_map()),
    ensures
        entries_map(index_entries_view(v@)) == index.spec_map(),
{
    proof {
        index.lemma_entries();
    }
    let n = index.len();
    let mut out: Vec<(String, Vec<String>)> = Vec::new();
    let mut i: usize = 0;
    while i < n
        invariant
            0 <= i <= n,
            n == index.entries().len(),
            index.wf(),
            sets_wf(index.spec_map()),
            index_entries_view(out@) == index.entries().subrange(0, i as int),
        decreases n - i,
    {
        let (k, set) = index.entry_at(i);
        proof {
            index.lemma_entry_in_map(i as int);
        }
        let elems = set.to_vec();
        proof {
            lemma_ordered_set_of(strings_view(elems@));
        }
        let ghost before = out@;
        out.push((k.clone(), elems));
        assert(index_entries_view(out@) =~= index_entries_view(before).push(index.entries()[i as int]));
        assert(index.entries().subrange(0, i + 1) =~= index.entries().subrange(0, i as int).push(
            index.entries()[i as int],
        ));
        i = i + 1;
    }
    assert(index.entries().subrange(0, n as int) =~= index.entries());
    out
}

fn restore_index(v: &Vec<(String, Vec<String>)>) -> (index: StrMap<StrSet>)
    ensures
        index.wf(),
        sets_wf(index.spec_map()),
        index.spec_map() == entries_map(index_entries_view(v@)),
{
    let mut index: StrMap<StrSet> = StrMap::new();
    let mut i: usize = 0;
    while i < v.len()
        invariant
            0 <= i <= v@.len(),
            index.wf(),
            sets_wf(index.spec_map()),
            index.spec_map() == entries_map(index_entries_view(v@).subrange(0, i as int)),
        decreases v@.len() - i,
    {
        let set = StrSet::from_vec(&v[i].1);
        index.insert(v[i].0.clone(), set);
        assert(index_entries_view(v@).subrange(0, i + 1).drop_last() =~= index_entries_view(v@).subrange(
            0,
            i as int,
        ));
        i = i + 1;
    }
    assert(index_entries_view(v@).subrange(0, v@.len() as int) =~= index_entries_view(v@));
    index
}

impl Contract {
    /// The state as plain lists; restoring them gives back this state.
    pub fn snapshot(&self) -> (snap: ContractSnapshot)
        requires
            self.wf(),
        ensures
            snap.restored() == self@,
    {
        proof {
            self.offers.lemma_entries();
            self.storage_deposits.lemma_entries();
        }
        let n = self.offers.len();
        let mut offers: Vec<(String, Offer)> = Vec::new();
        let mut i: usize = 0;
        while i < n
            invariant
                0 <= i <= n,
                n == self.offers.entries().len(),
                self.wf(),
                offer_entries_view(offers@) == self.offers.entries().subrange(0, i as int),
            decreases n - i,
        {
            let (k, o) = self.offers.entry_at(i);
            let ghost before = offers@;
            offers.push((k.clone(), o.copy()));
            assert(offer_entries_view(offers@) =~= offer_entries_view(before).push(self.offers.entries()[i as int]));
            assert(self.offers.entries().subrange(0, i + 1) =~= self.offers.entries().subrange(0, i as int).push(
                self.offers.entries()[i as int],
            ));
            i = i + 1;
        }
        assert(self.offers.entries().subrange(0, n as int) =~= self.offers.entries());
        let m = self.storage_deposits.len();
        let mut deposits: Vec<(String, u128)> = Vec::new();
        let mut j: usize = 0;
        while j < m
            invariant
                0 <= j <= m,
                m == self.storage_deposits.entries().len(),
                self.wf(),
                deposit_entries_view(deposits@) == self.storage_deposits.entries().subrange(0, j as int),
            decreases m - j,
        {
            let (k, b) = self.storage_deposits.entry_at(j);
            let ghost before = deposits@;
            deposits.push((k.clone(), *b));
            assert(deposit_entries_view(deposits@) =~= deposit_entries_view(before).push(
                self.storage_deposits.entries()[j as int],
            ));
            assert(self.storage_deposits.entries().subrange(0, j + 1) =~= self.storage_deposits.entries().subrange(
                0,
                j as int,
            ).push(self.storage_deposits.entries()[j as int]));
            j = j + 1;
        }
        assert(self.storage_deposits.entries().subrange(0, m as int) =~= self.storage_deposits.entries());
        ContractSnapshot {
            owner_id: self.owner_id.clone(),
            ft_contract_id: self.ft_contract_id.clone(),
            offers,
            by_owner_id: snapshot_index(&self.by_owner_id),
            by_nft_contract_id: snapshot_index(&self.by_nft_contract_id),
            storage_deposits: deposits,
        }
    }

    /// The state that a snapshot describes.
    pub fn restore(snap: &ContractSnapshot) -> (c: Contract)
        ensures
            c.wf(),
            c@ == snap.restored(),
    {
        let mut offers: StrMap<Offer> = StrMap::new();
        let mut i: usize = 0;
        while i < snap.offers.len()
            invariant
                0 <= i <= snap.offers@.len(),
                offers.wf(),
                offers.spec_map() == entries_map(offer_entries_view(snap.offers@).subrange(0, i as int)),
            decreases snap.offers@.len() - i,
        {
            offers.insert(snap.offers[i].0.clone(), snap.offers[i].1.copy());
            assert(offer_entries_view(snap.offers@).subrange(0, i + 1).drop_last() =~= offer_entries_view(
                snap.offers@,
            ).subrange(0, i as int));
            i = i + 1;
        }
        assert(offer_entries_view(snap.offers@).subrange(0, snap.offers@.len() as int) =~= offer_entries_view(
            snap.offers@,
        ));
        let mut deposits: StrMap<u128> = StrMap::new();
        let mut j: usize = 0;
        while j < snap.storage_deposits.len()
            invariant
                0 <= j <= snap.storage_deposits@.len(),
                deposits.wf(),
                deposits.spec_map() == entries_map(
                    deposit_entries_view(snap.storage_deposits@).subrange(0, j as int),
                ),
            decreases snap.storage_deposits@.len() - j,
        {
            deposits.insert(snap.storage_deposits[j].0.clone(), snap.storage_deposits[j].1);
            assert(deposit_entries_view(snap.storage_deposits@).subrange(0, j + 1).drop_last()
                =~= deposit_entries_view(snap.storage_deposits@).subrange(0, j as int));
            j = j + 1;
        }
        assert(deposit_entries_view(snap.storage_deposits@).subrange(0, snap.storage_deposits@.len() as int)
            =~= deposit_entries_view(snap.storage_deposits@));
        Contract {
            owner_id: snap.owner_id.clone(),
            offers,
            by_owner_id: restore_index(&snap.by_owner_id),
            by_nft_contract_id: restore_index(&snap.by_nft_contract_id),
            storage_deposits: deposits,
            ft_contract_id: snap.ft_contract_id.clone(),
        }
    }
}

} // verus!
