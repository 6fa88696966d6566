//! Offers, and the arguments that owners and borrowers send with their calls.

use vstd::prelude::*;

verus! {

/// The terms an owner attaches when approving the shop for a token.
#[derive(Debug, Clone, Copy, PartialEq, Eq)]
pub struct OfferArgs {
    pub rent: u64,
    pub guarantee: u64,
    pub max_duration: u64,
}

/// What a borrower sends along with the guarantee: which offer, and for how
/// many seconds.
#[derive(Debug, Clone, PartialEq, Eq)]
pub struct BorrowArgs {
    pub nft_contract: String,
    pub token_id: String,
    pub expiry: u64,
}

/// One token on offer in the shop.
#[derive(Debug, Clone, PartialEq, Eq)]
pub struct Offer {
    /// The owner of the token.
    pub owner_id: String,
    /// The approval id under which the NFT contract lets the shop move the token.
    pub approval_id: u64,
    /// The NFT contract on which the token was minted.
    pub nft_contract_id: String,
    pub token_id: String,
    /// `"OFFER"` while the token waits for a borrower, `"ONRENT"` while lent.
    pub status: String,
    /// Rent per second, in units of the fungible token.
    pub rent: u64,
    pub guarantee: u64,
    /// The longest loan the owner accepts, in seconds.
    pub max_duration: u64,
    /// Block time (nanoseconds) at which the current loan began.
    pub lending_start: Option<u64>,
    /// Block time (nanoseconds) at which the current loan ends.
    pub lending_expiry: Option<u64>,
    /// The borrower holding the token.
    pub user_rights: Option<String>,
}

pub struct OfferView {
    pub owner_id: Seq<char>,
    pub approval_id: u64,
    pub nft_contract_id: Seq<char>,
    pub token_id: Seq<char>,
    pub status: Seq<char>,
    pub rent: u64,
    pub guarantee: u64,
    pub max_duration: u64,
    pub lending_start: Option<u64>,
    pub lending_expiry: Option<u64>,
    pub user_rights: Option<Seq<char>>,
}

pub open spec fn opt_string_view(o: Option<String>) -> Option<Seq<char>> {
    match o {
        Some(s) => Some(s@),
        None => None,
    }
}

impl View for Offer {
    type V = OfferView;

    open spec fn view(&self) -> OfferView {
        OfferView {
            owner_id: self.owner_id@,
            approval_id: self.approval_id,
            nft_contract_id: self.nft_contract_id@,
            token_id: self.token_id@,
            status: self.status@,
            rent: self.rent,
            guarantee: self.guarantee,
            max_duration: self.max_duration,
            lending_start: self.lending_start,
            lending_expiry: self.lending_expiry,
            user_rights: opt_string_view(self.user_rights),
        }
    }
}

/// The status of an offer that waits for a borrower.
pub open spec fn status_offer() -> Seq<char> {
    seq!['O', 'F', 'F', 'E', 'R']
}

/// The status of an offer whose token is lent.
pub open spec fn status_on_rent() -> Seq<char> {
    seq!['O', 'N', 'R', 'E', 'N', 'T']
}

pub fn offer_status() -> (s: String)
    ensures
        s@ == status_offer(),
{
    let s = String::from_str("OFFER");
    proof {
        reveal_strlit("OFFER");
    }
    s
}

pub fn on_rent_status() -> (s: String)
    ensures
        s@ == status_on_rent(),
{
    let s = String::from_str("ONRENT");
    proof {
        reveal_strlit("ONRENT");
    }
    s
}

fn clone_opt_string(o: &Option<String>) -> (r: Option<String>)
    ensures
        opt_string_view(r) == opt_string_view(*o),
{
    match o {
        Some(s) => Some(s.clone()),
        None => None,
    }
}

impl Offer {
    /// A copy of the offer.
    pub fn copy(&self) -> (r: Offer)
        ensures
            r@ == self@,
    {
        Offer {
            owner_id: self.owner_id.clone(),
            approval_id: self.approval_id,
            nft_contract_id: self.nft_contract_id.clone(),
            token_id: self.token_id.clone(),
            status: self.status.clone(),
            rent: self.rent,
            guarantee: self.guarantee,
            max_duration: self.max_duration,
            lending_start: self.lending_start,
            lending_expiry: self.lending_expiry,
            user_rights: clone_opt_string(&self.user_rights),
        }
    }
}


/// The payout that an NFT contract reports under the royalty standard: what
/// each account receives of a sale.
#[derive(Debug, Clone)]
pub struct Payout {
    pub payout: std::collections::HashMap<String, u128>,
}

} // verus!
