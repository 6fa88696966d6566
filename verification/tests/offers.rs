use bicycle_shop::contract::{offer_key_of, CallContext, Contract, ContractError, FtTransfer};
use bicycle_shop::offer::{BorrowArgs, Offer, OfferArgs};
use bicycle_shop::storage::STORAGE_PER_OFFER;

const SECOND: u64 = 1_000_000_000;

fn ctx(predecessor: &str, signer: &str, deposit: u128, time: u64) -> CallContext {
    CallContext {
        predecessor_id: predecessor.to_string(),
        signer_id: signer.to_string(),
        attached_deposit: deposit,
        block_timestamp: time,
    }
}

fn s(x: &str) -> String {
    x.to_string()
}

fn terms(rent: u64, guarantee: u64, max_duration: u64) -> Option<OfferArgs> {
    Some(OfferArgs { rent, guarantee, max_duration })
}

fn borrow(nft: &str, token: &str, expiry: u64) -> Option<BorrowArgs> {
    Some(BorrowArgs { nft_contract: s(nft), token_id: s(token), expiry })
}

/// A shop where alice paid storage for `n` offers and put "hero2017" of
/// nft.near on offer at rent 1, guarantee 5000, max 2500 seconds.
fn shop_with_offer(n: u128) -> Contract {
    let mut c = Contract::new(s("shop.near"), s("bift.near"));
    c.storage_deposit(&ctx("alice.near", "alice.near", n * STORAGE_PER_OFFER, 0), None).unwrap();
    c.nft_on_approve(&ctx("nft.near", "alice.near", 0, 0), s("hero2017"), s("alice.near"), 7, terms(1, 5000, 2500))
        .unwrap();
    c
}

fn key() -> String {
    s("nft.near.hero2017")
}

#[test]
fn offer_key_joins_contract_and_token_with_a_dot() {
    assert_eq!(offer_key_of(&s("nft.near"), &s("hero2017")), s("nft.near.hero2017"));
    assert_eq!(offer_key_of(&s(""), &s("")), s("."));
}

#[test]
fn approve_puts_the_token_on_offer() {
    let c = shop_with_offer(1);
    let o = c.get_offer(&key()).unwrap();
    assert_eq!(
        o,
        Offer {
            owner_id: s("alice.near"),
            approval_id: 7,
            nft_contract_id: s("nft.near"),
            token_id: s("hero2017"),
            status: s("OFFER"),
            rent: 1,
            guarantee: 5000,
            max_duration: 2500,
            lending_start: None,
            lending_expiry: None,
            user_rights: None,
        }
    );
    assert_eq!(c.get_supply_offers(), 1);
    assert_eq!(c.get_supply_by_owner_id(&s("alice.near")), 1);
    assert_eq!(c.get_supply_by_nft_contract_id(&s("nft.near")), 1);
    assert_eq!(c.get_supply_by_owner_id(&s("bob.near")), 0);
}

#[test]
fn approve_from_the_signer_itself_is_refused() {
    let mut c = shop_with_offer(2);
    let r = c.nft_on_approve(&ctx("alice.near", "alice.near", 0, 0), s("t"), s("alice.near"), 0, terms(1, 1, 1));
    assert_eq!(r, Err(ContractError::NotCrossContractCall));
}

#[test]
fn approve_for_another_owner_is_refused() {
    let mut c = shop_with_offer(2);
    let r = c.nft_on_approve(&ctx("nft.near", "alice.near", 0, 0), s("t"), s("bob.near"), 0, terms(1, 1, 1));
    assert_eq!(r, Err(ContractError::OwnerNotSigner));
}

#[test]
fn approve_without_storage_is_refused() {
    let mut c = shop_with_offer(1);
    let r = c.nft_on_approve(&ctx("nft.near", "alice.near", 0, 0), s("t"), s("alice.near"), 0, terms(1, 1, 1));
    assert_eq!(
        r,
        Err(ContractError::InsufficientStorage { paid: STORAGE_PER_OFFER, required: 2 * STORAGE_PER_OFFER })
    );
    assert_eq!(c.get_supply_offers(), 1);
}

#[test]
fn approve_with_invalid_terms_is_refused() {
    let mut c = shop_with_offer(2);
    let r = c.nft_on_approve(&ctx("nft.near", "alice.near", 0, 0), s("t"), s("alice.near"), 0, None);
    assert_eq!(r, Err(ContractError::InvalidArgs));
    assert_eq!(c.get_supply_offers(), 1);
}

#[test]
fn approve_of_a_token_already_on_offer_is_refused() {
    let mut c = shop_with_offer(2);
    let r = c.nft_on_approve(
        &ctx("nft.near", "alice.near", 0, 0),
        s("hero2017"),
        s("alice.near"),
        8,
        terms(2, 2, 2),
    );
    assert_eq!(r, Err(ContractError::OfferAlreadyAvailable));
    assert_eq!(c.get_offer(&key()).unwrap().approval_id, 7);
}

#[test]
fn update_offer_changes_the_terms() {
    let mut c = shop_with_offer(1);
    c.update_offer(&ctx("alice.near", "alice.near", 1, 0), s("nft.near"), s("hero2017"), 3, 6000, 100).unwrap();
    let o = c.get_offer(&key()).unwrap();
    assert_eq!((o.rent, o.guarantee, o.max_duration), (3, 6000, 100));
    assert_eq!(o.status, s("OFFER"));
}

#[test]
fn update_offer_refusals() {
    let mut c = shop_with_offer(1);
    assert_eq!(
        c.update_offer(&ctx("alice.near", "alice.near", 0, 0), s("nft.near"), s("hero2017"), 3, 6000, 100),
        Err(ContractError::RequiresOneYocto)
    );
    assert_eq!(
        c.update_offer(&ctx("alice.near", "alice.near", 1, 0), s("nft.near"), s("other"), 3, 6000, 100),
        Err(ContractError::NoOffer)
    );
    assert_eq!(
        c.update_offer(&ctx("bob.near", "bob.near", 1, 0), s("nft.near"), s("hero2017"), 3, 6000, 100),
        Err(ContractError::MustBeOfferOwner)
    );
    c.ft_on_transfer(&ctx("bift.near", "bob.near", 0, 0), s("bob.near"), 5000, borrow("nft.near", "hero2017", 100))
        .unwrap();
    assert_eq!(
        c.update_offer(&ctx("alice.near", "alice.near", 1, 0), s("nft.near"), s("hero2017"), 3, 6000, 100),
        Err(ContractError::InvalidOfferState)
    );
    assert_eq!(c.get_offer(&key()).unwrap().rent, 1);
}

#[test]
fn borrow_records_the_loan() {
    let mut c = shop_with_offer(1);
    let t0 = 1_000 * SECOND;
    let r = c.ft_on_transfer(&ctx("bift.near", "bob.near", 0, t0), s("bob.near"), 5000, borrow("nft.near", "hero2017", 100));
    assert_eq!(r, Ok(0));
    let o = c.get_offer(&key()).unwrap();
    assert_eq!(o.status, s("ONRENT"));
    assert_eq!(o.lending_start, Some(t0));
    assert_eq!(o.lending_expiry, Some(t0 + 100 * SECOND));
    assert_eq!(o.user_rights, Some(s("bob.near")));
}

#[test]
fn borrow_refusals() {
    let mut c = shop_with_offer(1);
    let cx = ctx("bift.near", "bob.near", 0, 0);
    assert_eq!(c.ft_on_transfer(&cx, s("bob.near"), 5000, None), Err(ContractError::InvalidArgs));
    assert_eq!(
        c.ft_on_transfer(&cx, s("bob.near"), 5000, borrow("nft.near", "nope", 100)),
        Err(ContractError::OfferNotAvailable)
    );
    assert_eq!(
        c.ft_on_transfer(&cx, s("bob.near"), 5000, borrow("nft.near", "hero2017", 2500)),
        Err(ContractError::InvalidExpiry)
    );
    assert_eq!(
        c.ft_on_transfer(&cx, s("bob.near"), 4999, borrow("nft.near", "hero2017", 100)),
        Err(ContractError::InvalidTransferAmount)
    );
    c.ft_on_transfer(&cx, s("bob.near"), 5000, borrow("nft.near", "hero2017", 100)).unwrap();
    assert_eq!(
        c.ft_on_transfer(&cx, s("carol.near"), 5000, borrow("nft.near", "hero2017", 100)),
        Err(ContractError::InvalidOfferState)
    );
    assert_eq!(c.get_offer(&key()).unwrap().user_rights, Some(s("bob.near")));
}

#[test]
fn borrow_past_the_end_of_time_overflows() {
    let mut c = Contract::new(s("shop.near"), s("bift.near"));
    c.storage_deposit(&ctx("alice.near", "alice.near", STORAGE_PER_OFFER, 0), None).unwrap();
    c.nft_on_approve(&ctx("nft.near", "alice.near", 0, 0), s("t"), s("alice.near"), 0, terms(1, 10, u64::MAX))
        .unwrap();
    let cx = ctx("bift.near", "bob.near", 0, 0);
    assert_eq!(
        c.ft_on_transfer(&cx, s("bob.near"), 10, borrow("nft.near", "t", u64::MAX / 2)),
        Err(ContractError::ArithmeticOverflow)
    );
    let late = ctx("bift.near", "bob.near", 0, u64::MAX - SECOND);
    assert_eq!(
        c.ft_on_transfer(&late, s("bob.near"), 10, borrow("nft.near", "t", 2)),
        Err(ContractError::ArithmeticOverflow)
    );
}

#[test]
fn withdraw_guarantee_charges_rent_per_second() {
    let mut c = shop_with_offer(1);
    let t0 = 1_000 * SECOND;
    c.ft_on_transfer(&ctx("bift.near", "bob.near", 0, t0), s("bob.near"), 5000, borrow("nft.near", "hero2017", 2000))
        .unwrap();
    let r = c
        .withdraw_guarantee(&ctx("bob.near", "bob.near", 1, t0 + 100 * SECOND + 999_999_999), s("nft.near"), s("hero2017"))
        .unwrap();
    let memo = s("withdraw guarantee");
    assert_eq!(
        r,
        vec![
            FtTransfer { ft_contract_id: s("bift.near"), receiver_id: s("alice.near"), amount: 100, memo: memo.clone() },
            FtTransfer { ft_contract_id: s("bift.near"), receiver_id: s("bob.near"), amount: 4900, memo },
        ]
    );
    let o = c.get_offer(&key()).unwrap();
    assert_eq!(o.status, s("OFFER"));
    assert_eq!((o.lending_start, o.lending_expiry, o.user_rights), (None, None, None));
}

#[test]
fn withdraw_guarantee_caps_the_rent_at_the_guarantee() {
    let mut c = Contract::new(s("shop.near"), s("bift.near"));
    c.storage_deposit(&ctx("alice.near", "alice.near", STORAGE_PER_OFFER, 0), None).unwrap();
    c.nft_on_approve(&ctx("nft.near", "alice.near", 0, 0), s("t"), s("alice.near"), 0, terms(10, 50, 1000)).unwrap();
    c.ft_on_transfer(&ctx("bift.near", "bob.near", 0, 0), s("bob.near"), 50, borrow("nft.near", "t", 500)).unwrap();
    let r = c.withdraw_guarantee(&ctx("bob.near", "bob.near", 1, 6 * SECOND), s("nft.near"), s("t")).unwrap();
    assert_eq!(r[0].amount, 50);
    assert_eq!(r[1].amount, 0);
}

#[test]
fn withdraw_guarantee_refusals() {
    let mut c = shop_with_offer(1);
    assert_eq!(
        c.withdraw_guarantee(&ctx("bob.near", "bob.near", 1, 0), s("nft.near"), s("hero2017")),
        Err(ContractError::InvalidOfferState)
    );
    c.ft_on_transfer(&ctx("bift.near", "bob.near", 0, 0), s("bob.near"), 5000, borrow("nft.near", "hero2017", 100))
        .unwrap();
    assert_eq!(
        c.withdraw_guarantee(&ctx("bob.near", "bob.near", 0, SECOND), s("nft.near"), s("hero2017")),
        Err(ContractError::RequiresOneYocto)
    );
    assert_eq!(
        c.withdraw_guarantee(&ctx("bob.near", "bob.near", 1, SECOND), s("nft.near"), s("nope")),
        Err(ContractError::NoOffer)
    );
    assert_eq!(
        c.withdraw_guarantee(&ctx("carol.near", "carol.near", 1, SECOND), s("nft.near"), s("hero2017")),
        Err(ContractError::OnlyUser)
    );
    assert_eq!(
        c.withdraw_guarantee(&ctx("bob.near", "bob.near", 1, 100 * SECOND), s("nft.near"), s("hero2017")),
        Err(ContractError::ContractExpired)
    );
    assert_eq!(c.get_offer(&key()).unwrap().status, s("ONRENT"));
}

#[test]
fn withdraw_guarantee_caps_a_huge_rent_at_the_guarantee() {
    let mut c = Contract::new(s("shop.near"), s("bift.near"));
    c.storage_deposit(&ctx("alice.near", "alice.near", STORAGE_PER_OFFER, 0), None).unwrap();
    c.nft_on_approve(&ctx("nft.near", "alice.near", 0, 0), s("t"), s("alice.near"), 0, terms(1u64 << 63, 5000, 2500))
        .unwrap();
    let t0 = 1_000 * SECOND;
    c.ft_on_transfer(&ctx("bift.near", "bob.near", 0, t0), s("bob.near"), 5000, borrow("nft.near", "t", 100)).unwrap();
    let r = c.withdraw_guarantee(&ctx("bob.near", "bob.near", 1, t0 + 2 * SECOND), s("nft.near"), s("t")).unwrap();
    assert_eq!(r[0].amount, 5000);
    assert_eq!(r[0].receiver_id, s("alice.near"));
    assert_eq!(r[1].amount, 0);
    assert_eq!(r[1].receiver_id, s("bob.near"));
    assert_eq!(c.get_offer(&s("nft.near.t")).unwrap().status, s("OFFER"));
}

#[test]
fn withdraw_guarantee_at_u64_max_rent_and_long_loan() {
    let mut c = Contract::new(s("shop.near"), s("bift.near"));
    c.storage_deposit(&ctx("alice.near", "alice.near", STORAGE_PER_OFFER, 0), None).unwrap();
    c.nft_on_approve(&ctx("nft.near", "alice.near", 0, 0), s("t"), s("alice.near"), 0, terms(u64::MAX, u64::MAX, u64::MAX))
        .unwrap();
    c.ft_on_transfer(&ctx("bift.near", "bob.near", 0, 0), s("bob.near"), u64::MAX as u128, borrow("nft.near", "t", 10_000_000_000))
        .unwrap();
    let r = c.withdraw_guarantee(&ctx("bob.near", "bob.near", 1, 9_999_999_999 * SECOND), s("nft.near"), s("t")).unwrap();
    assert_eq!(r[0].amount, u64::MAX as u128);
    assert_eq!(r[1].amount, 0);
}

#[test]
fn owner_share_grows_with_the_length_of_the_loan() {
    let mut earlier = Vec::new();
    for secs in [0u64, 1, 10, 100, 4999, 5000, 6000] {
        let mut c = Contract::new(s("shop.near"), s("bift.near"));
        c.storage_deposit(&ctx("alice.near", "alice.near", STORAGE_PER_OFFER, 0), None).unwrap();
        c.nft_on_approve(&ctx("nft.near", "alice.near", 0, 0), s("t"), s("alice.near"), 0, terms(1, 5000, 10_000))
            .unwrap();
        c.ft_on_transfer(&ctx("bift.near", "bob.near", 0, 0), s("bob.near"), 5000, borrow("nft.near", "t", 9000))
            .unwrap();
        let r = c.withdraw_guarantee(&ctx("bob.near", "bob.near", 1, secs * SECOND), s("nft.near"), s("t")).unwrap();
        assert_eq!(r[0].amount + r[1].amount, 5000);
        earlier.push(r[0].amount);
    }
    assert_eq!(earlier, vec![0, 1, 10, 100, 4999, 5000, 5000]);
}

#[test]
fn a_guarantee_is_paid_out_once() {
    let mut c = shop_with_offer(1);
    c.ft_on_transfer(&ctx("bift.near", "bob.near", 0, 0), s("bob.near"), 5000, borrow("nft.near", "hero2017", 100))
        .unwrap();
    // at the very end of the loan, neither a return nor a liquidation goes through
    assert_eq!(
        c.withdraw_guarantee(&ctx("bob.near", "bob.near", 1, 100 * SECOND), s("nft.near"), s("hero2017")),
        Err(ContractError::ContractExpired)
    );
    assert_eq!(
        c.liquidate(&ctx("alice.near", "alice.near", 1, 100 * SECOND), s("nft.near"), s("hero2017")),
        Err(ContractError::NotExpiredYet)
    );
    c.withdraw_guarantee(&ctx("bob.near", "bob.near", 1, 50 * SECOND), s("nft.near"), s("hero2017")).unwrap();
    assert_eq!(
        c.withdraw_guarantee(&ctx("bob.near", "bob.near", 1, 51 * SECOND), s("nft.near"), s("hero2017")),
        Err(ContractError::InvalidOfferState)
    );
    assert_eq!(
        c.liquidate(&ctx("alice.near", "alice.near", 1, 200 * SECOND), s("nft.near"), s("hero2017")),
        Err(ContractError::InvalidOfferState)
    );
}

#[test]
fn borrow_notice_from_another_account_is_refused() {
    let mut c = shop_with_offer(1);
    let r = c.ft_on_transfer(&ctx("fake-token.near", "bob.near", 0, 0), s("bob.near"), 5000, borrow("nft.near", "hero2017", 100));
    assert_eq!(r, Err(ContractError::NotTokenContract));
    let r = c.ft_on_transfer(&ctx("bob.near", "bob.near", 0, 0), s("bob.near"), 5000, None);
    assert_eq!(r, Err(ContractError::NotTokenContract));
    assert_eq!(c.get_offer(&key()).unwrap().status, s("OFFER"));
}

#[test]
fn liquidate_pays_the_owner_after_expiry() {
    let mut c = shop_with_offer(1);
    c.ft_on_transfer(&ctx("bift.near", "bob.near", 0, 0), s("bob.near"), 5000, borrow("nft.near", "hero2017", 100))
        .unwrap();
    assert_eq!(
        c.liquidate(&ctx("alice.near", "alice.near", 1, 100 * SECOND), s("nft.near"), s("hero2017")),
        Err(ContractError::NotExpiredYet)
    );
    assert_eq!(
        c.liquidate(&ctx("bob.near", "bob.near", 1, 101 * SECOND), s("nft.near"), s("hero2017")),
        Err(ContractError::OnlyOwner)
    );
    assert_eq!(
        c.liquidate(&ctx("alice.near", "alice.near", 0, 101 * SECOND), s("nft.near"), s("hero2017")),
        Err(ContractError::RequiresOneYocto)
    );
    let t = c.liquidate(&ctx("alice.near", "alice.near", 1, 101 * SECOND), s("nft.near"), s("hero2017")).unwrap();
    assert_eq!(
        t,
        FtTransfer { ft_contract_id: s("bift.near"), receiver_id: s("alice.near"), amount: 5000, memo: s("liquidate") }
    );
    let o = c.get_offer(&key()).unwrap();
    assert_eq!(o.status, s("OFFER"));
    assert_eq!(o.user_rights, None);
    assert_eq!(
        c.liquidate(&ctx("alice.near", "alice.near", 1, 200 * SECOND), s("nft.near"), s("hero2017")),
        Err(ContractError::InvalidOfferState)
    );
}

#[test]
fn borrow_then_return_restores_the_offer() {
    let mut c = shop_with_offer(1);
    let before = c.get_offer(&key()).unwrap();
    c.ft_on_transfer(&ctx("bift.near", "bob.near", 0, 5), s("bob.near"), 5000, borrow("nft.near", "hero2017", 100))
        .unwrap();
    c.withdraw_guarantee(&ctx("bob.near", "bob.near", 1, 50 * SECOND), s("nft.near"), s("hero2017")).unwrap();
    assert_eq!(c.get_offer(&key()).unwrap(), before);
}

#[test]
fn borrow_then_liquidate_restores_the_offer() {
    let mut c = shop_with_offer(1);
    let before = c.get_offer(&key()).unwrap();
    c.ft_on_transfer(&ctx("bift.near", "bob.near", 0, 0), s("bob.near"), 5000, borrow("nft.near", "hero2017", 10))
        .unwrap();
    c.liquidate(&ctx("alice.near", "alice.near", 1, 11 * SECOND), s("nft.near"), s("hero2017")).unwrap();
    assert_eq!(c.get_offer(&key()).unwrap(), before);
}
