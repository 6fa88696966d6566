use bicycle_shop::contract::{CallContext, Contract, ContractError, ContractSnapshot};
use bicycle_shop::offer::{BorrowArgs, Offer, OfferArgs};
use bicycle_shop::storage::STORAGE_PER_OFFER;

fn ctx(predecessor: &str, signer: &str, deposit: u128, time: u64) -> CallContext {
    CallContext {
        predecessor_id: predecessor.to_string(),
        signer_id: signer.to_string(),
        attached_deposit: deposit,
        block_timestamp: time,
    }
}

fn s(x: &str) -> String {
    x.to_string()
}

fn offer(owner: &str, nft: &str, token: &str, status: &str) -> Offer {
    Offer {
        owner_id: s(owner),
        approval_id: 0,
        nft_contract_id: s(nft),
        token_id: s(token),
        status: s(status),
        rent: 1,
        guarantee: 100,
        max_duration: 1000,
        lending_start: None,
        lending_expiry: None,
        user_rights: None,
    }
}

fn busy_shop() -> Contract {
    let mut c = Contract::new(s("shop.near"), s("bift.near"));
    c.storage_deposit(&ctx("alice.near", "alice.near", 5 * STORAGE_PER_OFFER, 0), None).unwrap();
    for t in ["a", "b", "c"] {
        c.nft_on_approve(
            &ctx("nft.near", "alice.near", 0, 0),
            s(t),
            s("alice.near"),
            1,
            Some(OfferArgs { rent: 1, guarantee: 100, max_duration: 1000 }),
        )
        .unwrap();
    }
    c.remove_offer(&ctx("alice.near", "alice.near", 1, 0), s("nft.near"), s("a")).unwrap();
    c.ft_on_transfer(
        &ctx("bift.near", "bob.near", 0, 0),
        s("bob.near"),
        100,
        Some(BorrowArgs { nft_contract: s("nft.near"), token_id: s("b"), expiry: 10 }),
    )
    .unwrap();
    c
}

#[test]
fn restoring_a_snapshot_gives_back_the_shop() {
    let c = busy_shop();
    let snap = c.snapshot();
    let r = Contract::restore(&snap);
    assert_eq!(r.snapshot(), snap);
    assert_eq!(r.get_supply_offers(), 2);
    assert_eq!(r.get_offer(&s("nft.near.b")), c.get_offer(&s("nft.near.b")));
    let alice = s("alice.near");
    assert_eq!(r.get_offers_by_owner_id(&alice, None, Some(9)), c.get_offers_by_owner_id(&alice, None, Some(9)));
    assert_eq!(r.storage_balance_of(&alice), 5 * STORAGE_PER_OFFER);
    assert_eq!(r.owner_id, s("shop.near"));
    assert_eq!(r.ft_contract_id, s("bift.near"));
}

#[test]
fn restoring_keeps_the_last_entry_for_a_key_and_each_element_once() {
    let snap = ContractSnapshot {
        owner_id: s("shop.near"),
        ft_contract_id: s("bift.near"),
        offers: vec![],
        by_owner_id: vec![],
        by_nft_contract_id: vec![],
        storage_deposits: vec![(s("alice.near"), 1), (s("bob.near"), 2), (s("alice.near"), 3)],
    };
    let r = Contract::restore(&snap);
    assert_eq!(r.storage_balance_of(&s("alice.near")), 3);
    assert_eq!(r.storage_balance_of(&s("bob.near")), 2);
    let snap2 = ContractSnapshot {
        by_nft_contract_id: vec![(s("nft.near"), vec![s("x"), s("y"), s("x")])],
        ..snap
    };
    assert_eq!(Contract::restore(&snap2).get_supply_by_nft_contract_id(&s("nft.near")), 2);
}

#[test]
fn an_owner_index_that_misses_the_owner_is_reported() {
    let snap = ContractSnapshot {
        owner_id: s("shop.near"),
        ft_contract_id: s("bift.near"),
        offers: vec![(s("nft.near.a"), offer("alice.near", "nft.near", "a", "OFFER"))],
        by_owner_id: vec![],
        by_nft_contract_id: vec![(s("nft.near"), vec![s("a")])],
        storage_deposits: vec![],
    };
    let mut c = Contract::restore(&snap);
    assert_eq!(
        c.remove_offer(&ctx("alice.near", "alice.near", 1, 0), s("nft.near"), s("a")),
        Err(ContractError::NoOfferByOwner)
    );
    assert_eq!(c.get_supply_offers(), 1);
}

#[test]
fn an_index_entry_without_its_offer_is_reported() {
    let snap = ContractSnapshot {
        owner_id: s("shop.near"),
        ft_contract_id: s("bift.near"),
        offers: vec![],
        by_owner_id: vec![(s("alice.near"), vec![s("nft.near.a")])],
        by_nft_contract_id: vec![(s("nft.near"), vec![s("a")])],
        storage_deposits: vec![],
    };
    let c = Contract::restore(&snap);
    assert_eq!(
        c.get_offers_by_owner_id(&s("alice.near"), None, Some(1)),
        Err(ContractError::StaleIndex)
    );
    assert_eq!(
        c.get_offers_by_nft_contract_id(&s("nft.near"), None, Some(1)),
        Err(ContractError::StaleIndex)
    );
    assert_eq!(c.get_offers_by_owner_id(&s("alice.near"), None, Some(0)), Ok(vec![]));
}

#[test]
fn a_loan_without_its_terms_is_reported() {
    let mut lent = offer("alice.near", "nft.near", "a", "ONRENT");
    lent.lending_start = Some(0);
    lent.lending_expiry = Some(1_000_000_000_000);
    let snap = ContractSnapshot {
        owner_id: s("shop.near"),
        ft_contract_id: s("bift.near"),
        offers: vec![(s("nft.near.a"), lent)],
        by_owner_id: vec![(s("alice.near"), vec![s("nft.near.a")])],
        by_nft_contract_id: vec![(s("nft.near"), vec![s("a")])],
        storage_deposits: vec![],
    };
    let mut c = Contract::restore(&snap);
    assert_eq!(
        c.withdraw_guarantee(&ctx("bob.near", "bob.near", 1, 5), s("nft.near"), s("a")),
        Err(ContractError::MissingLendingTerm)
    );
}
