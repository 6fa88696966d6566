use bicycle_shop::contract::{CallContext, Contract, ContractError};
use bicycle_shop::offer::{BorrowArgs, OfferArgs};
use bicycle_shop::storage::STORAGE_PER_OFFER;

fn ctx(predecessor: &str, signer: &str, deposit: u128, time: u64) -> CallContext {
    CallContext {
        predecessor_id: predecessor.to_string(),
        signer_id: signer.to_string(),
        attached_deposit: deposit,
        block_timestamp: time,
    }
}

fn s(x: &str) -> String {
    x.to_string()
}

fn approve(c: &mut Contract, nft: &str, token: &str, owner: &str) -> Result<(), ContractError> {
    c.nft_on_approve(&ctx(nft, owner, 0, 0), s(token), s(owner), 0, Some(OfferArgs { rent: 1, guarantee: 10, max_duration: 100 }))
}

fn tokens(v: &[bicycle_shop::offer::Offer]) -> Vec<String> {
    v.iter().map(|o| o.token_id.clone()).collect()
}

#[test]
fn the_owner_index_stays_exact_after_a_removal_through_a_shared_key() {
    let mut c = Contract::new(s("shop.near"), s("bift.near"));
    c.storage_deposit(&ctx("alice.near", "alice.near", 10 * STORAGE_PER_OFFER, 0), None).unwrap();
    approve(&mut c, "aa.bb", "cc", "alice.near").unwrap();
    approve(&mut c, "aa", "zz", "alice.near").unwrap();
    approve(&mut c, "other.near", "q", "alice.near").unwrap();
    c.remove_offer(&ctx("alice.near", "alice.near", 1, 0), s("aa"), s("bb.cc")).unwrap();
    let alice = s("alice.near");
    // the owner index lists exactly alice's two remaining offers
    assert_eq!(c.get_supply_by_owner_id(&alice), 2);
    assert_eq!(c.get_supply_offers(), 2);
    let listed = c.get_offers_by_owner_id(&alice, Some(0), Some(u64::MAX)).unwrap();
    assert_eq!(listed.len(), 2);
    assert!(listed.iter().all(|o| c.get_offer(&format!("{}.{}", o.nft_contract_id, o.token_id)).as_ref() == Some(o)));
    // the indexes of the contracts not spoiled still list exactly their offers
    assert_eq!(tokens(&c.get_offers_by_nft_contract_id(&s("aa"), None, Some(9)).unwrap()), vec!["zz"]);
    assert_eq!(tokens(&c.get_offers_by_nft_contract_id(&s("other.near"), None, Some(9)).unwrap()), vec!["q"]);
    // the spoiled one keeps the removed token
    assert_eq!(c.get_offers_by_nft_contract_id(&s("aa.bb"), None, Some(9)), Err(ContractError::StaleIndex));
    // storage stays covered: alice can withdraw all but two offers' worth
    let r = c.storage_withdraw(&ctx("alice.near", "alice.near", 1, 0)).unwrap();
    assert_eq!(r.unwrap().amount, 8 * STORAGE_PER_OFFER);
    assert_eq!(c.storage_balance_of(&alice), 2 * STORAGE_PER_OFFER);
}

#[test]
fn adjacent_pages_make_the_longer_page() {
    let mut c = Contract::new(s("shop.near"), s("bift.near"));
    c.storage_deposit(&ctx("alice.near", "alice.near", 10 * STORAGE_PER_OFFER, 0), None).unwrap();
    for t in ["1", "2", "3", "4", "5"] {
        approve(&mut c, "nft.near", t, "alice.near").unwrap();
    }
    let alice = s("alice.near");
    for (from, n, m) in [(0u64, 2u64, 3u64), (1, 1, 10), (4, 3, 3), (6, 1, 1)] {
        let mut joined = c.get_offers_by_owner_id(&alice, Some(from as u128), Some(n)).unwrap();
        joined.extend(c.get_offers_by_owner_id(&alice, Some((from + n) as u128), Some(m)).unwrap());
        assert_eq!(joined, c.get_offers_by_owner_id(&alice, Some(from as u128), Some(n + m)).unwrap());
        let mut joined = c.get_offers_by_nft_contract_id(&s("nft.near"), Some(from as u128), Some(n)).unwrap();
        joined.extend(c.get_offers_by_nft_contract_id(&s("nft.near"), Some((from + n) as u128), Some(m)).unwrap());
        assert_eq!(joined, c.get_offers_by_nft_contract_id(&s("nft.near"), Some(from as u128), Some(n + m)).unwrap());
    }
    // pages of two cover every offer once
    let mut all = Vec::new();
    for from in [0u128, 2, 4] {
        all.extend(tokens(&c.get_offers_by_owner_id(&alice, Some(from), Some(2)).unwrap()));
    }
    assert_eq!(all, vec!["1", "2", "3", "4", "5"]);
}

#[test]
fn a_balance_is_the_sum_of_its_credited_deposits() {
    let mut c = Contract::new(s("shop.near"), s("bift.near"));
    c.storage_deposit(&ctx("alice.near", "alice.near", STORAGE_PER_OFFER, 0), None).unwrap();
    c.storage_deposit(&ctx("bob.near", "bob.near", 2 * STORAGE_PER_OFFER, 0), Some(s("alice.near"))).unwrap();
    assert!(c.storage_deposit(&ctx("alice.near", "alice.near", 1, 0), None).is_err());
    approve(&mut c, "nft.near", "t", "alice.near").unwrap();
    c.ft_on_transfer(&ctx("bift.near", "bob.near", 0, 0), s("bob.near"), 10, Some(BorrowArgs { nft_contract: s("nft.near"), token_id: s("t"), expiry: 5 }))
        .unwrap();
    c.storage_withdraw(&ctx("bob.near", "bob.near", 1, 0)).unwrap();
    c.storage_deposit(&ctx("carol.near", "carol.near", 5 * STORAGE_PER_OFFER, 0), Some(s("alice.near"))).unwrap();
    assert_eq!(c.storage_balance_of(&s("alice.near")), 8 * STORAGE_PER_OFFER);
}

#[test]
fn an_offer_is_held_while_its_last_creation_stands() {
    let mut c = Contract::new(s("shop.near"), s("bift.near"));
    c.storage_deposit(&ctx("alice.near", "alice.near", 10 * STORAGE_PER_OFFER, 0), None).unwrap();
    let key = s("nft.near.t");
    assert_eq!(c.get_offer(&key), None);
    approve(&mut c, "nft.near", "t", "alice.near").unwrap();
    assert!(c.get_offer(&key).is_some());
    c.update_offer(&ctx("alice.near", "alice.near", 1, 0), s("nft.near"), s("t"), 2, 20, 200).unwrap();
    assert!(c.get_offer(&key).is_some());
    c.remove_offer(&ctx("alice.near", "alice.near", 1, 0), s("nft.near"), s("t")).unwrap();
    assert_eq!(c.get_offer(&key), None);
    assert!(c.remove_offer(&ctx("alice.near", "alice.near", 1, 0), s("nft.near"), s("t")).is_err());
    approve(&mut c, "nft.near", "t", "alice.near").unwrap();
    let o = c.get_offer(&key).unwrap();
    assert_eq!(format!("{}.{}", o.nft_contract_id, o.token_id), key);
    assert_eq!(o.status, s("OFFER"));
}

#[test]
fn a_guarantee_is_paid_out_once_over_many_attempts() {
    let mut c = Contract::new(s("shop.near"), s("bift.near"));
    c.storage_deposit(&ctx("alice.near", "alice.near", STORAGE_PER_OFFER, 0), None).unwrap();
    approve(&mut c, "nft.near", "t", "alice.near").unwrap();
    c.ft_on_transfer(&ctx("bift.near", "bob.near", 0, 0), s("bob.near"), 10, Some(BorrowArgs { nft_contract: s("nft.near"), token_id: s("t"), expiry: 5 }))
        .unwrap();
    let sec = 1_000_000_000u64;
    let mut paid = 0;
    for time in [1, 3, 5, 6, 7, 100] {
        if c.withdraw_guarantee(&ctx("bob.near", "bob.near", 1, time * sec), s("nft.near"), s("t")).is_ok() {
            paid += 1;
        }
        if c.liquidate(&ctx("alice.near", "alice.near", 1, time * sec), s("nft.near"), s("t")).is_ok() {
            paid += 1;
        }
    }
    assert_eq!(paid, 1);
}
