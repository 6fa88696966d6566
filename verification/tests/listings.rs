use bicycle_shop::contract::{CallContext, Contract, ContractError};
use bicycle_shop::offer::OfferArgs;
use bicycle_shop::storage::STORAGE_PER_OFFER;

fn ctx(predecessor: &str, signer: &str, deposit: u128, time: u64) -> CallContext {
    CallContext {
        predecessor_id: predecessor.to_string(),
        signer_id: signer.to_string(),
        attached_deposit: deposit,
        block_timestamp: time,
    }
}

fn s(x: &str) -> String {
    x.to_string()
}

fn terms() -> Option<OfferArgs> {
    Some(OfferArgs { rent: 1, guarantee: 5000, max_duration: 2500 })
}

fn approve(c: &mut Contract, nft: &str, token: &str, owner: &str) -> Result<(), ContractError> {
    c.nft_on_approve(&ctx(nft, owner, 0, 0), s(token), s(owner), 0, terms())
}

/// alice offers a, b, c of nft.near; bob offers x of art.near.
fn shop() -> Contract {
    let mut c = Contract::new(s("shop.near"), s("bift.near"));
    c.storage_deposit(&ctx("alice.near", "alice.near", 10 * STORAGE_PER_OFFER, 0), None).unwrap();
    c.storage_deposit(&ctx("bob.near", "bob.near", 10 * STORAGE_PER_OFFER, 0), None).unwrap();
    approve(&mut c, "nft.near", "a", "alice.near").unwrap();
    approve(&mut c, "nft.near", "b", "alice.near").unwrap();
    approve(&mut c, "nft.near", "c", "alice.near").unwrap();
    approve(&mut c, "art.near", "x", "bob.near").unwrap();
    c
}

fn tokens(v: &[bicycle_shop::offer::Offer]) -> Vec<String> {
    v.iter().map(|o| o.token_id.clone()).collect()
}

#[test]
fn listing_by_owner_pages_in_insertion_order() {
    let c = shop();
    let alice = s("alice.near");
    assert_eq!(c.get_supply_offers(), 4);
    assert_eq!(c.get_supply_by_owner_id(&alice), 3);
    assert_eq!(tokens(&c.get_offers_by_owner_id(&alice, None, Some(10)).unwrap()), vec!["a", "b", "c"]);
    assert_eq!(tokens(&c.get_offers_by_owner_id(&alice, Some(1), Some(1)).unwrap()), vec!["b"]);
    assert_eq!(tokens(&c.get_offers_by_owner_id(&alice, Some(1), Some(5)).unwrap()), vec!["b", "c"]);
    assert_eq!(tokens(&c.get_offers_by_owner_id(&alice, Some(3), Some(5)).unwrap()), Vec::<String>::new());
    assert_eq!(tokens(&c.get_offers_by_owner_id(&alice, Some(0), None).unwrap()), Vec::<String>::new());
    assert_eq!(tokens(&c.get_offers_by_owner_id(&s("nobody.near"), None, Some(5)).unwrap()), Vec::<String>::new());
    assert_eq!(
        tokens(&c.get_offers_by_owner_id(&alice, Some(u128::MAX), Some(u64::MAX)).unwrap()),
        Vec::<String>::new()
    );
}

#[test]
fn listing_cursors_of_any_size_skip_exactly_that_many() {
    let c = shop();
    let alice = s("alice.near");
    let nft = s("nft.near");
    assert_eq!(tokens(&c.get_offers_by_owner_id(&alice, Some(1u128 << 64), Some(5)).unwrap()), Vec::<String>::new());
    assert_eq!(tokens(&c.get_offers_by_owner_id(&alice, Some((1u128 << 64) + 1), Some(5)).unwrap()), Vec::<String>::new());
    assert_eq!(tokens(&c.get_offers_by_owner_id(&alice, Some(1u128 << 32), Some(5)).unwrap()), Vec::<String>::new());
    assert_eq!(tokens(&c.get_offers_by_owner_id(&alice, Some(0), Some(1u64 << 32)).unwrap()), vec!["a", "b", "c"]);
    assert_eq!(tokens(&c.get_offers_by_owner_id(&alice, Some(2), Some(u64::MAX)).unwrap()), vec!["c"]);
    assert_eq!(tokens(&c.get_offers_by_nft_contract_id(&nft, Some(1u128 << 64), Some(5)).unwrap()), Vec::<String>::new());
    assert_eq!(tokens(&c.get_offers_by_nft_contract_id(&nft, Some(1), Some(1u64 << 32)).unwrap()), vec!["b", "c"]);
}

#[test]
fn listing_by_nft_contract_pages_in_insertion_order() {
    let c = shop();
    let nft = s("nft.near");
    assert_eq!(c.get_supply_by_nft_contract_id(&nft), 3);
    assert_eq!(c.get_supply_by_nft_contract_id(&s("art.near")), 1);
    assert_eq!(c.get_supply_by_nft_contract_id(&s("none.near")), 0);
    assert_eq!(tokens(&c.get_offers_by_nft_contract_id(&nft, Some(0), Some(2)).unwrap()), vec!["a", "b"]);
    let art = c.get_offers_by_nft_contract_id(&s("art.near"), None, Some(1)).unwrap();
    assert_eq!(art.len(), 1);
    assert_eq!(art[0].owner_id, s("bob.near"));
    assert_eq!(tokens(&c.get_offers_by_nft_contract_id(&s("none.near"), None, Some(3)).unwrap()), Vec::<String>::new());
}

#[test]
fn removing_moves_the_last_offer_into_the_gap() {
    let mut c = shop();
    c.remove_offer(&ctx("alice.near", "alice.near", 1, 0), s("nft.near"), s("a")).unwrap();
    let alice = s("alice.near");
    assert_eq!(tokens(&c.get_offers_by_owner_id(&alice, None, Some(10)).unwrap()), vec!["c", "b"]);
    assert_eq!(tokens(&c.get_offers_by_nft_contract_id(&s("nft.near"), None, Some(10)).unwrap()), vec!["c", "b"]);
    assert_eq!(c.get_supply_offers(), 3);
    assert_eq!(c.get_offer(&s("nft.near.a")), None);
}

#[test]
fn removing_the_last_offer_empties_the_indexes() {
    let mut c = shop();
    c.remove_offer(&ctx("bob.near", "bob.near", 1, 0), s("art.near"), s("x")).unwrap();
    assert_eq!(c.get_supply_by_owner_id(&s("bob.near")), 0);
    assert_eq!(c.get_supply_by_nft_contract_id(&s("art.near")), 0);
    // the storage that bob paid can now all be withdrawn
    let r = c.storage_withdraw(&ctx("bob.near", "bob.near", 1, 0)).unwrap();
    assert_eq!(r.unwrap().amount, 10 * STORAGE_PER_OFFER);
}

#[test]
fn approve_then_remove_gives_back_the_shop() {
    let mut c = shop();
    let alice = s("alice.near");
    let before_owner = tokens(&c.get_offers_by_owner_id(&alice, None, Some(10)).unwrap());
    approve(&mut c, "other.near", "d", "alice.near").unwrap();
    assert_eq!(c.get_supply_offers(), 5);
    c.remove_offer(&ctx("alice.near", "alice.near", 1, 0), s("other.near"), s("d")).unwrap();
    assert_eq!(c.get_supply_offers(), 4);
    assert_eq!(tokens(&c.get_offers_by_owner_id(&alice, None, Some(10)).unwrap()), before_owner);
    assert_eq!(c.get_supply_by_nft_contract_id(&s("other.near")), 0);
    assert_eq!(c.storage_balance_of(&alice), 10 * STORAGE_PER_OFFER);
}

#[test]
fn remove_offer_refusals() {
    let mut c = shop();
    assert_eq!(
        c.remove_offer(&ctx("alice.near", "alice.near", 0, 0), s("nft.near"), s("a")),
        Err(ContractError::RequiresOneYocto)
    );
    assert_eq!(
        c.remove_offer(&ctx("alice.near", "alice.near", 1, 0), s("nft.near"), s("zzz")),
        Err(ContractError::NoOffer)
    );
    assert_eq!(
        c.remove_offer(&ctx("bob.near", "bob.near", 1, 0), s("nft.near"), s("a")),
        Err(ContractError::MustBeOfferOwner)
    );
    c.ft_on_transfer(
        &ctx("bift.near", "bob.near", 0, 0),
        s("bob.near"),
        5000,
        Some(bicycle_shop::offer::BorrowArgs { nft_contract: s("nft.near"), token_id: s("a"), expiry: 10 }),
    )
    .unwrap();
    assert_eq!(
        c.remove_offer(&ctx("alice.near", "alice.near", 1, 0), s("nft.near"), s("a")),
        Err(ContractError::InvalidOfferState)
    );
    assert_eq!(c.get_supply_offers(), 4);
    assert_eq!(c.get_supply_by_owner_id(&s("alice.near")), 3);
}

#[test]
fn a_key_shared_by_two_pairs_cannot_be_removed_through_the_other_pair() {
    // "a.b" + "." + "c" is the same key as "a" + "." + "b.c"
    let mut c = Contract::new(s("shop.near"), s("bift.near"));
    c.storage_deposit(&ctx("alice.near", "alice.near", 10 * STORAGE_PER_OFFER, 0), None).unwrap();
    approve(&mut c, "a.b", "c", "alice.near").unwrap();
    assert_eq!(approve(&mut c, "a", "b.c", "alice.near"), Err(ContractError::OfferAlreadyAvailable));
    assert_eq!(
        c.remove_offer(&ctx("alice.near", "alice.near", 1, 0), s("a"), s("b.c")),
        Err(ContractError::NoOfferByNftContract)
    );
    assert_eq!(c.get_supply_offers(), 1);
    c.remove_offer(&ctx("alice.near", "alice.near", 1, 0), s("a.b"), s("c")).unwrap();
    assert_eq!(c.get_supply_offers(), 0);
}

#[test]
fn storage_limits_the_number_of_offers() {
    let mut c = Contract::new(s("shop.near"), s("bift.near"));
    c.storage_deposit(&ctx("alice.near", "alice.near", 2 * STORAGE_PER_OFFER, 0), None).unwrap();
    approve(&mut c, "nft.near", "1", "alice.near").unwrap();
    approve(&mut c, "nft.near", "2", "alice.near").unwrap();
    assert_eq!(
        approve(&mut c, "nft.near", "3", "alice.near"),
        Err(ContractError::InsufficientStorage { paid: 2 * STORAGE_PER_OFFER, required: 3 * STORAGE_PER_OFFER })
    );
    // withdrawing keeps exactly what the two offers use
    assert_eq!(c.storage_withdraw(&ctx("alice.near", "alice.near", 1, 0)), Ok(None));
    assert_eq!(c.storage_balance_of(&s("alice.near")), 2 * STORAGE_PER_OFFER);
}

#[test]
fn removing_through_the_other_pair_of_a_shared_key_leaves_a_stale_entry() {
    let mut c = Contract::new(s("shop.near"), s("bift.near"));
    c.storage_deposit(&ctx("alice.near", "alice.near", 10 * STORAGE_PER_OFFER, 0), None).unwrap();
    approve(&mut c, "a.b", "c", "alice.near").unwrap();
    approve(&mut c, "a", "z", "alice.near").unwrap();
    c.remove_offer(&ctx("alice.near", "alice.near", 1, 0), s("a"), s("b.c")).unwrap();
    assert_eq!(c.get_supply_offers(), 1);
    assert_eq!(c.get_supply_by_nft_contract_id(&s("a.b")), 1);
    assert_eq!(c.get_offers_by_nft_contract_id(&s("a.b"), None, Some(1)), Err(ContractError::StaleIndex));
}
