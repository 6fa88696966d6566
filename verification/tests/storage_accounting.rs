use bicycle_shop::contract::{CallContext, Contract, ContractError, NativeTransfer};
use bicycle_shop::offer::OfferArgs;
use bicycle_shop::storage::{hash_account_id, StorageKey, STORAGE_PER_OFFER, STORAGE_PRICE_PER_BYTE};

fn ctx(predecessor: &str, signer: &str, deposit: u128, time: u64) -> CallContext {
    CallContext {
        predecessor_id: predecessor.to_string(),
        signer_id: signer.to_string(),
        attached_deposit: deposit,
        block_timestamp: time,
    }
}

fn shop() -> Contract {
    Contract::new("shop.near".to_string(), "bift.near".to_string())
}

fn terms() -> Option<OfferArgs> {
    Some(OfferArgs { rent: 1, guarantee: 5000, max_duration: 2500 })
}

#[test]
fn storage_per_offer_is_a_thousand_bytes() {
    assert_eq!(STORAGE_PER_OFFER, 1000 * STORAGE_PRICE_PER_BYTE);
    assert_eq!(STORAGE_PER_OFFER, 10_000_000_000_000_000_000_000);
    assert_eq!(shop().storage_minimum_balance(), STORAGE_PER_OFFER);
}

#[test]
fn new_account_has_no_balance() {
    let c = shop();
    assert_eq!(c.storage_balance_of(&"alice.near".to_string()), 0);
}

#[test]
fn storage_deposit_then_balance_reads_it_back() {
    let mut c = shop();
    c.storage_deposit(&ctx("alice.near", "alice.near", STORAGE_PER_OFFER, 0), None).unwrap();
    assert_eq!(c.storage_balance_of(&"alice.near".to_string()), STORAGE_PER_OFFER);
    c.storage_deposit(&ctx("alice.near", "alice.near", 2 * STORAGE_PER_OFFER, 0), None).unwrap();
    assert_eq!(c.storage_balance_of(&"alice.near".to_string()), 3 * STORAGE_PER_OFFER);
    assert_eq!(c.storage_balance_of(&"bob.near".to_string()), 0);
}

#[test]
fn storage_deposit_for_another_account() {
    let mut c = shop();
    c.storage_deposit(&ctx("alice.near", "alice.near", STORAGE_PER_OFFER, 0), Some("bob.near".to_string()))
        .unwrap();
    assert_eq!(c.storage_balance_of(&"bob.near".to_string()), STORAGE_PER_OFFER);
    assert_eq!(c.storage_balance_of(&"alice.near".to_string()), 0);
}

#[test]
fn storage_deposit_below_one_offer_is_refused() {
    let mut c = shop();
    let r = c.storage_deposit(&ctx("alice.near", "alice.near", STORAGE_PER_OFFER - 1, 0), None);
    assert_eq!(r, Err(ContractError::DepositTooSmall));
    assert_eq!(c.storage_balance_of(&"alice.near".to_string()), 0);
}

#[test]
fn storage_deposit_overflow_is_refused() {
    let mut c = shop();
    c.storage_deposit(&ctx("alice.near", "alice.near", u128::MAX, 0), None).unwrap();
    let r = c.storage_deposit(&ctx("alice.near", "alice.near", STORAGE_PER_OFFER, 0), None);
    assert_eq!(r, Err(ContractError::ArithmeticOverflow));
    assert_eq!(c.storage_balance_of(&"alice.near".to_string()), u128::MAX);
}

#[test]
fn storage_withdraw_needs_one_yocto() {
    let mut c = shop();
    c.storage_deposit(&ctx("alice.near", "alice.near", STORAGE_PER_OFFER, 0), None).unwrap();
    assert_eq!(c.storage_withdraw(&ctx("alice.near", "alice.near", 0, 0)), Err(ContractError::RequiresOneYocto));
    assert_eq!(c.storage_withdraw(&ctx("alice.near", "alice.near", 2, 0)), Err(ContractError::RequiresOneYocto));
    assert_eq!(c.storage_balance_of(&"alice.near".to_string()), STORAGE_PER_OFFER);
}

#[test]
fn storage_withdraw_without_offers_returns_everything() {
    let mut c = shop();
    c.storage_deposit(&ctx("alice.near", "alice.near", 2 * STORAGE_PER_OFFER, 0), None).unwrap();
    let r = c.storage_withdraw(&ctx("alice.near", "alice.near", 1, 0)).unwrap();
    assert_eq!(r, Some(NativeTransfer { receiver_id: "alice.near".to_string(), amount: 2 * STORAGE_PER_OFFER }));
    assert_eq!(c.storage_balance_of(&"alice.near".to_string()), 0);
}

#[test]
fn storage_withdraw_with_nothing_paid_transfers_nothing() {
    let mut c = shop();
    assert_eq!(c.storage_withdraw(&ctx("carol.near", "carol.near", 1, 0)), Ok(None));
    assert_eq!(c.storage_balance_of(&"carol.near".to_string()), 0);
}

#[test]
fn storage_withdraw_keeps_what_offers_use() {
    let mut c = shop();
    c.storage_deposit(&ctx("alice.near", "alice.near", 3 * STORAGE_PER_OFFER + 7, 0), None).unwrap();
    c.nft_on_approve(&ctx("nft.near", "alice.near", 0, 0), "t1".to_string(), "alice.near".to_string(), 0, terms())
        .unwrap();
    let r = c.storage_withdraw(&ctx("alice.near", "alice.near", 1, 0)).unwrap();
    assert_eq!(r, Some(NativeTransfer { receiver_id: "alice.near".to_string(), amount: 2 * STORAGE_PER_OFFER + 7 }));
    assert_eq!(c.storage_balance_of(&"alice.near".to_string()), STORAGE_PER_OFFER);
    // nothing more to take out
    assert_eq!(c.storage_withdraw(&ctx("alice.near", "alice.near", 1, 0)), Ok(None));
    assert_eq!(c.storage_balance_of(&"alice.near".to_string()), STORAGE_PER_OFFER);
}

#[test]
fn hash_account_id_is_the_sha256_of_the_id() {
    let expected: [u8; 32] = [
        45, 213, 221, 165, 64, 118, 123, 58, 26, 163, 53, 68, 188, 186, 56, 4, 47, 77, 246, 222, 155, 221, 180,
        103, 152, 178, 148, 129, 200, 66, 197, 88,
    ];
    assert_eq!(hash_account_id(&"alice.near".to_string()), expected);
    assert_ne!(hash_account_id(&"bob.near".to_string()), expected);
}

#[test]
fn storage_keys_carry_the_account_hash() {
    let h = hash_account_id(&"alice.near".to_string());
    assert_eq!(
        StorageKey::by_owner_id_inner(&"alice.near".to_string()),
        StorageKey::ByOwnerIdInner { account_id_hash: h }
    );
    assert_eq!(
        StorageKey::by_nft_contract_id_inner(&"alice.near".to_string()),
        StorageKey::ByNFTContractIdInner { account_id_hash: h }
    );
}
