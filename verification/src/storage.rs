//! Storage accounting constants and storage-key helpers.

use vstd::prelude::*;
use vstd::utf8::encode_utf8;

verus! {

/// What the chain charges for one byte of storage, in yoctoNEAR.
pub const STORAGE_PRICE_PER_BYTE: u128 = 10_000_000_000_000_000_000u128;

/// What an owner must have deposited for each offer that the shop holds
/// for them: one thousand bytes of storage.
pub const STORAGE_PER_OFFER: u128 = 10_000_000_000_000_000_000_000u128;

/// The SHA-256 digest of a byte string, as `near_sdk::env::sha256` computes it.
pub uninterp spec fn sha256_digest(data: Seq<u8>) -> Seq<u8>;

/// Calls `near_sdk::env::sha256`. Trusted: the result is taken to be the
/// digest of the given bytes and nothing else, and to be 32 bytes long (the
/// function returns `sha256_array(..).to_vec()` of a `[u8; 32]`).
#[verifier::external_body]
fn sha256(data: &[u8]) -> (digest: Vec<u8>)
    ensures
        digest@ == sha256_digest(data@),
        digest@.len() == 32,
{
    near_sdk::env::sha256(data)
}

/// The 32-byte hash of an account id, used to derive a unique storage prefix
/// for the collections kept per account.
pub fn hash_account_id(account_id: &String) -> (hash: [u8; 32])
    ensures
        hash@ == sha256_digest(encode_utf8(account_id@)),
{
    let digest = sha256(account_id.as_str().as_bytes());
    let mut hash: [u8; 32] = [0u8; 32];
    let mut i: usize = 0;
    while i < 32
        invariant
            0 <= i <= 32,
            digest@.len() == 32,
            forall|j: int| 0 <= j < i ==> hash@[j] == digest@[j],
        decreases 32 - i,
    {
        hash[i] = digest[i];
        i = i + 1;
    }
    assert(hash@ =~= digest@);
    hash
}


/// The prefixes under which the shop's collections are stored.
#[derive(Debug, Clone, Copy, PartialEq, Eq)]
pub enum StorageKey {
    Offers,
    ByOwnerId,
    ByOwnerIdInner { account_id_hash: [u8; 32] },
    ByNFTContractId,
    ByNFTContractIdInner { account_id_hash: [u8; 32] },
    ByNFTTokenType,
    ByNFTTokenTypeInner { token_type_hash: [u8; 32] },
    FTTokenIds,
    StorageDeposits,
}

impl StorageKey {
    /// The prefix of the set of offer keys kept for one owner.
    pub fn by_owner_id_inner(owner_id: &String) -> (key: StorageKey)
        ensures
            key matches StorageKey::ByOwnerIdInner { account_id_hash } && account_id_hash@
                == sha256_digest(encode_utf8(owner_id@)),
    {
        StorageKey::ByOwnerIdInner { account_id_hash: hash_account_id(owner_id) }
    }

    /// The prefix of the set of token ids kept for one NFT contract.
    pub fn by_nft_contract_id_inner(nft_contract_id: &String) -> (key: StorageKey)
        ensures
            key matches StorageKey::ByNFTContractIdInner { account_id_hash } && account_id_hash@
                == sha256_digest(encode_utf8(nft_contract_id@)),
    {
        StorageKey::ByNFTContractIdInner { account_id_hash: hash_account_id(nft_contract_id) }
    }
}

} // verus!
