//! Verified core of a bicycle-lending shop: owners put NFTs on offer with a
//! rent, a guarantee and a maximum lending duration; borrowers pay the
//! guarantee in a fungible token; the shop settles the guarantee when the
//! borrower returns the item or when the owner liquidates an expired loan.

pub mod storage;
pub mod str_set;
pub mod str_map;
pub mod offer;
pub mod contract;
pub mod laws;
pub mod invariants;
pub mod history;
pub mod guards;
