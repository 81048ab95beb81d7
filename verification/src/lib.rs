//! Collection configuration for an NFT voter plugin.
//!
//! A registrar holds, for one governance realm, a bounded list of NFT
//! collections and the vote weight of each. Only the realm's authority may
//! add a collection or change its weight. Every function here is verified
//! against the contract in its header; the one call into the governance
//! program's own library is marked as trusted where it is made.

pub mod configure_collection;
pub mod error;
pub mod identity;
pub mod realm;
pub mod state;
