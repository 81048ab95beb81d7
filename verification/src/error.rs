use vstd::prelude::*;

verus! {

/// Why a collection could not be configured.
#[derive(Clone, Copy, Debug, PartialEq, Eq, Structural)]
pub enum NftLockerError {
    /// The registrar belongs to another realm than the one presented.
    InvalidRegistrarRealm,
    /// The weight is zero.
    InvalidCollectionWeight,
    /// The size is zero.
    InvalidCollectionSize,
    /// The signer is not the realm's authority.
    InvalidRealmAuthority,
    /// The realm account could not be read as a realm of the governing mint.
    RealmLookupFailed,
    /// The realm has no authority.
    RealmAuthorityUnset,
    /// The registrar is full and the collection is new to it.
    CollectionConfigCapacityExceeded,
}

} // verus!
