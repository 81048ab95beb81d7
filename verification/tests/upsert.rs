use nft_voter::configure_collection::check_request;
use nft_voter::configure_collection::configure_collection_with_authority;
use nft_voter::configure_collection::ConfigureCollection;
use nft_voter::error::NftLockerError;
use nft_voter::identity::Identity;
use nft_voter::realm::RealmAccount;
use nft_voter::realm::RealmAuthority;
use nft_voter::state::CollectionConfig;
use nft_voter::state::Registrar;

fn id(byte: u8) -> Identity {
    Identity::new([byte; 32])
}

fn program() -> Identity {
    id(200)
}

fn realm() -> Identity {
    id(201)
}

fn mint() -> Identity {
    id(202)
}

fn signer() -> Identity {
    id(203)
}

fn context(max_collections: u8, collection: Identity) -> ConfigureCollection {
    ConfigureCollection {
        registrar: Registrar::new(program(), realm(), mint(), max_collections),
        realm: RealmAccount { key: realm(), owner: program(), data: vec![1, 2, 3] },
        realm_authority: signer(),
        collection,
    }
}

fn entry(collection: Identity, weight: u16, size: u32) -> CollectionConfig {
    CollectionConfig { collection, weight, reserved: [0; 8], size }
}

fn as_authority() -> RealmAuthority {
    RealmAuthority::Held(signer())
}

#[test]
fn identity_compares_all_bytes() {
    let a = id(9);
    let mut bytes = [9u8; 32];
    assert!(a.same_as(&Identity::new(bytes)));
    bytes[31] = 8;
    assert!(!a.same_as(&Identity::new(bytes)));
    bytes[31] = 9;
    bytes[0] = 0;
    assert!(!a.same_as(&Identity::new(bytes)));
    assert_eq!(Identity::new(bytes).bytes, bytes);
}

#[test]
fn new_registrar_is_empty() {
    let registrar = Registrar::new(program(), realm(), mint(), 4);
    assert_eq!(registrar.governance_program_id, program());
    assert_eq!(registrar.realm, realm());
    assert_eq!(registrar.governing_token_mint, mint());
    assert_eq!(registrar.max_collections, 4);
    assert!(registrar.collection_configs.is_empty());
}

#[test]
fn new_entry_has_zeroed_padding() {
    let config = CollectionConfig::new(id(1), 5, 100);
    assert_eq!(config, entry(id(1), 5, 100));
    assert_eq!(config.reserved, [0u8; 8]);
}

#[test]
fn check_request_order() {
    let registrar = Registrar::new(program(), realm(), mint(), 4);
    assert_eq!(check_request(&registrar, &realm(), 1, 1), Ok(()));
    assert_eq!(
        check_request(&registrar, &id(7), 0, 0),
        Err(NftLockerError::InvalidRegistrarRealm)
    );
    assert_eq!(
        check_request(&registrar, &realm(), 0, 0),
        Err(NftLockerError::InvalidCollectionWeight)
    );
    assert_eq!(
        check_request(&registrar, &realm(), 1, 0),
        Err(NftLockerError::InvalidCollectionSize)
    );
    assert_eq!(check_request(&registrar, &realm(), u16::MAX, u32::MAX), Ok(()));
}

#[test]
fn upsert_into_empty_list() {
    let mut ctx = context(3, id(1));
    assert_eq!(configure_collection_with_authority(&mut ctx, 5, 100, as_authority()), Ok(()));
    assert_eq!(ctx.registrar.collection_configs, vec![entry(id(1), 5, 100)]);
}

#[test]
fn upsert_overwrites_in_place() {
    let mut ctx = context(3, id(1));
    assert_eq!(configure_collection_with_authority(&mut ctx, 5, 100, as_authority()), Ok(()));
    assert_eq!(configure_collection_with_authority(&mut ctx, 7, 50, as_authority()), Ok(()));
    assert_eq!(ctx.registrar.collection_configs, vec![entry(id(1), 7, 50)]);
}

#[test]
fn overwrite_keeps_place_and_neighbours() {
    let mut ctx = context(3, id(1));
    assert_eq!(configure_collection_with_authority(&mut ctx, 1, 10, as_authority()), Ok(()));
    ctx.collection = id(2);
    assert_eq!(configure_collection_with_authority(&mut ctx, 2, 20, as_authority()), Ok(()));
    ctx.collection = id(3);
    assert_eq!(configure_collection_with_authority(&mut ctx, 3, 30, as_authority()), Ok(()));
    ctx.collection = id(2);
    assert_eq!(configure_collection_with_authority(&mut ctx, 9, 99, as_authority()), Ok(()));
    assert_eq!(
        ctx.registrar.collection_configs,
        vec![entry(id(1), 1, 10), entry(id(2), 9, 99), entry(id(3), 3, 30)]
    );
}

#[test]
fn overwrite_zeroes_padding() {
    let mut ctx = context(2, id(1));
    ctx.registrar.collection_configs.push(CollectionConfig {
        collection: id(1),
        weight: 4,
        reserved: [7; 8],
        size: 40,
    });
    assert_eq!(configure_collection_with_authority(&mut ctx, 5, 50, as_authority()), Ok(()));
    assert_eq!(ctx.registrar.collection_configs, vec![entry(id(1), 5, 50)]);
}

#[test]
fn fill_to_capacity() {
    let mut ctx = context(3, id(1));
    let mut expected: Vec<CollectionConfig> = Vec::new();
    for n in 1..=3u8 {
        ctx.collection = id(n);
        let weight = u16::from(n);
        let size = u32::from(n) * 10;
        assert_eq!(configure_collection_with_authority(&mut ctx, weight, size, as_authority()), Ok(()));
        expected.push(entry(id(n), weight, size));
        assert_eq!(ctx.registrar.collection_configs, expected);
    }
    ctx.collection = id(4);
    let before = ctx.clone();
    assert_eq!(
        configure_collection_with_authority(&mut ctx, 4, 40, as_authority()),
        Err(NftLockerError::CollectionConfigCapacityExceeded)
    );
    assert_eq!(ctx, before);
    assert_eq!(ctx.registrar.collection_configs, expected);
}

#[test]
fn full_registrar_still_overwrites() {
    let mut ctx = context(1, id(1));
    assert_eq!(configure_collection_with_authority(&mut ctx, 1, 1, as_authority()), Ok(()));
    assert_eq!(configure_collection_with_authority(&mut ctx, 2, 2, as_authority()), Ok(()));
    assert_eq!(ctx.registrar.collection_configs, vec![entry(id(1), 2, 2)]);
}

#[test]
fn registrar_without_room_refuses() {
    let mut ctx = context(0, id(1));
    let before = ctx.clone();
    assert_eq!(
        configure_collection_with_authority(&mut ctx, 1, 1, as_authority()),
        Err(NftLockerError::CollectionConfigCapacityExceeded)
    );
    assert_eq!(ctx, before);
}

#[test]
fn configuring_twice_is_configuring_once() {
    let mut once = context(3, id(1));
    assert_eq!(configure_collection_with_authority(&mut once, 5, 100, as_authority()), Ok(()));
    let mut twice = once.clone();
    assert_eq!(configure_collection_with_authority(&mut twice, 5, 100, as_authority()), Ok(()));
    assert_eq!(twice, once);
}

#[test]
fn refused_twice_is_refused_once() {
    let mut ctx = context(3, id(1));
    let before = ctx.clone();
    for _ in 0..2 {
        assert_eq!(
            configure_collection_with_authority(&mut ctx, 5, 100, RealmAuthority::Held(id(77))),
            Err(NftLockerError::InvalidRealmAuthority)
        );
        assert_eq!(ctx, before);
    }
}

#[test]
fn zero_weight_or_size_changes_nothing() {
    let mut ctx = context(3, id(1));
    assert_eq!(configure_collection_with_authority(&mut ctx, 5, 100, as_authority()), Ok(()));
    let before = ctx.clone();
    assert_eq!(
        configure_collection_with_authority(&mut ctx, 0, 100, as_authority()),
        Err(NftLockerError::InvalidCollectionWeight)
    );
    assert_eq!(ctx, before);
    assert_eq!(
        configure_collection_with_authority(&mut ctx, 5, 0, as_authority()),
        Err(NftLockerError::InvalidCollectionSize)
    );
    assert_eq!(ctx, before);
    assert_eq!(
        configure_collection_with_authority(&mut ctx, 0, 0, as_authority()),
        Err(NftLockerError::InvalidCollectionWeight)
    );
    assert_eq!(ctx, before);
}

#[test]
fn zero_weight_is_refused_before_the_authority_is_looked_at() {
    let mut ctx = context(3, id(1));
    assert_eq!(
        configure_collection_with_authority(&mut ctx, 0, 1, RealmAuthority::LookupFailed),
        Err(NftLockerError::InvalidCollectionWeight)
    );
    assert_eq!(
        configure_collection_with_authority(&mut ctx, 1, 0, RealmAuthority::Unset),
        Err(NftLockerError::InvalidCollectionSize)
    );
}

#[test]
fn foreign_realm_is_refused_first() {
    let mut ctx = context(3, id(1));
    ctx.realm.key = id(50);
    let before = ctx.clone();
    assert_eq!(
        configure_collection_with_authority(&mut ctx, 5, 100, as_authority()),
        Err(NftLockerError::InvalidRegistrarRealm)
    );
    assert_eq!(
        configure_collection_with_authority(&mut ctx, 0, 0, RealmAuthority::Held(id(77))),
        Err(NftLockerError::InvalidRegistrarRealm)
    );
    assert_eq!(
        configure_collection_with_authority(&mut ctx, 5, 100, RealmAuthority::LookupFailed),
        Err(NftLockerError::InvalidRegistrarRealm)
    );
    assert_eq!(ctx, before);
}

#[test]
fn other_signer_is_refused() {
    let mut ctx = context(3, id(1));
    let before = ctx.clone();
    assert_eq!(
        configure_collection_with_authority(&mut ctx, 5, 100, RealmAuthority::Held(id(77))),
        Err(NftLockerError::InvalidRealmAuthority)
    );
    assert_eq!(ctx, before);
}

#[test]
fn failed_lookup_and_unset_authority_are_refused() {
    let mut ctx = context(3, id(1));
    let before = ctx.clone();
    assert_eq!(
        configure_collection_with_authority(&mut ctx, 5, 100, RealmAuthority::LookupFailed),
        Err(NftLockerError::RealmLookupFailed)
    );
    assert_eq!(
        configure_collection_with_authority(&mut ctx, 5, 100, RealmAuthority::Unset),
        Err(NftLockerError::RealmAuthorityUnset)
    );
    assert_eq!(ctx, before);
}

#[test]
fn position_is_the_first_match() {
    let mut registrar = Registrar::new(program(), realm(), mint(), 4);
    assert_eq!(registrar.position(&id(1)), None);
    assert_eq!(registrar.upsert(id(1), 1, 1), Ok(()));
    assert_eq!(registrar.upsert(id(2), 2, 2), Ok(()));
    assert_eq!(registrar.position(&id(1)), Some(0));
    assert_eq!(registrar.position(&id(2)), Some(1));
    assert_eq!(registrar.position(&id(3)), None);
    registrar.collection_configs.push(entry(id(1), 8, 8));
    assert_eq!(registrar.position(&id(1)), Some(0));
    assert_eq!(registrar.upsert(id(1), 9, 9), Ok(()));
    assert_eq!(
        registrar.collection_configs,
        vec![entry(id(1), 9, 9), entry(id(2), 2, 2), entry(id(1), 8, 8)]
    );
}

#[test]
fn upsert_takes_the_largest_values() {
    let mut registrar = Registrar::new(program(), realm(), mint(), u8::MAX);
    assert_eq!(registrar.upsert(id(1), u16::MAX, u32::MAX), Ok(()));
    assert_eq!(registrar.collection_configs, vec![entry(id(1), 65535, 4294967295)]);
}

#[test]
fn upsert_fills_the_largest_registrar() {
    let mut registrar = Registrar::new(program(), realm(), mint(), u8::MAX);
    for n in 0..255u8 {
        assert_eq!(registrar.upsert(id(n), 1, 1), Ok(()));
    }
    assert_eq!(registrar.collection_configs.len(), 255);
    assert_eq!(
        registrar.upsert(id(255), 1, 1),
        Err(NftLockerError::CollectionConfigCapacityExceeded)
    );
    assert_eq!(registrar.collection_configs.len(), 255);
    assert_eq!(registrar.upsert(id(254), 2, 2), Ok(()));
    assert_eq!(registrar.collection_configs[254], entry(id(254), 2, 2));
}
