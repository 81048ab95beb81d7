use crate::error::NftLockerError;
use crate::identity::lemma_identity_by_view;
use crate::identity::Identity;
use crate::realm::realm_authority;
use crate::realm::resolve_authority;
use crate::realm::RealmAccount;
use crate::realm::RealmAuthority;
use crate::state::configures;
use crate::state::lemma_upserted_twice;
use crate::state::CollectionConfig;
use crate::state::Registrar;
use crate::state::RegistrarView;
use vstd::prelude::*;

verus! {

/// What configuring a collection works on.
#[derive(Clone, Debug, PartialEq, Eq)]
pub struct ConfigureCollection {
    /// Registrar for which the collection is configured.
    pub registrar: Registrar,
    /// The realm's account, owned by the governance program that the
    /// registrar names.
    pub realm: RealmAccount,
    /// The signer, who claims to be the authority of the realm.
    pub realm_authority: Identity,
    /// The collection which is going to be used for voting.
    pub collection: Identity,
}

/// Why a registrar refuses to configure `collection` with `weight` and `size`
/// for `signer`, who presents the realm `realm` whose lookup gave `found`;
/// `None` where it does not refuse. The first failing check decides: the
/// registrar's realm, the weight, the size, the lookup, the signer, the room.
pub open spec fn refusal(
    registrar: RegistrarView,
    realm: Identity,
    signer: Identity,
    collection: Identity,
    weight: u16,
    size: u32,
    found: Option<Option<Seq<u8>>>,
) -> Option<NftLockerError> {
    if registrar.realm != realm {
        Some(NftLockerError::InvalidRegistrarRealm)
    } else if weight == 0 {
        Some(NftLockerError::InvalidCollectionWeight)
    } else if size == 0 {
        Some(NftLockerError::InvalidCollectionSize)
    } else if found is None {
        Some(NftLockerError::RealmLookupFailed)
    } else if found == Some(None::<Seq<u8>>) {
        Some(NftLockerError::RealmAuthorityUnset)
    } else if found != Some(Some(signer@)) {
        Some(NftLockerError::InvalidRealmAuthority)
    } else if !registrar.accepts(collection) {
        Some(NftLockerError::CollectionConfigCapacityExceeded)
    } else {
        None
    }
}

/// The registrar after the request was handled: with the entry written where
/// nothing refuses it, else as it was.
pub open spec fn configured(
    registrar: RegistrarView,
    realm: Identity,
    signer: Identity,
    collection: Identity,
    weight: u16,
    size: u32,
    found: Option<Option<Seq<u8>>>,
) -> RegistrarView {
    if refusal(registrar, realm, signer, collection, weight, size, found) is None {
        registrar.with_config(CollectionConfig::entry(collection, weight, size))
    } else {
        registrar
    }
}

impl ConfigureCollection {
    /// `refusal` for this context.
    pub open spec fn refusal(self, weight: u16, size: u32, found: Option<Option<Seq<u8>>>) -> Option<
        NftLockerError,
    > {
        refusal(
            self.registrar@,
            self.realm.key,
            self.realm_authority,
            self.collection,
            weight,
            size,
            found,
        )
    }

    /// `configured` for this context.
    pub open spec fn configured(
        self,
        weight: u16,
        size: u32,
        found: Option<Option<Seq<u8>>>,
    ) -> RegistrarView {
        configured(
            self.registrar@,
            self.realm.key,
            self.realm_authority,
            self.collection,
            weight,
            size,
            found,
        )
    }

    /// What the lookup of this context's realm gives.
    pub open spec fn lookup(self) -> Option<Option<Seq<u8>>> {
        realm_authority(
            self.registrar.governance_program_id@,
            self.realm.owner@,
            self.realm.data@,
            self.registrar.governing_token_mint@,
        )
    }

    /// Whether `other` differs from this context in its registrar's entries
    /// at most.
    pub open spec fn same_but_entries(self, other: ConfigureCollection) -> bool {
        &&& self.realm == other.realm
        &&& self.realm_authority == other.realm_authority
        &&& self.collection == other.collection
    }
}

/// The checks that need no lookup: the registrar is the presented realm's,
/// and weight and size are positive.
pub fn check_request(registrar: &Registrar, realm: &Identity, weight: u16, size: u32) -> (outcome:
    Result<(), NftLockerError>)
    ensures
        outcome == (if registrar.realm != *realm {
            Err::<(), NftLockerError>(NftLockerError::InvalidRegistrarRealm)
        } else if weight == 0 {
            Err(NftLockerError::InvalidCollectionWeight)
        } else if size == 0 {
            Err(NftLockerError::InvalidCollectionSize)
        } else {
            Ok(())
        }),
{
    if !registrar.realm.same_as(realm) {
        return Err(NftLockerError::InvalidRegistrarRealm);
    }
    if weight == 0 {
        return Err(NftLockerError::InvalidCollectionWeight);
    }
    if size == 0 {
        return Err(NftLockerError::InvalidCollectionSize);
    }
    Ok(())
}

/// Holds the signer against the looked-up authority and, where they agree,
/// writes the entry.
fn authorize_and_upsert(
    ctx: &mut ConfigureCollection,
    weight: u16,
    size: u32,
    authority: RealmAuthority,
) -> (outcome: Result<(), NftLockerError>)
    requires
        old(ctx).registrar.realm == old(ctx).realm.key,
        weight > 0,
        size > 0,
    ensures
        match old(ctx).refusal(weight, size, authority.model()) {
            Some(error) => outcome == Err::<(), NftLockerError>(error) && *final(ctx) == *old(ctx),
            None => outcome is Ok,
        },
        final(ctx).registrar@ == old(ctx).configured(weight, size, authority.model()),
        final(ctx).same_but_entries(*old(ctx)),
        old(ctx).registrar.wf() ==> final(ctx).registrar.wf(),
{
    match authority {
        RealmAuthority::LookupFailed => Err(NftLockerError::RealmLookupFailed),
        RealmAuthority::Unset => Err(NftLockerError::RealmAuthorityUnset),
        RealmAuthority::Held(held) => {
            proof {
                lemma_identity_by_view(held, ctx.realm_authority);
            }
            if !held.same_as(&ctx.realm_authority) {
                return Err(NftLockerError::InvalidRealmAuthority);
            }
            ctx.registrar.upsert(ctx.collection, weight, size)
        },
    }
}

/// Configures the collection of `ctx` with `weight` and `size`, given what
/// the lookup of the realm's authority gave. The checks run in the order of
/// `refusal`; a refused request changes nothing.
pub fn configure_collection_with_authority(
    ctx: &mut ConfigureCollection,
    weight: u16,
    size: u32,
    authority: RealmAuthority,
) -> (outcome: Result<(), NftLockerError>)
    ensures
        match old(ctx).refusal(weight, size, authority.model()) {
            Some(error) => outcome == Err::<(), NftLockerError>(error) && *final(ctx) == *old(ctx),
            None => outcome is Ok,
        },
        final(ctx).registrar@ == old(ctx).configured(weight, size, authority.model()),
        final(ctx).same_but_entries(*old(ctx)),
        old(ctx).registrar.wf() ==> final(ctx).registrar.wf(),
        weight == 0 || size == 0 ==> outcome is Err && *final(ctx) == *old(ctx),
        old(ctx).registrar.realm != old(ctx).realm.key ==> outcome == Err::<(), NftLockerError>(
            NftLockerError::InvalidRegistrarRealm,
        ),
        old(ctx).registrar.realm == old(ctx).realm.key && weight > 0 && size > 0 ==> (
        authority matches RealmAuthority::Held(held) && held != old(ctx).realm_authority)
            ==> outcome == Err::<(), NftLockerError>(NftLockerError::InvalidRealmAuthority)
            && *final(ctx) == *old(ctx),
{
    proof {
        if let RealmAuthority::Held(held) = authority {
            lemma_identity_by_view(held, ctx.realm_authority);
        }
    }
    match check_request(&ctx.registrar, &ctx.realm.key, weight, size) {
        Err(error) => Err(error),
        Ok(()) => authorize_and_upsert(ctx, weight, size, authority),
    }
}

/// Configures the collection of `ctx` with `weight` and `size`: looks up the
/// realm's authority, and writes the entry where the signer is that
/// authority. The checks run in the order of `refusal`, those that need no
/// lookup before the lookup is made; a refused request changes nothing.
pub fn configure_collection(ctx: &mut ConfigureCollection, weight: u16, size: u32) -> (outcome:
    Result<(), NftLockerError>)
    ensures
        match old(ctx).refusal(weight, size, old(ctx).lookup()) {
            Some(error) => outcome == Err::<(), NftLockerError>(error) && *final(ctx) == *old(ctx),
            None => outcome is Ok,
        },
        final(ctx).registrar@ == old(ctx).configured(weight, size, old(ctx).lookup()),
        final(ctx).same_but_entries(*old(ctx)),
        final(ctx).lookup() == old(ctx).lookup(),
        old(ctx).registrar.wf() ==> final(ctx).registrar.wf(),
        weight == 0 || size == 0 ==> outcome is Err && *final(ctx) == *old(ctx),
        old(ctx).registrar.realm != old(ctx).realm.key ==> outcome == Err::<(), NftLockerError>(
            NftLockerError::InvalidRegistrarRealm,
        ),
        old(ctx).registrar.realm == old(ctx).realm.key && weight > 0 && size > 0 ==> (
        old(ctx).lookup() matches Some(Some(held)) && held != old(ctx).realm_authority@)
            ==> outcome == Err::<(), NftLockerError>(NftLockerError::InvalidRealmAuthority)
            && *final(ctx) == *old(ctx),
{
    match check_request(&ctx.registrar, &ctx.realm.key, weight, size) {
        Err(error) => Err(error),
        Ok(()) => {
            let authority = resolve_authority(
                &ctx.registrar.governance_program_id,
                &ctx.realm,
                &ctx.registrar.governing_token_mint,
            );
            authorize_and_upsert(ctx, weight, size, authority)
        },
    }
}

/// One request to configure a collection.
pub struct Request {
    pub collection: Identity,
    pub weight: u16,
    pub size: u32,
}

impl Request {
    /// The entry that the request asks for.
    pub open spec fn entry(self) -> CollectionConfig {
        CollectionConfig::entry(self.collection, self.weight, self.size)
    }
}

/// The entries that `requests` ask for, in their order.
pub open spec fn entries_of(requests: Seq<Request>) -> Seq<CollectionConfig> {
    Seq::new(requests.len(), |i: int| requests[i].entry())
}

/// Positive weights and sizes, and no collection twice.
pub open spec fn distinct_valid_requests(requests: Seq<Request>) -> bool {
    &&& forall|i: int|
        0 <= i < requests.len() ==> (#[trigger] requests[i]).weight > 0 && requests[i].size > 0
    &&& forall|i: int, j: int|
        0 <= i < j < requests.len() ==> (#[trigger] requests[i]).collection != (
        #[trigger] requests[j]).collection
}

/// The registrar after `requests` were handled one after the other, each for
/// the same realm and signer and with the same answer of the lookup.
pub open spec fn configured_all(
    registrar: RegistrarView,
    realm: Identity,
    signer: Identity,
    found: Option<Option<Seq<u8>>>,
    requests: Seq<Request>,
) -> RegistrarView
    decreases requests.len(),
{
    if requests.len() == 0 {
        registrar
    } else {
        configured(
            configured_all(registrar, realm, signer, found, requests.drop_last()),
            realm,
            signer,
            requests.last().collection,
            requests.last().weight,
            requests.last().size,
            found,
        )
    }
}

/// Handling the same request twice in a row leaves the registrar as handling
/// it once does. (The lookup gives the same answer both times: it reads the
/// realm's account and the registrar's header, which no request changes.)
pub proof fn lemma_configure_idempotent(
    registrar: RegistrarView,
    realm: Identity,
    signer: Identity,
    collection: Identity,
    weight: u16,
    size: u32,
    found: Option<Option<Seq<u8>>>,
)
    ensures
        configured(
            configured(registrar, realm, signer, collection, weight, size, found),
            realm,
            signer,
            collection,
            weight,
            size,
            found,
        ) == configured(registrar, realm, signer, collection, weight, size, found),
        refusal(registrar, realm, signer, collection, weight, size, found) is None ==> refusal(
            configured(registrar, realm, signer, collection, weight, size, found),
            realm,
            signer,
            collection,
            weight,
            size,
            found,
        ) is None,
{
    lemma_upserted_twice(
        registrar.collection_configs,
        CollectionConfig::entry(collection, weight, size),
    );
}

/// None of `requests` is for a collection that `configs` holds.
pub open spec fn new_to(configs: Seq<CollectionConfig>, requests: Seq<Request>) -> bool {
    forall|i: int, j: int|
        0 <= i < configs.len() && 0 <= j < requests.len() ==> (#[trigger] configs[i]).collection
            != (#[trigger] requests[j]).collection
}

/// The realm's authority configures distinct collections that are new to a
/// registrar with room for them all: each is accepted and written at the
/// end, so that the new entries follow the old ones in the order of the
/// requests.
pub proof fn lemma_requests_append(
    registrar: RegistrarView,
    realm: Identity,
    signer: Identity,
    found: Option<Option<Seq<u8>>>,
    requests: Seq<Request>,
)
    requires
        registrar.realm == realm,
        found == Some(Some(signer@)),
        registrar.collection_configs.len() + requests.len() <= registrar.max_collections,
        distinct_valid_requests(requests),
        new_to(registrar.collection_configs, requests),
    ensures
        configured_all(registrar, realm, signer, found, requests) == (RegistrarView {
            collection_configs: registrar.collection_configs + entries_of(requests),
            ..registrar
        }),
        requests.len() > 0 ==> refusal(
            configured_all(registrar, realm, signer, found, requests.drop_last()),
            realm,
            signer,
            requests.last().collection,
            requests.last().weight,
            requests.last().size,
            found,
        ) is None,
    decreases requests.len(),
{
    let old_entries = registrar.collection_configs;
    if requests.len() == 0 {
        assert(old_entries =~= old_entries + entries_of(requests));
    } else {
        let front = requests.drop_last();
        let last = requests.last();
        lemma_requests_append(registrar, realm, signer, found, front);
        let before = configured_all(registrar, realm, signer, found, front);
        assert(before.collection_configs == old_entries + entries_of(front));
        assert forall|i: int| 0 <= i < before.collection_configs.len() implies (
        #[trigger] before.collection_configs[i]).collection != last.collection by {
            if i < old_entries.len() {
                assert(before.collection_configs[i] == old_entries[i]);
                assert(old_entries[i].collection != requests[requests.len() - 1].collection);
            } else {
                let k = i - old_entries.len();
                assert(before.collection_configs[i] == front[k].entry());
                assert(front[k] == requests[k]);
                assert(requests[k].collection != requests[requests.len() - 1].collection);
            }
        }
        assert(!configures(before.collection_configs, last.collection));
        assert(before.collection_configs.push(last.entry()) =~= old_entries + entries_of(
            requests,
        ));
    }
}

/// Filling a registrar: the realm's authority configures as many distinct
/// new collections as the registrar has room left for. After each request
/// the entries are the old ones and then those asked for so far, in the
/// order of the requests. One more new collection is then refused for want
/// of room, and the entries stay.
pub proof fn lemma_fill_to_capacity(
    registrar: RegistrarView,
    realm: Identity,
    signer: Identity,
    found: Option<Option<Seq<u8>>>,
    requests: Seq<Request>,
    extra: Request,
)
    requires
        registrar.realm == realm,
        found == Some(Some(signer@)),
        registrar.collection_configs.len() + requests.len() == registrar.max_collections,
        distinct_valid_requests(requests.push(extra)),
        new_to(registrar.collection_configs, requests.push(extra)),
    ensures
        forall|n: int|
            0 <= n <= requests.len() ==> (#[trigger] configured_all(
                registrar,
                realm,
                signer,
                found,
                requests.take(n),
            )).collection_configs == registrar.collection_configs + entries_of(requests.take(n)),
        refusal(
            configured_all(registrar, realm, signer, found, requests),
            realm,
            signer,
            extra.collection,
            extra.weight,
            extra.size,
            found,
        ) == Some(NftLockerError::CollectionConfigCapacityExceeded),
        configured_all(registrar, realm, signer, found, requests.push(extra)) == configured_all(
            registrar,
            realm,
            signer,
            found,
            requests,
        ),
{
    let old_entries = registrar.collection_configs;
    let all = requests.push(extra);
    assert(all[requests.len() as int] == extra);
    assert forall|i: int| 0 <= i < requests.len() implies (#[trigger] requests[i]).weight > 0
        && requests[i].size > 0 && requests[i].collection != extra.collection by {
        assert(requests[i] == all[i]);
        assert(all[i].collection != all[requests.len() as int].collection);
    }
    assert forall|i: int, j: int| 0 <= i < j < requests.len() implies (
    #[trigger] requests[i]).collection != (#[trigger] requests[j]).collection by {
        assert(requests[i] == all[i] && requests[j] == all[j]);
    }
    assert forall|i: int, j: int|
        0 <= i < old_entries.len() && 0 <= j < requests.len() implies (
    #[trigger] old_entries[i]).collection != (#[trigger] requests[j]).collection by {
        assert(requests[j] == all[j]);
    }
    assert forall|n: int| 0 <= n <= requests.len() implies (#[trigger] configured_all(
        registrar,
        realm,
        signer,
        found,
        requests.take(n),
    )).collection_configs == old_entries + entries_of(requests.take(n)) by {
        lemma_requests_append(registrar, realm, signer, found, requests.take(n));
    }
    lemma_requests_append(registrar, realm, signer, found, requests);
    let full = configured_all(registrar, realm, signer, found, requests);
    assert forall|i: int| 0 <= i < full.collection_configs.len() implies (
    #[trigger] full.collection_configs[i]).collection != extra.collection by {
        if i < old_entries.len() {
            assert(full.collection_configs[i] == old_entries[i]);
            assert(old_entries[i].collection != all[requests.len() as int].collection);
        } else {
            assert(full.collection_configs[i] == requests[i - old_entries.len()].entry());
        }
    }
    assert(!configures(full.collection_configs, extra.collection));
    assert(all.drop_last() =~= requests);
    assert(all.last() == extra);
}

} // verus!
