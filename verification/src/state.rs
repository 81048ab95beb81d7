use crate::error::NftLockerError;
use crate::identity::Identity;
use vstd::prelude::*;

verus! {

/// The vote weight of one NFT collection.
#[derive(Clone, Copy, Debug, PartialEq, Eq)]
pub struct CollectionConfig {
    /// The collection that this entry configures.
    pub collection: Identity,
    /// Multiplier applied per held token of the collection.
    pub weight: u16,
    /// Padding kept for later extension of the record.
    pub reserved: [u8; 8],
    /// Number of tokens that the collection is expected to hold.
    pub size: u32,
}

impl CollectionConfig {
    /// A usable entry has a positive weight and a positive size.
    pub open spec fn wf(self) -> bool {
        self.weight > 0 && self.size > 0
    }

    /// The entry that configuring `collection` writes: zeroed padding.
    pub open spec fn entry(collection: Identity, weight: u16, size: u32) -> CollectionConfig {
        CollectionConfig {
            collection,
            weight,
            reserved: vstd::array::spec_array_fill_for_copy_type::<u8, 8>(0u8),
            size,
        }
    }

    pub fn new(collection: Identity, weight: u16, size: u32) -> (config: CollectionConfig)
        ensures
            config == Self::entry(collection, weight, size),
            config.collection == collection,
            config.weight == weight,
            config.size == size,
            config.reserved@ == Seq::new(8, |i: int| 0u8),
    {
        let config = CollectionConfig { collection, weight, reserved: [0u8; 8], size };
        assert(config.reserved@ =~= Seq::new(8, |i: int| 0u8));
        config
    }
}

/// Whether some entry of `configs` is for `collection`.
pub open spec fn configures(configs: Seq<CollectionConfig>, collection: Identity) -> bool {
    exists|i: int| 0 <= i < configs.len() && (#[trigger] configs[i]).collection == collection
}

/// Whether `i` is the first place in `configs` whose entry is for `collection`.
pub open spec fn is_position(configs: Seq<CollectionConfig>, collection: Identity, i: int) -> bool {
    &&& 0 <= i < configs.len()
    &&& configs[i].collection == collection
    &&& forall|j: int| 0 <= j < i ==> (#[trigger] configs[j]).collection != collection
}

/// The first place of `collection` in `configs`, where it has one.
pub open spec fn position(configs: Seq<CollectionConfig>, collection: Identity) -> int {
    choose|i: int| is_position(configs, collection, i)
}

/// `configs` after `entry` was written: over the entry of the same collection
/// where there is one, else at the end.
pub open spec fn upserted(configs: Seq<CollectionConfig>, entry: CollectionConfig) -> Seq<
    CollectionConfig,
> {
    if configures(configs, entry.collection) {
        configs.update(position(configs, entry.collection), entry)
    } else {
        configs.push(entry)
    }
}

/// No collection has two entries.
pub open spec fn distinct(configs: Seq<CollectionConfig>) -> bool {
    forall|i: int, j: int|
        0 <= i < j < configs.len() ==> (#[trigger] configs[i]).collection != (
        #[trigger] configs[j]).collection
}

/// A collection has at most one first place, and an entry for it is written
/// there: the length and every other entry stay.
pub proof fn lemma_position_unique(
    configs: Seq<CollectionConfig>,
    collection: Identity,
    i: int,
)
    requires
        is_position(configs, collection, i),
    ensures
        configures(configs, collection),
        position(configs, collection) == i,
        forall|entry: CollectionConfig|
            entry.collection == collection ==> #[trigger] upserted(configs, entry)
                == configs.update(i, entry),
{
    let p = position(configs, collection);
    assert(is_position(configs, collection, p));
    if p < i {
        assert(configs[p].collection != collection);
    } else if i < p {
        assert(configs[i].collection != collection);
    }
}

/// A collection that is configured has a first place.
pub proof fn lemma_position_exists(configs: Seq<CollectionConfig>, collection: Identity)
    requires
        configures(configs, collection),
    ensures
        is_position(configs, collection, position(configs, collection)),
    decreases configs.len(),
{
    let k = choose|i: int| 0 <= i < configs.len() && (#[trigger] configs[i]).collection == collection;
    let front = configs.take(k);
    if configures(front, collection) {
        lemma_position_exists(front, collection);
        let p = position(front, collection);
        assert(configs[p] == front[p]);
        assert forall|j: int| 0 <= j < p implies (#[trigger] configs[j]).collection
            != collection by {
            assert(configs[j] == front[j]);
        }
        assert(is_position(configs, collection, p));
    } else {
        assert forall|j: int| 0 <= j < k implies (#[trigger] configs[j]).collection
            != collection by {
            assert(front[j] == configs[j]);
        }
        assert(is_position(configs, collection, k));
    }
}

/// Writing an entry a second time changes nothing: the entry has its place
/// after the first time, and the second writes the same entry there.
pub proof fn lemma_upserted_twice(configs: Seq<CollectionConfig>, entry: CollectionConfig)
    ensures
        configures(upserted(configs, entry), entry.collection),
        upserted(upserted(configs, entry), entry) == upserted(configs, entry),
{
    let once = upserted(configs, entry);
    if configures(configs, entry.collection) {
        lemma_position_exists(configs, entry.collection);
        let p = position(configs, entry.collection);
        assert(once[p] == entry);
        assert forall|j: int| 0 <= j < p implies (#[trigger] once[j]).collection
            != entry.collection by {
            assert(once[j] == configs[j]);
        }
        lemma_position_unique(once, entry.collection, p);
        assert(once.update(p, entry) =~= once);
    } else {
        let n = configs.len() as int;
        assert(once[n] == entry);
        assert forall|j: int| 0 <= j < n implies (#[trigger] once[j]).collection
            != entry.collection by {
            assert(once[j] == configs[j]);
        }
        lemma_position_unique(once, entry.collection, n);
        assert(once.update(n, entry) =~= once);
    }
}

/// The mathematical content of a registrar.
pub struct RegistrarView {
    pub governance_program_id: Identity,
    pub realm: Identity,
    pub governing_token_mint: Identity,
    pub collection_configs: Seq<CollectionConfig>,
    pub max_collections: nat,
}

impl RegistrarView {
    /// At most `max_collections` entries, one per collection, each usable.
    pub open spec fn wf(self) -> bool {
        &&& self.collection_configs.len() <= self.max_collections
        &&& distinct(self.collection_configs)
        &&& forall|i: int|
            0 <= i < self.collection_configs.len() ==> (#[trigger] self.collection_configs[i]).wf()
    }

    /// Whether an entry for `collection` can be written: it overwrites one, or
    /// there is room for one more.
    pub open spec fn accepts(self, collection: Identity) -> bool {
        configures(self.collection_configs, collection) || self.collection_configs.len()
            < self.max_collections
    }

    /// The registrar after `entry` was written.
    pub open spec fn with_config(self, entry: CollectionConfig) -> RegistrarView {
        RegistrarView {
            collection_configs: upserted(self.collection_configs, entry),
            ..self
        }
    }

    /// The registrar after `entry` was offered to it: written where the
    /// registrar accepts its collection, else left as it was.
    pub open spec fn offer(self, entry: CollectionConfig) -> RegistrarView {
        if self.accepts(entry.collection) {
            self.with_config(entry)
        } else {
            self
        }
    }
}

/// The collections of one realm that give vote weight, and the weight of each.
#[derive(Clone, Debug, PartialEq, Eq)]
pub struct Registrar {
    /// The governance program that the realm belongs to.
    pub governance_program_id: Identity,
    /// The realm that owns this registrar.
    pub realm: Identity,
    /// The mint of the realm's governing token.
    pub governing_token_mint: Identity,
    /// The configured collections, in the order in which they were added.
    pub collection_configs: Vec<CollectionConfig>,
    /// How many collections the registrar has room for.
    pub max_collections: u8,
}

impl View for Registrar {
    type V = RegistrarView;

    open spec fn view(&self) -> RegistrarView {
        RegistrarView {
            governance_program_id: self.governance_program_id,
            realm: self.realm,
            governing_token_mint: self.governing_token_mint,
            collection_configs: self.collection_configs@,
            max_collections: self.max_collections as nat,
        }
    }
}

impl Registrar {
    pub open spec fn wf(&self) -> bool {
        self@.wf()
    }

    /// A registrar of `realm` with room for `max_collections` collections and
    /// none configured.
    pub fn new(
        governance_program_id: Identity,
        realm: Identity,
        governing_token_mint: Identity,
        max_collections: u8,
    ) -> (registrar: Registrar)
        ensures
            registrar.wf(),
            registrar@ == (RegistrarView {
                governance_program_id,
                realm,
                governing_token_mint,
                collection_configs: Seq::empty(),
                max_collections: max_collections as nat,
            }),
    {
        Registrar {
            governance_program_id,
            realm,
            governing_token_mint,
            collection_configs: Vec::new(),
            max_collections,
        }
    }

    /// The first place of `collection` among the entries.
    pub fn position(&self, collection: &Identity) -> (found: Option<usize>)
        ensures
            match found {
                Some(i) => is_position(self@.collection_configs, *collection, i as int),
                None => !configures(self@.collection_configs, *collection),
            },
    {
        let mut i: usize = 0;
        while i < self.collection_configs.len()
            invariant
                i <= self.collection_configs.len(),
                forall|j: int|
                    0 <= j < i ==> (#[trigger] self.collection_configs@[j]).collection
                        != *collection,
            decreases self.collection_configs.len() - i,
        {
            if self.collection_configs[i].collection.same_as(collection) {
                return Some(i);
            }
            i += 1;
        }
        None
    }

    /// Writes the entry of `collection`: over its present entry, which keeps
    /// its place, else at the end. Fails, and changes nothing, where the
    /// collection is new and the registrar is full.
    pub fn upsert(&mut self, collection: Identity, weight: u16, size: u32) -> (outcome: Result<
        (),
        NftLockerError,
    >)
        ensures
            outcome is Ok <==> old(self)@.accepts(collection),
            outcome is Err ==> outcome == Err::<(), NftLockerError>(
                NftLockerError::CollectionConfigCapacityExceeded,
            ) && *final(self) == *old(self),
            final(self)@ == old(self)@.offer(CollectionConfig::entry(collection, weight, size)),
            old(self).wf() && weight > 0 && size > 0 ==> final(self).wf(),
    {
        let entry = CollectionConfig::new(collection, weight, size);
        match self.position(&collection) {
            Some(i) => {
                proof {
                    lemma_position_unique(self@.collection_configs, collection, i as int);
                }
                self.collection_configs.set(i, entry);
                Ok(())
            },
            None => {
                if self.collection_configs.len() >= self.max_collections as usize {
                    return Err(NftLockerError::CollectionConfigCapacityExceeded);
                }
                self.collection_configs.push(entry);
                Ok(())
            },
        }
    }
}

} // verus!
