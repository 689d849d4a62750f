//! Session entity-key / version / edge snapshot cache.
use std::collections::HashMap;

use vstd::hash_map::StringHashMap;
use vstd::prelude::*;
use vstd::string::*;

use crate::collections::KeySet;
use crate::session::state::PersistenceSession;
use crate::session::Entity;
use crate::versioning::{VersionManager, Versions};

verus! {

broadcast use {vstd::std_specs::hash::group_hash_axioms, vstd::hash_map::group_hash_map_axioms};

/// What the session remembers of the store.
pub struct PersistenceCache {
    pub entity_keys: HashMap<Entity, String>,
    pub guid_to_entity: StringHashMap<Entity>,
    pub version_manager: VersionManager,
    /// Last-committed edge snapshot, keyed by deterministic edge key.
    /// Used for diffing to determine upserts and deletes.
    pub edge_snapshot: KeySet,
}

/// The texts that a map holds.
pub open spec fn key_texts(keys: Map<Entity, String>) -> Map<Entity, Seq<char>> {
    keys.map_values(|s: String| s@)
}

/// The text that a map holds for `entity`.
pub open spec fn key_text(keys: Map<Entity, String>, entity: Entity) -> Option<Seq<char>> {
    if keys.dom().contains(entity) {
        Some(keys[entity]@)
    } else {
        None
    }
}

/// The mathematical content of a [`PersistenceCache`].
#[verifier::ext_equal]
pub struct CacheModel {
    pub keys: Map<Entity, Seq<char>>,
    pub index: Map<Seq<char>, Entity>,
    pub versions: Versions,
    pub snapshot: Set<Seq<char>>,
}

impl CacheModel {
    /// The key cached for `entity`.
    pub open spec fn key_of(self, entity: Entity) -> Option<Seq<char>> {
        if self.keys.dom().contains(entity) {
            Some(self.keys[entity])
        } else {
            None
        }
    }

    /// The entity indexed under `key`.
    pub open spec fn entity_of(self, key: Seq<char>) -> Option<Entity> {
        if self.index.dom().contains(key) {
            Some(self.index[key])
        } else {
            None
        }
    }

    /// With `key` cached for `entity`: the key leads to the entity, and a
    /// different key that the entity had leads nowhere any more.
    pub open spec fn with_key(self, entity: Entity, key: Seq<char>) -> Self {
        CacheModel {
            keys: self.keys.insert(entity, key),
            index: (match self.key_of(entity) {
                Some(existing) => if existing != key {
                    self.index.remove(existing)
                } else {
                    self.index
                },
                None => self.index,
            }).insert(key, entity),
            ..self
        }
    }
}

impl View for PersistenceCache {
    type V = CacheModel;

    open spec fn view(&self) -> CacheModel {
        CacheModel {
            keys: key_texts(self.entity_keys@),
            index: self.guid_to_entity@,
            versions: self.version_manager@,
            snapshot: self.edge_snapshot@,
        }
    }
}

impl PersistenceCache {
    /// The snapshot is a proper set, and the index from keys to entities only
    /// names entities that have that key.
    pub open spec fn wf(&self) -> bool {
        &&& self.edge_snapshot.wf()
        &&& self.index_sound()
    }

    /// Each entry of the index from keys to entities names an entity that is
    /// cached under that very key.
    pub open spec fn index_sound(&self) -> bool {
        forall|key: Seq<char>|
            #![trigger self.guid_to_entity@.dom().contains(key)]
            self.guid_to_entity@.dom().contains(key) ==> key_text(
                self.entity_keys@,
                self.guid_to_entity@[key],
            ) == Some(key)
    }

    /// The key cached for `entity`.
    pub open spec fn key_of(&self, entity: Entity) -> Option<Seq<char>> {
        key_text(self.entity_keys@, entity)
    }

    /// The entity indexed under `key`.
    pub open spec fn entity_of(&self, key: Seq<char>) -> Option<Entity> {
        if self.guid_to_entity@.dom().contains(key) {
            Some(self.guid_to_entity@[key])
        } else {
            None
        }
    }

    /// The entity's key.
    pub fn entity_key(&self, entity: Entity) -> (r: Option<&String>)
        ensures
            match r {
                Some(key) => self.key_of(entity) == Some(key@),
                None => self.key_of(entity) is None,
            },
    {
        self.entity_keys.get(&entity)
    }

    /// The entity indexed under `key`.
    pub fn entity_by_key(&self, key: &str) -> (r: Option<Entity>)
        ensures
            r == self.entity_of(key@),
    {
        match self.guid_to_entity.get(key) {
            Some(entity) => Some(*entity),
            None => None,
        }
    }

    /// Caches `key` for `entity`. Where the entity had another key, that key
    /// no longer leads to an entity.
    pub fn insert_entity_key(&mut self, entity: Entity, key: String)
        requires
            old(self).wf(),
        ensures
            final(self).wf(),
            final(self)@ == old(self)@.with_key(entity, key@),
            final(self).version_manager == old(self).version_manager,
            final(self).edge_snapshot == old(self).edge_snapshot,
    {
        let ghost before = *self;
        let previous: Option<String> = self.entity_keys.insert(entity, key.clone());
        match previous {
            Some(existing) => {
                if existing != key {
                    self.guid_to_entity.remove(existing.as_str());
                }
            },
            None => {},
        }
        self.guid_to_entity.insert(key, entity);
        assert(key_texts(self.entity_keys@) =~= key_texts(before.entity_keys@).insert(
            entity,
            key@,
        ));
        assert forall|k: Seq<char>|
            #![trigger self.guid_to_entity@.dom().contains(k)]
            self.guid_to_entity@.dom().contains(k) implies key_text(
            self.entity_keys@,
            self.guid_to_entity@[k],
        ) == Some(k) by {
            if k != key@ {
                assert(before.guid_to_entity@.dom().contains(k));
            }
        }
    }
}

impl Default for PersistenceCache {
    fn default() -> (r: Self)
        ensures
            r.wf(),
            r.entity_keys@ == Map::<Entity, String>::empty(),
            r.guid_to_entity@ == Map::<Seq<char>, Entity>::empty(),
            r.version_manager@ == Versions::none(),
            r.edge_snapshot@ == Set::<Seq<char>>::empty(),
            r.edge_snapshot.order() == Seq::<Seq<char>>::empty(),
    {
        PersistenceCache {
            entity_keys: HashMap::new(),
            guid_to_entity: StringHashMap::new(),
            version_manager: VersionManager::new(),
            edge_snapshot: KeySet::new(),
        }
    }
}

impl PersistenceSession {
    /// Replaces the last-committed edge snapshot.
    pub fn set_edge_snapshot(&mut self, snapshot: KeySet)
        requires
            snapshot.wf(),
        ensures
            old(self).wf() ==> final(self).wf(),
            *final(self) == (PersistenceSession {
                cache: PersistenceCache { edge_snapshot: snapshot, ..old(self).cache },
                ..*old(self)
            }),
    {
        self.cache.edge_snapshot = snapshot;
    }

    /// The cached document versions.
    pub fn version_manager(&self) -> (r: &VersionManager)
        ensures
            *r == self.cache.version_manager,
    {
        &self.cache.version_manager
    }

    /// The cached document versions, to be changed.
    pub fn version_manager_mut(&mut self) -> (r: &mut VersionManager)
        ensures
            *r == old(self).cache.version_manager,
            *final(self) == (PersistenceSession {
                cache: PersistenceCache { version_manager: *final(r), ..old(self).cache },
                ..*old(self)
            }),
    {
        &mut self.cache.version_manager
    }

    /// The entity's key.
    pub fn entity_key(&self, entity: Entity) -> (r: Option<&String>)
        ensures
            match r {
                Some(key) => self.cache.key_of(entity) == Some(key@),
                None => self.cache.key_of(entity) is None,
            },
    {
        self.cache.entity_key(entity)
    }

    /// Caches `key` for `entity`; see [`PersistenceCache::insert_entity_key`].
    pub fn insert_entity_key(&mut self, entity: Entity, key: String)
        requires
            old(self).cache.wf(),
        ensures
            old(self).wf() ==> final(self).wf(),
            final(self).cache.wf(),
            *final(self) == (PersistenceSession { cache: final(self).cache, ..*old(self) }),
            final(self).cache@ == old(self).cache@.with_key(entity, key@),
            final(self).cache.version_manager == old(self).cache.version_manager,
            final(self).cache.edge_snapshot == old(self).cache.edge_snapshot,
    {
        self.cache.insert_entity_key(entity, key);
    }

    /// The entity indexed under `key`.
    pub fn entity_by_key(&self, key: &str) -> (r: Option<Entity>)
        ensures
            r == self.cache.entity_of(key@),
    {
        self.cache.entity_by_key(key)
    }
}

/// The entity that has just been given a key is the one found under it, and it
/// has that key; no other entity's key changes.
pub proof fn law_inserted_key_is_found(
    before: CacheModel,
    entity: Entity,
    key: Seq<char>,
    other: Entity,
)
    requires
        other != entity,
    ensures
        before.with_key(entity, key).key_of(entity) == Some(key),
        before.with_key(entity, key).entity_of(key) == Some(entity),
        before.with_key(entity, key).key_of(other) == before.key_of(other),
{
}

/// A key that an entity gives up for another one leads to no entity any more.
pub proof fn law_replaced_key_is_forgotten(
    before: CacheModel,
    entity: Entity,
    key: Seq<char>,
    previous: Seq<char>,
)
    requires
        before.key_of(entity) == Some(previous),
        previous != key,
    ensures
        before.with_key(entity, key).entity_of(previous) is None,
{
}

} // verus!
