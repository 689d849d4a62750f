//! Versions of documents as last read or written.
use std::collections::{HashMap, HashSet};

use vstd::hash_map::StringHashMap;
use vstd::prelude::*;
use vstd::string::*;

use crate::collections;
use crate::session::cache;
use crate::session::{Entity, TypeId};

verus! {

broadcast use {vstd::std_specs::hash::group_hash_axioms, vstd::hash_map::group_hash_map_axioms};

/// What a version belongs to: an entity by its key, or a resource by its type.
#[derive(Debug)]
pub enum VersionKey {
    Entity(String),
    Resource(TypeId),
}

/// Optimistic-locking versions of documents.
pub struct VersionManager {
    pub entities: StringHashMap<u64>,
    pub resources: HashMap<TypeId, u64>,
}

/// The mathematical content of a [`VersionManager`].
#[verifier::ext_equal]
pub struct Versions {
    pub entities: Map<Seq<char>, u64>,
    pub resources: Map<TypeId, u64>,
}

impl Versions {
    /// No version of anything.
    pub open spec fn none() -> Self {
        Versions { entities: Map::empty(), resources: Map::empty() }
    }

    /// The version of an entity document.
    pub open spec fn entity(self, key: Seq<char>) -> Option<u64> {
        if self.entities.dom().contains(key) {
            Some(self.entities[key])
        } else {
            None
        }
    }

    /// The version of a resource document.
    pub open spec fn resource(self, type_id: TypeId) -> Option<u64> {
        if self.resources.dom().contains(type_id) {
            Some(self.resources[type_id])
        } else {
            None
        }
    }

    /// The version that `key` stands for.
    pub open spec fn get(self, key: VersionKey) -> Option<u64> {
        match key {
            VersionKey::Entity(k) => self.entity(k@),
            VersionKey::Resource(t) => self.resource(t),
        }
    }

    /// With the version of an entity document set.
    pub open spec fn set_entity(self, key: Seq<char>, version: u64) -> Self {
        Versions { entities: self.entities.insert(key, version), ..self }
    }

    /// With the version of a resource document set.
    pub open spec fn set_resource(self, type_id: TypeId, version: u64) -> Self {
        Versions { resources: self.resources.insert(type_id, version), ..self }
    }

    /// With the version that `key` stands for set.
    pub open spec fn set(self, key: VersionKey, version: u64) -> Self {
        match key {
            VersionKey::Entity(k) => self.set_entity(k@, version),
            VersionKey::Resource(t) => self.set_resource(t, version),
        }
    }

    /// Without the version that `key` stands for.
    pub open spec fn remove(self, key: VersionKey) -> Self {
        match key {
            VersionKey::Entity(k) => Versions { entities: self.entities.remove(k@), ..self },
            VersionKey::Resource(t) => Versions { resources: self.resources.remove(t), ..self },
        }
    }
}

impl View for VersionManager {
    type V = Versions;

    open spec fn view(&self) -> Versions {
        Versions { entities: self.entities@, resources: self.resources@ }
    }
}

impl VersionManager {
    /// No version of anything.
    pub fn new() -> (r: Self)
        ensures
            r@ == Versions::none(),
    {
        VersionManager { entities: StringHashMap::new(), resources: HashMap::new() }
    }

    /// The version that `key` stands for.
    pub fn get_version(&self, key: &VersionKey) -> (r: Option<u64>)
        ensures
            r == self@.get(*key),
    {
        match key {
            VersionKey::Entity(k) => match self.entities.get(k.as_str()) {
                Some(v) => Some(*v),
                None => None,
            },
            VersionKey::Resource(t) => match self.resources.get(t) {
                Some(v) => Some(*v),
                None => None,
            },
        }
    }

    /// The version of an entity document.
    pub fn entity_version(&self, key: &str) -> (r: Option<u64>)
        ensures
            r == self@.entity(key@),
    {
        match self.entities.get(key) {
            Some(v) => Some(*v),
            None => None,
        }
    }

    /// Sets the version that `key` stands for.
    pub fn set_version(&mut self, key: VersionKey, version: u64)
        ensures
            final(self)@ == old(self)@.set(key, version),
    {
        match key {
            VersionKey::Entity(k) => {
                self.entities.insert(k, version);
            },
            VersionKey::Resource(t) => {
                self.resources.insert(t, version);
            },
        }
    }

    /// Forgets the version that `key` stands for.
    pub fn remove_version(&mut self, key: &VersionKey)
        ensures
            final(self)@ == old(self)@.remove(*key),
    {
        match key {
            VersionKey::Entity(k) => {
                self.entities.remove(k.as_str());
            },
            VersionKey::Resource(t) => {
                self.resources.remove(t);
            },
        }
    }
}

/// The entities of a set that have that key.
pub open spec fn entities_with_key(
    keys: Map<Entity, Seq<char>>,
    entities: Set<Entity>,
    key: Seq<char>,
) -> Set<Entity> {
    entities.filter(|e: Entity| keys.dom().contains(e) && keys[e] == key)
}

/// The keys of the entities of a set.
pub open spec fn keys_of_entities(
    keys: Map<Entity, Seq<char>>,
    entities: Set<Entity>,
) -> Set<Seq<char>> {
    Set::new(
        |key: Seq<char>| exists|e: Entity| #[trigger]
            entities.contains(e) && keys.dom().contains(e) && keys[e] == key,
    )
}

impl Versions {
    /// With the version of each known document counted up, once for each of
    /// the entities that has its key.
    pub open spec fn count_up_entities(
        self,
        keys: Map<Entity, Seq<char>>,
        entities: Set<Entity>,
    ) -> Self {
        Versions {
            entities: Map::new(
                |key: Seq<char>| self.entities.dom().contains(key),
                |key: Seq<char>|
                    (self.entities[key] + entities_with_key(keys, entities, key).len()) as u64,
            ),
            ..self
        }
    }

    /// Counting up leads to no number that is too large.
    pub open spec fn entities_fit(
        self,
        keys: Map<Entity, Seq<char>>,
        entities: Set<Entity>,
    ) -> bool {
        forall|key: Seq<char>| #[trigger]
            self.entities.dom().contains(key) ==> self.entities[key] + entities_with_key(
                keys,
                entities,
                key,
            ).len() <= u64::MAX
    }

    /// Without the versions of the documents of these entities.
    pub open spec fn forget_entities(
        self,
        keys: Map<Entity, Seq<char>>,
        entities: Set<Entity>,
    ) -> Self {
        Versions {
            entities: self.entities.remove_keys(keys_of_entities(keys, entities)),
            ..self
        }
    }

    /// With the version of each of these resources counted up; the first
    /// version is 1.
    pub open spec fn count_up_resources(self, types: Set<TypeId>) -> Self {
        Versions {
            resources: Map::new(
                |t: TypeId| self.resources.dom().contains(t) || types.contains(t),
                |t: TypeId|
                    if !types.contains(t) {
                        self.resources[t]
                    } else if self.resources.dom().contains(t) {
                        (self.resources[t] + 1) as u64
                    } else {
                        1
                    },
            ),
            ..self
        }
    }

    /// Counting up leads to no number that is too large.
    pub open spec fn resources_fit(self, types: Set<TypeId>) -> bool {
        forall|t: TypeId| #[trigger] types.contains(t) ==> self.resource(t) != Some(u64::MAX)
    }

    /// Without the versions of these resources.
    pub open spec fn forget_resources(self, types: Set<TypeId>) -> Self {
        Versions { resources: self.resources.remove_keys(types), ..self }
    }
}

/// One more entity counts for its own key only.
pub proof fn lemma_entities_with_key(
    keys: Map<Entity, Seq<char>>,
    done: Set<Entity>,
    entity: Entity,
    key: Seq<char>,
)
    requires
        done.finite(),
        !done.contains(entity),
    ensures
        entities_with_key(keys, done, key).finite(),
        entities_with_key(keys, done.insert(entity), key).len() == entities_with_key(
            keys,
            done,
            key,
        ).len() + if keys.dom().contains(entity) && keys[entity] == key {
            1int
        } else {
            0int
        },
{
    let before = entities_with_key(keys, done, key);
    let after = entities_with_key(keys, done.insert(entity), key);
    vstd::set_lib::lemma_set_subset_finite(done, before);
    if keys.dom().contains(entity) && keys[entity] == key {
        assert(after =~= before.insert(entity));
    } else {
        assert(after =~= before);
    }
}

proof fn lemma_entities_with_key_monotonic(
    keys: Map<Entity, Seq<char>>,
    part: Set<Entity>,
    all: Set<Entity>,
    key: Seq<char>,
)
    requires
        all.finite(),
        part.subset_of(all),
    ensures
        entities_with_key(keys, part, key).len() <= entities_with_key(keys, all, key).len(),
{
    vstd::set_lib::lemma_set_subset_finite(all, entities_with_key(keys, all, key));
    vstd::set_lib::lemma_len_subset(
        entities_with_key(keys, part, key),
        entities_with_key(keys, all, key),
    );
}

impl VersionManager {
    /// Counts up the version of the document of each listed entity that has a
    /// key and a known version.
    pub fn count_up_entities(&mut self, keys: &HashMap<Entity, String>, entities: &Vec<Entity>)
        requires
            entities@.no_duplicates(),
            old(self)@.entities_fit(cache::key_texts(keys@), entities@.to_set()),
        ensures
            final(self)@ == old(self)@.count_up_entities(
                cache::key_texts(keys@),
                entities@.to_set(),
            ),
    {
        let ghost before = self@;
        let ghost texts = cache::key_texts(keys@);
        let ghost all = entities@.to_set();
        let mut i: usize = 0;
        proof {
            vstd::seq_lib::seq_to_set_is_finite(entities@);
            assert(entities@.take(0).to_set() =~= Set::empty());
            assert forall|key: Seq<char>| #[trigger] before.entities.dom().contains(key) implies
                entities_with_key(texts, Set::empty(), key).len() == 0 by {
                assert(entities_with_key(texts, Set::empty(), key) =~= Set::empty());
            }
            assert(self@ =~= before.count_up_entities(texts, entities@.take(0).to_set()));
        }
        while i < entities.len()
            invariant
                i <= entities@.len(),
                texts == cache::key_texts(keys@),
                all == entities@.to_set(),
                all.finite(),
                entities@.no_duplicates(),
                before.entities_fit(texts, all),
                self@ == before.count_up_entities(texts, entities@.take(i as int).to_set()),
            decreases entities@.len() - i,
        {
            let entity: Entity = entities[i];
            let ghost done = entities@.take(i as int).to_set();
            let ghost next = entities@.take(i + 1).to_set();
            let ghost mid = self@;
            proof {
                vstd::seq_lib::seq_to_set_is_finite(entities@.take(i as int));
                collections::lemma_take_to_set(entities@, i as int);
                assert(!done.contains(entity));
                assert(next.subset_of(all)) by {
                    let part = entities@.take(i + 1);
                    assert forall|e: Entity| next.contains(e) implies all.contains(e) by {
                        let j = choose|j: int| 0 <= j < part.len() && part[j] == e;
                        assert(entities@[j] == e);
                    }
                }
                assert forall|key: Seq<char>| #[trigger]
                    before.entities.dom().contains(key) implies entities_with_key(
                    texts,
                    next,
                    key,
                ).len() == entities_with_key(texts, done, key).len() + (if texts.dom().contains(
                    entity,
                ) && texts[entity] == key {
                    1int
                } else {
                    0int
                }) && before.entities[key] + entities_with_key(texts, next, key).len()
                    <= u64::MAX by {
                    lemma_entities_with_key(texts, done, entity, key);
                    lemma_entities_with_key_monotonic(texts, next, all, key);
                }
            }
            match keys.get(&entity) {
                Some(key) => match self.entity_version(key.as_str()) {
                    Some(version) => {
                        assert(before.entities.dom().contains(key@));
                        self.entities.insert(key.clone(), version + 1);
                    },
                    None => {},
                },
                None => {},
            }
            assert(self@ =~= before.count_up_entities(texts, next)) by {
                assert(self@.entities.dom() =~= before.count_up_entities(
                    texts,
                    next,
                ).entities.dom());
                assert forall|key: Seq<char>| #[trigger]
                    self@.entities.dom().contains(key) implies self@.entities[key]
                    == before.count_up_entities(texts, next).entities[key] by {
                    assert(before.entities.dom().contains(key));
                    assert(mid.entities[key] == (before.entities[key] + entities_with_key(
                        texts,
                        done,
                        key,
                    ).len()) as u64);
                }
            }
            i = i + 1;
        }
        assert(entities@.take(i as int) =~= entities@);
    }

    /// Forgets the versions of the documents of these entities.
    pub fn forget_entities(&mut self, keys: &HashMap<Entity, String>, entities: &HashSet<Entity>)
        ensures
            final(self)@ == old(self)@.forget_entities(cache::key_texts(keys@), entities@),
    {
        let ghost before = self@;
        let ghost texts = cache::key_texts(keys@);
        let list: Vec<Entity> = collections::members(entities);
        let mut i: usize = 0;
        assert(self@ =~= before.forget_entities(texts, list@.take(0).to_set()));
        while i < list.len()
            invariant
                i <= list@.len(),
                texts == cache::key_texts(keys@),
                self@ == before.forget_entities(texts, list@.take(i as int).to_set()),
            decreases list@.len() - i,
        {
            let entity: Entity = list[i];
            let ghost done = list@.take(i as int).to_set();
            let ghost next = list@.take(i + 1).to_set();
            match keys.get(&entity) {
                Some(key) => {
                    self.entities.remove(key.as_str());
                },
                None => {},
            }
            proof {
                collections::lemma_take_to_set(list@, i as int);
                let old_keys = keys_of_entities(texts, done);
                let new_keys = keys_of_entities(texts, next);
                assert forall|key: Seq<char>| new_keys.contains(key) == (old_keys.contains(key) || (
                texts.dom().contains(entity) && texts[entity] == key)) by {
                    if new_keys.contains(key) {
                        let e = choose|e: Entity| #[trigger]
                            next.contains(e) && texts.dom().contains(e) && texts[e] == key;
                        if e != entity {
                            assert(done.contains(e));
                        }
                    }
                    if old_keys.contains(key) {
                        let e = choose|e: Entity| #[trigger]
                            done.contains(e) && texts.dom().contains(e) && texts[e] == key;
                        assert(next.contains(e));
                    }
                    if texts.dom().contains(entity) && texts[entity] == key {
                        assert(next.contains(entity));
                    }
                }
                assert(self@ =~= before.forget_entities(texts, next));
            }
            i = i + 1;
        }
        assert(list@.take(i as int) =~= list@);
    }

    /// Counts up the versions of these resources; the first version is 1.
    pub fn count_up_resources(&mut self, types: &HashSet<TypeId>)
        requires
            old(self)@.resources_fit(types@),
        ensures
            final(self)@ == old(self)@.count_up_resources(types@),
    {
        let ghost before = self@;
        let list: Vec<TypeId> = collections::members(types);
        let mut i: usize = 0;
        assert(self@ =~= before.count_up_resources(list@.take(0).to_set()));
        while i < list.len()
            invariant
                i <= list@.len(),
                list@.no_duplicates(),
                list@.to_set() == types@,
                before.resources_fit(types@),
                self@ == before.count_up_resources(list@.take(i as int).to_set()),
            decreases list@.len() - i,
        {
            let type_id: TypeId = list[i];
            proof {
                collections::lemma_take_to_set(list@, i as int);
                assert(!list@.take(i as int).to_set().contains(type_id));
                assert(list@.to_set().contains(type_id));
            }
            let next: u64 = match self.resources.get(&type_id) {
                Some(version) => *version + 1,
                None => 1,
            };
            self.resources.insert(type_id, next);
            assert(self@ =~= before.count_up_resources(list@.take(i + 1).to_set()));
            i = i + 1;
        }
        assert(list@.take(i as int) =~= list@);
    }

    /// Forgets the versions of these resources.
    pub fn forget_resources(&mut self, types: &HashSet<TypeId>)
        ensures
            final(self)@ == old(self)@.forget_resources(types@),
    {
        let ghost before = self@;
        let list: Vec<TypeId> = collections::members(types);
        let mut i: usize = 0;
        assert(self@ =~= before.forget_resources(list@.take(0).to_set()));
        while i < list.len()
            invariant
                i <= list@.len(),
                self@ == before.forget_resources(list@.take(i as int).to_set()),
            decreases list@.len() - i,
        {
            self.resources.remove(&list[i]);
            proof {
                collections::lemma_take_to_set(list@, i as int);
            }
            assert(self@ =~= before.forget_resources(list@.take(i + 1).to_set()));
            i = i + 1;
        }
        assert(list@.take(i as int) =~= list@);
    }
}

} // verus!
