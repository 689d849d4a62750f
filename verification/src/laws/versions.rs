//! Known versions, and the keys under which entities are found.
use std::collections::{HashMap, HashSet};

use vstd::prelude::*;
use vstd::string::*;

use crate::collections::KeySet;
use crate::session::cache;
use crate::session::cache::PersistenceCache;
use crate::session::state::PersistenceSession;
use crate::session::{Entity, TypeId};
use crate::versioning;
use crate::versioning::{VersionKey, VersionManager};

verus! {

/// A version that was set is the one read, and no other version changes.
pub proof fn law_set_version_is_read(manager: &mut VersionManager, key: VersionKey, version: u64)
    requires
        call_ensures(VersionManager::set_version, (manager, key, version), ()),
    ensures
        match key {
            VersionKey::Entity(k) => {
                &&& final(manager).entities@ == old(manager).entities@.insert(k@, version)
                &&& final(manager).resources@ == old(manager).resources@
            },
            VersionKey::Resource(t) => {
                &&& final(manager).resources@ == old(manager).resources@.insert(t, version)
                &&& final(manager).entities@ == old(manager).entities@
            },
        },
{
}

/// A version that was removed is not known any more, and no other version changes.
pub proof fn law_removed_version_is_gone(manager: &mut VersionManager, key: &VersionKey)
    requires
        call_ensures(VersionManager::remove_version, (manager, key), ()),
    ensures
        match *key {
            VersionKey::Entity(k) => {
                &&& final(manager).entities@ == old(manager).entities@.remove(k@)
                &&& final(manager).resources@ == old(manager).resources@
            },
            VersionKey::Resource(t) => {
                &&& final(manager).resources@ == old(manager).resources@.remove(t)
                &&& final(manager).entities@ == old(manager).entities@
            },
        },
{
}

/// Reading a version gives the one that is kept under that very key.
pub proof fn law_version_is_the_kept_one(
    manager: &VersionManager,
    session: &PersistenceSession,
    key: &VersionKey,
    text: &str,
    type_id: TypeId,
    r: Option<u64>,
)
    ensures
        call_ensures(VersionManager::get_version, (manager, key), r) ==> match *key {
            VersionKey::Entity(k) => r == if manager.entities@.dom().contains(k@) {
                Some(manager.entities@[k@])
            } else {
                None
            },
            VersionKey::Resource(t) => r == if manager.resources@.dom().contains(t) {
                Some(manager.resources@[t])
            } else {
                None
            },
        },
        call_ensures(VersionManager::entity_version, (manager, text), r) ==> r
            == if manager.entities@.dom().contains(text@) {
            Some(manager.entities@[text@])
        } else {
            None
        },
        call_ensures(PersistenceSession::resource_version, (session, type_id), r) ==> r
            == if session.cache.version_manager.resources@.dom().contains(type_id) {
            Some(session.cache.version_manager.resources@[type_id])
        } else {
            None
        },
{
}

/// An entity of the list has that key.
pub open spec fn listed_with_key(
    keys: Map<Entity, String>,
    entities: Seq<Entity>,
    entity: Entity,
    key: Seq<char>,
) -> bool {
    entities.contains(entity) && keys.dom().contains(entity) && keys[entity]@ == key
}

/// The entities of the list that have that key.
pub open spec fn all_with_key(
    keys: Map<Entity, String>,
    entities: Seq<Entity>,
    key: Seq<char>,
) -> Set<Entity> {
    entities.to_set().filter(|e: Entity| listed_with_key(keys, entities, e, key))
}

proof fn lemma_with_key(
    keys: Map<Entity, String>,
    entities: Seq<Entity>,
    entity: Entity,
    key: Seq<char>,
)
    ensures
        versioning::entities_with_key(cache::key_texts(keys), entities.to_set(), key).contains(
            entity,
        ) == listed_with_key(keys, entities, entity, key),
{
    assert(entities.to_set().contains(entity) == entities.contains(entity));
}

/// Counting up: the version of a document goes up by one for each of the entities
/// that has its key. No version comes or goes.
pub proof fn law_entity_versions_are_counted_up(
    manager: &mut VersionManager,
    keys: &HashMap<Entity, String>,
    entities: &Vec<Entity>,
    key: Seq<char>,
)
    requires
        old(manager)@.entities_fit(cache::key_texts(keys@), entities@.to_set()),
        call_ensures(VersionManager::count_up_entities, (manager, keys, entities), ()),
    ensures
        final(manager).entities@.dom() == old(manager).entities@.dom(),
        final(manager).resources@ == old(manager).resources@,
        old(manager).entities@.dom().contains(key) ==> final(manager).entities@[key]
            == old(manager).entities@[key] + all_with_key(keys@, entities@, key).len(),
{
    let texts = cache::key_texts(keys@);
    let here = versioning::entities_with_key(texts, entities@.to_set(), key);
    assert forall|e: Entity| #[trigger]
        here.contains(e) == listed_with_key(keys@, entities@, e, key) by {
        lemma_with_key(keys@, entities@, e, key);
    }
    assert(final(manager).entities@.dom() =~= old(manager).entities@.dom());
    if old(manager).entities@.dom().contains(key) {
        assert(old(manager)@.entities.dom().contains(key));
        assert(here =~= all_with_key(keys@, entities@, key));
    }
}

/// Forgetting: the versions of the entities' documents are gone, all others stay.
pub proof fn law_entity_versions_are_forgotten(
    manager: &mut VersionManager,
    keys: &HashMap<Entity, String>,
    entities: &HashSet<Entity>,
    key: Seq<char>,
)
    requires
        call_ensures(VersionManager::forget_entities, (manager, keys, entities), ()),
    ensures
        final(manager).resources@ == old(manager).resources@,
        final(manager).entities@.dom().contains(key) <==> old(manager).entities@.dom().contains(key)
            && forall|e: Entity| #[trigger]
            entities@.contains(e) && keys@.dom().contains(e) ==> keys@[e]@ != key,
        final(manager).entities@.dom().contains(key) ==> final(manager).entities@[key] == old(manager).entities@[key],
{
    let texts = cache::key_texts(keys@);
    let gone = versioning::keys_of_entities(texts, entities@);
    if gone.contains(key) {
        let e = choose|e: Entity| #[trigger]
            entities@.contains(e) && texts.dom().contains(e) && texts[e] == key;
        assert(keys@.dom().contains(e) && keys@[e]@ == key);
    } else {
        assert forall|e: Entity| #[trigger]
            entities@.contains(e) && keys@.dom().contains(e) implies keys@[e]@ != key by {
            assert(texts.dom().contains(e) && texts[e] == keys@[e]@);
        }
    }
}

/// The versions of resources: counted up, the first being 1, or forgotten; all
/// others stay.
pub proof fn law_resource_versions_are_counted_and_forgotten(
    manager: &mut VersionManager,
    types: &HashSet<TypeId>,
    t: TypeId,
)
    ensures
        call_ensures(VersionManager::count_up_resources, (manager, types), ()) && old(manager)@.resources_fit(types@) ==> {
            &&& final(manager).entities@ == old(manager).entities@
            &&& final(manager).resources@.dom().contains(t) <==> old(manager).resources@.dom().contains(t) || types@.contains(t)
            &&& types@.contains(t) && old(manager).resources@.dom().contains(t)
                ==> final(manager).resources@[t] == old(manager).resources@[t] + 1
            &&& types@.contains(t) && !old(manager).resources@.dom().contains(t)
                ==> final(manager).resources@[t] == 1
            &&& !types@.contains(t) && old(manager).resources@.dom().contains(t)
                ==> final(manager).resources@[t] == old(manager).resources@[t]
        },
        call_ensures(VersionManager::forget_resources, (manager, types), ()) ==> {
            &&& final(manager).entities@ == old(manager).entities@
            &&& final(manager).resources@.dom().contains(t) <==> old(manager).resources@.dom().contains(t) && !types@.contains(t)
            &&& final(manager).resources@.dom().contains(t) ==> final(manager).resources@[t] == old(manager).resources@[t]
        },
{
    if old(manager)@.resources_fit(types@) && types@.contains(t) {
        assert(old(manager)@.resource(t) != Some(u64::MAX));
    }
}

/// Caching a key: the entity has it and is found under it; another key that it had
/// leads nowhere; every other entity and every other key are as they were.
pub open spec fn key_was_cached(
    before: PersistenceCache,
    entity: Entity,
    key: Seq<char>,
    after: PersistenceCache,
) -> bool {
    &&& after.entity_keys@.dom() == before.entity_keys@.dom().insert(entity)
    &&& after.entity_keys@[entity]@ == key
    &&& forall|e: Entity|
        e != entity && #[trigger] after.entity_keys@.dom().contains(e) ==> after.entity_keys@[e]@
            == before.entity_keys@[e]@
    &&& after.guid_to_entity@.dom().contains(key)
    &&& after.guid_to_entity@[key] == entity
    &&& forall|k: Seq<char>|
        k != key ==> (#[trigger] after.guid_to_entity@.dom().contains(k)
            <==> before.guid_to_entity@.dom().contains(k) && !(before.entity_keys@.dom().contains(
            entity,
        ) && before.entity_keys@[entity]@ == k))
    &&& forall|k: Seq<char>|
        k != key && #[trigger] after.guid_to_entity@.dom().contains(k) ==> after.guid_to_entity@[k]
            == before.guid_to_entity@[k]
    &&& after.version_manager.entities@ == before.version_manager.entities@
    &&& after.version_manager.resources@ == before.version_manager.resources@
    &&& after.edge_snapshot@ == before.edge_snapshot@
}

/// Caching a key changes what it names and nothing else.
pub proof fn lemma_key_was_cached(
    before: PersistenceCache,
    entity: Entity,
    key: Seq<char>,
    after: PersistenceCache,
)
    requires
        after@ == before@.with_key(entity, key),
    ensures
        key_was_cached(before, entity, key, after),
{
    assert(after@.versions == before@.versions);
    assert(after@.keys.dom() =~= after.entity_keys@.dom());
    assert(before@.keys.dom() =~= before.entity_keys@.dom());
    assert(after.entity_keys@.dom() =~= before.entity_keys@.dom().insert(entity));
    assert(after@.keys[entity] == after.entity_keys@[entity]@);
    assert forall|e: Entity|
        e != entity && #[trigger] after.entity_keys@.dom().contains(
            e,
        ) implies after.entity_keys@[e]@ == before.entity_keys@[e]@ by {
        assert(after@.keys[e] == after.entity_keys@[e]@);
        assert(before@.keys[e] == before.entity_keys@[e]@);
    }
}

/// See [`key_was_cached`].
pub proof fn law_key_is_cached(session: &mut PersistenceSession, entity: Entity, key: String)
    requires
        call_ensures(PersistenceSession::insert_entity_key, (session, entity, key), ()),
    ensures
        key_was_cached(old(session).cache, entity, key@, final(session).cache),
        final(session).tracking == old(session).tracking,
        final(session).hydration_depth == old(session).hydration_depth,
{
    lemma_key_was_cached(old(session).cache, entity, key@, final(session).cache);
}

/// Looking up a key or an entity gives what is cached, and only that.
pub proof fn law_cached_keys_are_found(
    session: &PersistenceSession,
    entity: Entity,
    key: &str,
    found_key: Option<&String>,
    found: Option<Entity>,
)
    ensures
        call_ensures(PersistenceSession::entity_key, (session, entity), found_key) ==> {
            &&& found_key is Some <==> session.cache.entity_keys@.dom().contains(entity)
            &&& found_key matches Some(k) ==> k@ == session.cache.entity_keys@[entity]@
        },
        call_ensures(PersistenceSession::entity_by_key, (session, key), found) ==> {
            &&& found is Some <==> session.cache.guid_to_entity@.dom().contains(key@)
            &&& found matches Some(e) ==> e == session.cache.guid_to_entity@[key@]
        },
{
}

/// A snapshot that was set is the one kept, and nothing else changes.
pub proof fn law_snapshot_is_kept(session: &mut PersistenceSession, snapshot: KeySet)
    requires
        call_ensures(PersistenceSession::set_edge_snapshot, (session, snapshot), ()),
    ensures
        final(session).cache.edge_snapshot == snapshot,
        final(session).cache.entity_keys == old(session).cache.entity_keys,
        final(session).cache.guid_to_entity == old(session).cache.guid_to_entity,
        final(session).cache.version_manager == old(session).cache.version_manager,
        final(session).tracking == old(session).tracking,
{
}

} // verus!
