//! Build DB transaction ops from a session dirty snapshot.
use std::collections::{HashMap, HashSet};

use vstd::prelude::*;
use vstd::string::*;

use crate::collections;
use crate::collections::KeySet;
use crate::compact::CompactError;
use crate::db::connection;
use crate::db::connection::{
    DocumentKind, ErrorModel, OperationModel, PersistenceError, TransactionOperation,
};
use crate::session::cache;
use crate::session::edges;
use crate::session::edges::{EdgeDiff, RelationshipScan};
use crate::session::state::PersistenceSession;
use crate::session::tracking;
use crate::session::tracking::{DirtyModel, DirtyState};
use crate::session::{Entity, TypeId};
use crate::value::{Json, Object, Value};

verus! {

broadcast use {vstd::std_specs::hash::group_hash_axioms, vstd::hash_map::group_hash_map_axioms};

/// What a serializer gives for a component or a resource: nothing where the
/// world has none, the field name and the value where it has one.
pub type Serialized = Result<Option<(String, Value)>, PersistenceError>;

/// The mathematical content of a [`Serialized`].
#[verifier::ext_equal]
pub enum Outcome {
    Absent,
    Field { name: Seq<char>, value: Json },
    Failed(ErrorModel),
}

/// The content of what a serializer gave.
pub open spec fn outcome(s: Serialized) -> Outcome {
    match s {
        Ok(Some((name, value))) => Outcome::Field { name: name@, value: value@ },
        Ok(None) => Outcome::Absent,
        Err(e) => Outcome::Failed(e@),
    }
}

/// What a serializer gives for a value under that name: the encoded value,
/// where the world has one and it could be encoded.
pub fn serialized_field(name: &str, encoded: Option<Result<Value, CompactError>>) -> (r: Serialized)
    ensures
        outcome(r) == match encoded {
            None => Outcome::Absent,
            Some(Ok(value)) => Outcome::Field { name: name@, value: value@ },
            Some(Err(e)) => Outcome::Failed(ErrorModel::General(e@)),
        },
{
    match encoded {
        None => Ok(None),
        Some(Ok(value)) => Ok(Some((name.to_owned(), value))),
        Some(Err(e)) => Err(PersistenceError::General(e.0)),
    }
}

/// What a commit reads of the world.
pub struct WorldSnapshot {
    /// The GUIDs that entities carry.
    pub guids: HashMap<Entity, String>,
    /// The serialised components.
    pub components: HashMap<Entity, HashMap<TypeId, Serialized>>,
    /// The serialised resources.
    pub resources: HashMap<TypeId, Serialized>,
    /// The relationships, type by type.
    pub relationships: Vec<(TypeId, RelationshipScan)>,
}

impl WorldSnapshot {
    /// What the serializer of a component type gave for an entity.
    pub open spec fn component(&self, entity: Entity, component: TypeId) -> Outcome {
        if self.components@.dom().contains(entity) && self.components@[entity]@.dom().contains(
            component,
        ) {
            outcome(self.components@[entity]@[component])
        } else {
            Outcome::Absent
        }
    }

    /// What the serializer of a resource type gave.
    pub open spec fn resource(&self, type_id: TypeId) -> Outcome {
        if self.resources@.dom().contains(type_id) {
            outcome(self.resources@[type_id])
        } else {
            Outcome::Absent
        }
    }

    /// The GUID that an entity carries.
    pub open spec fn guid(&self, entity: Entity) -> Option<Seq<char>> {
        cache::key_text(self.guids@, entity)
    }

    /// What the serializer of a component type gave for an entity.
    fn get_component(&self, entity: Entity, component: TypeId) -> (r: Option<&Serialized>)
        ensures
            match r {
                Some(s) => outcome(*s) == self.component(entity, component),
                None => self.component(entity, component) is Absent,
            },
    {
        match self.components.get(&entity) {
            Some(components) => components.get(&component),
            None => None,
        }
    }
}

/// The order in which a commit goes through what has changed.
pub struct CommitOrder {
    pub entities: Vec<(Entity, Vec<TypeId>)>,
    pub despawned_entities: Vec<Entity>,
    pub resources: Vec<TypeId>,
    pub despawned_resources: Vec<TypeId>,
}

/// The entities and component types of an order.
pub open spec fn entity_order(entities: Seq<(Entity, Vec<TypeId>)>) -> Seq<(Entity, Seq<TypeId>)> {
    entities.map_values(|e: (Entity, Vec<TypeId>)| (e.0, e.1@))
}

impl CommitOrder {
    /// Lists all that has changed, each once.
    pub open spec fn enumerates(&self, dirty: DirtyModel) -> bool {
        &&& self.entities@.map_values(|e: (Entity, Vec<TypeId>)| e.0).no_duplicates()
        &&& self.entities@.map_values(|e: (Entity, Vec<TypeId>)| e.0).to_set()
            == dirty.components.dom()
        &&& forall|i: int|
            0 <= i < self.entities@.len() ==> {
                &&& (#[trigger] self.entities@[i]).1@.no_duplicates()
                &&& self.entities@[i].1@.to_set() == dirty.components[self.entities@[i].0]
            }
        &&& self.despawned_entities@.no_duplicates()
        &&& self.despawned_entities@.to_set() == dirty.despawned_entities
        &&& self.resources@.no_duplicates()
        &&& self.resources@.to_set() == dirty.resources
        &&& self.despawned_resources@.no_duplicates()
        &&& self.despawned_resources@.to_set() == dirty.despawned_resources
    }
}

impl DirtyState {
    /// Goes once through all that has changed. The order is that of the hash
    /// tables, so two calls on equal states may list it differently.
    pub fn walk(&self) -> (order: CommitOrder)
        ensures
            order.enumerates(self@),
    {
        let keys: Vec<Entity> = collections::keys_of(&self.dirty_entity_components);
        let mut entities: Vec<(Entity, Vec<TypeId>)> = Vec::new();
        let mut i: usize = 0;
        while i < keys.len()
            invariant
                i <= keys@.len(),
                keys@.to_set() == self.dirty_entity_components@.dom(),
                entities@.len() == i,
                forall|j: int|
                    0 <= j < i ==> {
                        &&& (#[trigger] entities@[j]).0 == keys@[j]
                        &&& entities@[j].1@.no_duplicates()
                        &&& entities@[j].1@.to_set() == self@.components[keys@[j]]
                    },
            decreases keys@.len() - i,
        {
            assert(keys@.to_set().contains(keys@[i as int]));
            match self.dirty_entity_components.get(&keys[i]) {
                Some(types) => {
                    entities.push((keys[i], collections::members(types)));
                },
                None => {},
            }
            i = i + 1;
        }
        assert(entities@.map_values(|e: (Entity, Vec<TypeId>)| e.0) =~= keys@);
        assert(self@.components.dom() =~= self.dirty_entity_components@.dom());
        CommitOrder {
            entities,
            despawned_entities: collections::members(&self.despawned_entities),
            resources: collections::members(&self.dirty_resources),
            despawned_resources: collections::members(&self.despawned_resources),
        }
    }
}

/// A lower-case hexadecimal digit.
pub open spec fn is_hex_digit(c: char) -> bool {
    "0123456789abcdef"@.contains(c)
}

/// The text of a random UUID: lower-case hexadecimal digits in five groups,
/// with the version digit 4 and a variant digit of `8`, `9`, `a` or `b`.
pub open spec fn is_uuid(text: Seq<char>) -> bool {
    &&& text.len() == 36
    &&& forall|i: int|
        0 <= i < 36 ==> if i == 8 || i == 13 || i == 18 || i == 23 {
            #[trigger] text[i] == '-'
        } else {
            is_hex_digit(text[i])
        }
    &&& text[14] == '4'
    &&& text[19] == '8' || text[19] == '9' || text[19] == 'a' || text[19] == 'b'
}

/// `uuid::Uuid::new_v4`, written out with `to_string`: a fresh random UUID in
/// hyphenated lower-case form. Nothing is said of which one; two calls differ.
/// Panics where the operating system has no source of random numbers.
#[verifier::external_body]
fn new_uuid() -> (key: String)
    ensures
        is_uuid(key@),
{
    uuid::Uuid::new_v4().to_string()
}

/// A UUID holds no `:`, so it can stand in an edge key as it is.
pub proof fn law_uuid_has_no_colon(text: Seq<char>)
    requires
        is_uuid(text),
    ensures
        !text.contains(':'),
{
    reveal_strlit("0123456789abcdef");
    assert forall|i: int| 0 <= i < text.len() implies text[i] != ':' by {
        if !(i == 8 || i == 13 || i == 18 || i == 23) {
            assert(is_hex_digit(text[i]));
        }
    }
}

/// `keys` gives a key to each dirty entity that has none yet, and to no other
/// entity: the GUID that the entity carries, or else a fresh UUID.
pub open spec fn preassigns(
    session: PersistenceSession,
    world: WorldSnapshot,
    dirty: DirtyModel,
    keys: Map<Entity, String>,
) -> bool {
    &&& keys.dom() == dirty.components.dom().filter(
        |e: Entity| session.cache.key_of(e) is None,
    )
    &&& forall|e: Entity| #[trigger]
        keys.dom().contains(e) ==> match world.guid(e) {
            Some(guid) => keys[e]@ == guid,
            None => is_uuid(keys[e]@),
        }
}

impl PersistenceSession {
    /// Client-side keys for the entities that a commit creates documents for.
    pub fn preassign_keys(&self, world: &WorldSnapshot, dirty: &DirtyState) -> (keys: HashMap<
        Entity,
        String,
    >)
        ensures
            preassigns(*self, *world, dirty@, keys@),
    {
        let entities: Vec<Entity> = collections::keys_of(&dirty.dirty_entity_components);
        let mut keys: HashMap<Entity, String> = HashMap::new();
        let mut i: usize = 0;
        while i < entities.len()
            invariant
                i <= entities@.len(),
                keys@.dom() == entities@.take(i as int).to_set().filter(
                    |e: Entity| self.cache.key_of(e) is None,
                ),
                forall|e: Entity| #[trigger]
                    keys@.dom().contains(e) ==> match world.guid(e) {
                        Some(guid) => keys@[e]@ == guid,
                        None => is_uuid(keys@[e]@),
                    },
            decreases entities@.len() - i,
        {
            let entity: Entity = entities[i];
            let ghost before = keys@;
            if !self.cache.entity_keys.contains_key(&entity) {
                let key: String = match world.guids.get(&entity) {
                    Some(guid) => guid.clone(),
                    None => new_uuid(),
                };
                keys.insert(entity, key);
            }
            proof {
                collections::lemma_take_to_set(entities@, i as int);
                assert(keys@.dom() =~= entities@.take(i + 1).to_set().filter(
                    |e: Entity| self.cache.key_of(e) is None,
                ));
            }
            i = i + 1;
        }
        proof {
            assert(entities@.take(i as int) =~= entities@);
            assert(dirty@.components.dom() =~= dirty.dirty_entity_components@.dom());
        }
        keys
    }
}

/// The operations that delete the documents of despawned entities, in order.
/// An entity without a key was never stored.
pub open spec fn entity_deletions(
    session: PersistenceSession,
    order: Seq<Entity>,
    store: Seq<char>,
) -> Result<Seq<OperationModel>, ErrorModel>
    decreases order.len(),
{
    if order.len() == 0 {
        Ok(Seq::empty())
    } else {
        match entity_deletions(session, order.drop_last(), store) {
            Err(e) => Err(e),
            Ok(ops) => match session.cache.key_of(order.last()) {
                None => Ok(ops),
                Some(key) => match session.cache.version_manager@.entity(key) {
                    None => Err(ErrorModel::General("Missing version for deletion"@)),
                    Some(version) => Ok(
                        ops.push(
                            OperationModel::Delete {
                                store,
                                kind: DocumentKind::Entity,
                                key,
                                expected: version,
                            },
                        ),
                    ),
                },
            },
        }
    }
}

/// The operations that delete the documents of removed resources, in order. A
/// resource without a name or a version is not stored.
pub open spec fn resource_deletions(
    session: PersistenceSession,
    order: Seq<TypeId>,
    store: Seq<char>,
) -> Seq<OperationModel>
    decreases order.len(),
{
    if order.len() == 0 {
        Seq::empty()
    } else {
        let ops = resource_deletions(session, order.drop_last(), store);
        match (
            session.resources.names@.name_of(order.last()),
            session.cache.version_manager@.resource(order.last()),
        ) {
            (Some(name), Some(version)) => ops.push(
                OperationModel::Delete {
                    store,
                    kind: DocumentKind::Resource,
                    key: name,
                    expected: version,
                },
            ),
            _ => ops,
        }
    }
}

/// True where a removed resource has a stored document.
pub open spec fn resource_stored(session: PersistenceSession, type_id: TypeId) -> bool {
    session.resources.names@.name_of(type_id) is Some && session.cache.version_manager@.resource(
        type_id,
    ) is Some
}

/// The fields that the serializers of `types` give for an entity. The first
/// failure in that order counts.
pub open spec fn entity_fields(
    session: PersistenceSession,
    world: WorldSnapshot,
    entity: Entity,
    types: Seq<TypeId>,
) -> Result<Map<Seq<char>, Json>, ErrorModel>
    decreases types.len(),
{
    if types.len() == 0 {
        Ok(Map::empty())
    } else {
        match entity_fields(session, world, entity, types.drop_last()) {
            Err(e) => Err(e),
            Ok(fields) => if !session.components.serializers@.contains(types.last()) {
                Ok(fields)
            } else {
                match world.component(entity, types.last()) {
                    Outcome::Absent => Ok(fields),
                    Outcome::Field { name, value } => Ok(fields.insert(name, value)),
                    Outcome::Failed(e) => Err(e),
                }
            },
        }
    }
}

/// True where a component of an entity is written to its document.
pub open spec fn writes_component(
    session: PersistenceSession,
    world: WorldSnapshot,
    entity: Entity,
    component: TypeId,
) -> bool {
    session.components.serializers@.contains(component) && world.component(
        entity,
        component,
    ) is Field
}

/// Those of `types` that are written to the entity's document.
pub open spec fn written_components(
    session: PersistenceSession,
    world: WorldSnapshot,
    entity: Entity,
    types: Set<TypeId>,
) -> Set<TypeId> {
    types.filter(|t: TypeId| writes_component(session, world, entity, t))
}

/// The operation that writes an entity's dirty components: an update of the
/// stored document to the next version, or a new document of version 1 under
/// the preassigned key. No operation where there is nothing to write.
pub open spec fn entity_operation(
    session: PersistenceSession,
    world: WorldSnapshot,
    keys: Map<Entity, String>,
    entity: Entity,
    types: Seq<TypeId>,
    key_field: Seq<char>,
    store: Seq<char>,
) -> Result<Option<OperationModel>, ErrorModel> {
    match entity_fields(session, world, entity, types) {
        Err(e) => Err(e),
        Ok(fields) => if fields == Map::<Seq<char>, Json>::empty() {
            Ok(None)
        } else {
            match session.cache.key_of(entity) {
                Some(key) => match session.cache.version_manager@.entity(key) {
                    None => Err(ErrorModel::General("Missing version for update"@)),
                    Some(version) => Ok(
                        Some(
                            OperationModel::Update {
                                store,
                                kind: DocumentKind::Entity,
                                key,
                                expected: version,
                                patch: Json::Object(
                                    connection::with_metadata(
                                        fields,
                                        DocumentKind::Entity,
                                        (version + 1) as u64,
                                    ),
                                ),
                            },
                        ),
                    ),
                },
                None => Ok(
                    Some(
                        OperationModel::Create {
                            store,
                            kind: DocumentKind::Entity,
                            data: Json::Object(
                                connection::with_metadata(
                                    fields.insert(key_field, Json::String(keys[entity]@)),
                                    DocumentKind::Entity,
                                    1,
                                ),
                            ),
                        },
                    ),
                ),
            }
        },
    }
}

/// The operations that write the dirty entities, in order.
pub open spec fn entity_operations(
    session: PersistenceSession,
    world: WorldSnapshot,
    keys: Map<Entity, String>,
    order: Seq<(Entity, Seq<TypeId>)>,
    key_field: Seq<char>,
    store: Seq<char>,
) -> Result<Seq<OperationModel>, ErrorModel>
    decreases order.len(),
{
    if order.len() == 0 {
        Ok(Seq::empty())
    } else {
        match entity_operations(session, world, keys, order.drop_last(), key_field, store) {
            Err(e) => Err(e),
            Ok(ops) => match entity_operation(
                session,
                world,
                keys,
                order.last().0,
                order.last().1,
                key_field,
                store,
            ) {
                Err(e) => Err(e),
                Ok(None) => Ok(ops),
                Ok(Some(op)) => Ok(ops.push(op)),
            },
        }
    }
}

/// The entities that get a new document, in order.
pub open spec fn created_entities(
    session: PersistenceSession,
    world: WorldSnapshot,
    keys: Map<Entity, String>,
    order: Seq<(Entity, Seq<TypeId>)>,
) -> Seq<Entity>
    decreases order.len(),
{
    if order.len() == 0 {
        Seq::empty()
    } else {
        let rest = created_entities(session, world, keys, order.drop_last());
        let (entity, types) = order.last();
        if keys.dom().contains(entity) && written_components(
            session,
            world,
            entity,
            types.to_set(),
        ) != Set::<TypeId>::empty() {
            rest.push(entity)
        } else {
            rest
        }
    }
}

/// The components that a commit writes, entity by entity.
pub open spec fn committed_components(
    session: PersistenceSession,
    world: WorldSnapshot,
    dirty: Map<Entity, Set<TypeId>>,
) -> Map<Entity, Set<TypeId>> {
    Map::new(
        |e: Entity|
            dirty.dom().contains(e) && written_components(session, world, e, dirty[e]) != Set::<
                TypeId,
            >::empty(),
        |e: Entity| written_components(session, world, e, dirty[e]),
    )
}

/// The operation that writes a resource: an update of the stored document to
/// the next version, or a new document of version 1 under the resource's name.
/// Only a document that is an object carries the key and the metadata.
pub open spec fn resource_operation(
    session: PersistenceSession,
    type_id: TypeId,
    name: Seq<char>,
    value: Json,
    key_field: Seq<char>,
    store: Seq<char>,
) -> OperationModel {
    match session.cache.version_manager@.resource(type_id) {
        Some(version) => OperationModel::Update {
            store,
            kind: DocumentKind::Resource,
            key: name,
            expected: version,
            patch: match value {
                Json::Object(fields) => Json::Object(
                    connection::with_metadata(
                        fields,
                        DocumentKind::Resource,
                        (version + 1) as u64,
                    ),
                ),
                other => other,
            },
        },
        None => OperationModel::Create {
            store,
            kind: DocumentKind::Resource,
            data: match value {
                Json::Object(fields) => Json::Object(
                    connection::with_metadata(
                        fields.insert(key_field, Json::String(name)),
                        DocumentKind::Resource,
                        1,
                    ),
                ),
                other => other,
            },
        },
    }
}

/// True where a commit looks at a dirty resource: it is not removed at the
/// same time, and its type is registered.
pub open spec fn considers_resource(
    session: PersistenceSession,
    dirty: DirtyModel,
    type_id: TypeId,
) -> bool {
    !dirty.despawned_resources.contains(type_id) && session.resources.serializers@.contains(
        type_id,
    )
}

/// The operations that write the dirty resources, in order. The first failure
/// in that order counts.
pub open spec fn resource_operations(
    session: PersistenceSession,
    world: WorldSnapshot,
    dirty: DirtyModel,
    order: Seq<TypeId>,
    key_field: Seq<char>,
    store: Seq<char>,
) -> Result<Seq<OperationModel>, ErrorModel>
    decreases order.len(),
{
    if order.len() == 0 {
        Ok(Seq::empty())
    } else {
        match resource_operations(session, world, dirty, order.drop_last(), key_field, store) {
            Err(e) => Err(e),
            Ok(ops) => if !considers_resource(session, dirty, order.last()) {
                Ok(ops)
            } else {
                match world.resource(order.last()) {
                    Outcome::Absent => Ok(ops),
                    Outcome::Field { name, value } => Ok(
                        ops.push(
                            resource_operation(
                                session,
                                order.last(),
                                name,
                                value,
                                key_field,
                                store,
                            ),
                        ),
                    ),
                    Outcome::Failed(e) => Err(e),
                }
            },
        }
    }
}

/// The resources that a commit writes.
pub open spec fn committed_resources(
    session: PersistenceSession,
    world: WorldSnapshot,
    dirty: DirtyModel,
) -> Set<TypeId> {
    dirty.resources.filter(
        |t: TypeId| considers_resource(session, dirty, t) && world.resource(t) is Field,
    )
}

/// The version of the entity's document, where it has one, can be counted up.
pub open spec fn entity_version_fits(session: PersistenceSession, entity: Entity) -> bool {
    match session.cache.key_of(entity) {
        Some(key) => session.cache.version_manager@.entity(key) != Some(u64::MAX),
        None => true,
    }
}

/// Every version that a commit of these changes counts up can be counted up:
/// those of the entities and the resources that it writes.
pub open spec fn versions_fit(
    session: PersistenceSession,
    world: WorldSnapshot,
    dirty: DirtyModel,
) -> bool {
    &&& forall|e: Entity| #[trigger]
        committed_components(session, world, dirty.components).dom().contains(e)
            ==> entity_version_fits(session, e)
    &&& forall|t: TypeId| #[trigger]
        committed_resources(session, world, dirty).contains(t)
            ==> session.cache.version_manager@.resource(t) != Some(u64::MAX)
}

proof fn lemma_entity_deletions_fail(
    session: PersistenceSession,
    order: Seq<Entity>,
    store: Seq<char>,
    k: int,
)
    requires
        0 <= k <= order.len(),
        entity_deletions(session, order.take(k), store) is Err,
    ensures
        entity_deletions(session, order, store) == entity_deletions(session, order.take(k), store),
    decreases order.len(),
{
    if k < order.len() {
        assert(order.drop_last().take(k) =~= order.take(k));
        lemma_entity_deletions_fail(session, order.drop_last(), store, k);
    } else {
        assert(order.take(k) =~= order);
    }
}

proof fn lemma_entity_fields_fail(
    session: PersistenceSession,
    world: WorldSnapshot,
    entity: Entity,
    types: Seq<TypeId>,
    k: int,
)
    requires
        0 <= k <= types.len(),
        entity_fields(session, world, entity, types.take(k)) is Err,
    ensures
        entity_fields(session, world, entity, types) == entity_fields(
            session,
            world,
            entity,
            types.take(k),
        ),
    decreases types.len(),
{
    if k < types.len() {
        assert(types.drop_last().take(k) =~= types.take(k));
        lemma_entity_fields_fail(session, world, entity, types.drop_last(), k);
    } else {
        assert(types.take(k) =~= types);
    }
}

proof fn lemma_entity_operations_fail(
    session: PersistenceSession,
    world: WorldSnapshot,
    keys: Map<Entity, String>,
    order: Seq<(Entity, Seq<TypeId>)>,
    key_field: Seq<char>,
    store: Seq<char>,
    k: int,
)
    requires
        0 <= k <= order.len(),
        entity_operations(session, world, keys, order.take(k), key_field, store) is Err,
    ensures
        entity_operations(session, world, keys, order, key_field, store) == entity_operations(
            session,
            world,
            keys,
            order.take(k),
            key_field,
            store,
        ),
    decreases order.len(),
{
    if k < order.len() {
        assert(order.drop_last().take(k) =~= order.take(k));
        lemma_entity_operations_fail(
            session,
            world,
            keys,
            order.drop_last(),
            key_field,
            store,
            k,
        );
    } else {
        assert(order.take(k) =~= order);
    }
}

proof fn lemma_resource_operations_fail(
    session: PersistenceSession,
    world: WorldSnapshot,
    dirty: DirtyModel,
    order: Seq<TypeId>,
    key_field: Seq<char>,
    store: Seq<char>,
    k: int,
)
    requires
        0 <= k <= order.len(),
        resource_operations(session, world, dirty, order.take(k), key_field, store) is Err,
    ensures
        resource_operations(session, world, dirty, order, key_field, store) == resource_operations(
            session,
            world,
            dirty,
            order.take(k),
            key_field,
            store,
        ),
    decreases order.len(),
{
    if k < order.len() {
        assert(order.drop_last().take(k) =~= order.take(k));
        lemma_resource_operations_fail(
            session,
            world,
            dirty,
            order.drop_last(),
            key_field,
            store,
            k,
        );
    } else {
        assert(order.take(k) =~= order);
    }
}

/// A document has fields exactly where a component is written to it.
proof fn lemma_fields_iff_written(
    session: PersistenceSession,
    world: WorldSnapshot,
    entity: Entity,
    types: Seq<TypeId>,
)
    requires
        entity_fields(session, world, entity, types) is Ok,
    ensures
        (entity_fields(session, world, entity, types)->Ok_0 == Map::<Seq<char>, Json>::empty())
            == (written_components(session, world, entity, types.to_set()) == Set::<
            TypeId,
        >::empty()),
    decreases types.len(),
{
    if types.len() == 0 {
        assert(written_components(session, world, entity, types.to_set()) =~= Set::empty());
    } else {
        let head = types.drop_last();
        let last = types.last();
        lemma_fields_iff_written(session, world, entity, head);
        assert(head.push(last) =~= types);
        collections::lemma_push_to_set(head, last);
        let written = written_components(session, world, entity, types.to_set());
        let before = written_components(session, world, entity, head.to_set());
        if writes_component(session, world, entity, last) {
            assert(written.contains(last));
            match world.component(entity, last) {
                Outcome::Field { name, value } => {
                    assert(entity_fields(session, world, entity, types)->Ok_0.dom().contains(name));
                },
                _ => {},
            }
        } else {
            assert(written =~= before);
        }
    }
}

proof fn lemma_models_push(ops: Seq<TransactionOperation>, op: TransactionOperation)
    ensures
        connection::operation_models(ops.push(op)) == connection::operation_models(ops).push(op@),
{
    assert(connection::operation_models(ops.push(op)) =~= connection::operation_models(ops).push(
        op@,
    ));
}

impl PersistenceSession {
    /// Deletes the documents of despawned entities.
    fn delete_entities(&self, order: &Vec<Entity>, store: &str) -> (r: Result<
        (Vec<TransactionOperation>, HashSet<Entity>),
        PersistenceError,
    >)
        ensures
            match r {
                Ok((ops, committed)) => {
                    &&& entity_deletions(*self, order@, store@) == Ok::<_, ErrorModel>(
                        connection::operation_models(ops@),
                    )
                    &&& committed@ == order@.to_set().filter(
                        |e: Entity| self.cache.key_of(e) is Some,
                    )
                },
                Err(e) => entity_deletions(*self, order@, store@) == Err::<
                    Seq<OperationModel>,
                    _,
                >(e@),
            },
    {
        let mut ops: Vec<TransactionOperation> = Vec::new();
        let mut committed: HashSet<Entity> = HashSet::new();
        let mut i: usize = 0;
        assert(connection::operation_models(ops@) =~= Seq::empty());
        while i < order.len()
            invariant
                i <= order@.len(),
                entity_deletions(*self, order@.take(i as int), store@) == Ok::<_, ErrorModel>(
                    connection::operation_models(ops@),
                ),
                committed@ == order@.take(i as int).to_set().filter(
                    |e: Entity| self.cache.key_of(e) is Some,
                ),
            decreases order@.len() - i,
        {
            let entity: Entity = order[i];
            proof {
                collections::lemma_take_to_set(order@, i as int);
                assert(order@.take(i + 1).drop_last() =~= order@.take(i as int));
            }
            match self.cache.entity_key(entity) {
                Some(key) => {
                    match self.cache.version_manager.entity_version(key.as_str()) {
                        Some(version) => {
                            let op = TransactionOperation::DeleteDocument {
                                store: store.to_owned(),
                                kind: DocumentKind::Entity,
                                key: key.clone(),
                                expected_current_version: version,
                            };
                            proof {
                                lemma_models_push(ops@, op);
                            }
                            ops.push(op);
                            committed.insert(entity);
                        },
                        None => {
                            proof {
                                lemma_entity_deletions_fail(*self, order@, store@, i + 1);
                            }
                            return Err(PersistenceError::new("Missing version for deletion"));
                        },
                    }
                },
                None => {},
            }
            assert(committed@ =~= order@.take(i + 1).to_set().filter(
                |e: Entity| self.cache.key_of(e) is Some,
            ));
            i = i + 1;
        }
        assert(order@.take(i as int) =~= order@);
        Ok((ops, committed))
    }

    /// Deletes the documents of removed resources.
    fn delete_resources(&self, order: &Vec<TypeId>, store: &str) -> (r: (
        Vec<TransactionOperation>,
        HashSet<TypeId>,
    ))
        ensures
            connection::operation_models(r.0@) == resource_deletions(*self, order@, store@),
            r.1@ == order@.to_set().filter(|t: TypeId| resource_stored(*self, t)),
    {
        let mut ops: Vec<TransactionOperation> = Vec::new();
        let mut committed: HashSet<TypeId> = HashSet::new();
        let mut i: usize = 0;
        assert(connection::operation_models(ops@) =~= Seq::empty());
        while i < order.len()
            invariant
                i <= order@.len(),
                connection::operation_models(ops@) == resource_deletions(
                    *self,
                    order@.take(i as int),
                    store@,
                ),
                committed@ == order@.take(i as int).to_set().filter(
                    |t: TypeId| resource_stored(*self, t),
                ),
            decreases order@.len() - i,
        {
            let type_id: TypeId = order[i];
            proof {
                collections::lemma_take_to_set(order@, i as int);
                assert(order@.take(i + 1).drop_last() =~= order@.take(i as int));
            }
            match self.resources.names.name_of(type_id) {
                Some(name) => match self.resource_version(type_id) {
                    Some(version) => {
                        let op = TransactionOperation::DeleteDocument {
                            store: store.to_owned(),
                            kind: DocumentKind::Resource,
                            key: name.clone(),
                            expected_current_version: version,
                        };
                        proof {
                            lemma_models_push(ops@, op);
                        }
                        ops.push(op);
                        committed.insert(type_id);
                    },
                    None => {},
                },
                None => {},
            }
            assert(committed@ =~= order@.take(i + 1).to_set().filter(
                |t: TypeId| resource_stored(*self, t),
            ));
            i = i + 1;
        }
        assert(order@.take(i as int) =~= order@);
        (ops, committed)
    }

    /// The document fields and the written types of one entity.
    fn collect_fields(&self, world: &WorldSnapshot, entity: Entity, types: &Vec<TypeId>) -> (r:
        Result<(Object, HashSet<TypeId>), PersistenceError>)
        ensures
            match r {
                Ok((fields, written)) => {
                    &&& entity_fields(*self, *world, entity, types@) == Ok::<_, ErrorModel>(fields@)
                    &&& written@ == written_components(*self, *world, entity, types@.to_set())
                },
                Err(e) => entity_fields(*self, *world, entity, types@) == Err::<
                    Map<Seq<char>, Json>,
                    _,
                >(e@),
            },
    {
        let mut fields: Object = Object::new();
        let mut written: HashSet<TypeId> = HashSet::new();
        let mut i: usize = 0;
        while i < types.len()
            invariant
                i <= types@.len(),
                entity_fields(*self, *world, entity, types@.take(i as int)) == Ok::<_, ErrorModel>(
                    fields@,
                ),
                written@ == written_components(
                    *self,
                    *world,
                    entity,
                    types@.take(i as int).to_set(),
                ),
            decreases types@.len() - i,
        {
            let component: TypeId = types[i];
            proof {
                collections::lemma_take_to_set(types@, i as int);
                assert(types@.take(i + 1).drop_last() =~= types@.take(i as int));
            }
            if self.components.serializers.contains(&component) {
                match world.get_component(entity, component) {
                    Some(serialized) => match serialized {
                        Ok(Some((name, value))) => {
                            fields.insert(name.clone(), value.clone());
                            written.insert(component);
                        },
                        Ok(None) => {},
                        Err(e) => {
                            proof {
                                lemma_entity_fields_fail(*self, *world, entity, types@, i + 1);
                            }
                            return Err(e.clone());
                        },
                    },
                    None => {},
                }
            }
            assert(written@ =~= written_components(
                *self,
                *world,
                entity,
                types@.take(i + 1).to_set(),
            ));
            i = i + 1;
        }
        assert(types@.take(i as int) =~= types@);
        Ok((fields, written))
    }

    /// Where the entity has something to write it has a key, cached or assigned,
    /// and its version can be counted up.
    spec fn can_write(
        &self,
        world: WorldSnapshot,
        keys: Map<Entity, String>,
        entity: Entity,
        types: Seq<TypeId>,
    ) -> bool {
        written_components(*self, world, entity, types.to_set()) != Set::<TypeId>::empty() ==> {
            &&& self.cache.key_of(entity) is Some || keys.dom().contains(entity)
            &&& entity_version_fits(*self, entity)
        }
    }

    /// The operation that writes one entity, with the types it writes.
    fn write_entity(
        &self,
        world: &WorldSnapshot,
        keys: &HashMap<Entity, String>,
        entity: Entity,
        types: &Vec<TypeId>,
        key_field: &str,
        store: &str,
    ) -> (r: Result<Option<(TransactionOperation, HashSet<TypeId>)>, PersistenceError>)
        requires
            self.can_write(*world, keys@, entity, types@),
        ensures
            match r {
                Ok(Some((op, written))) => {
                    &&& entity_operation(
                        *self,
                        *world,
                        keys@,
                        entity,
                        types@,
                        key_field@,
                        store@,
                    ) == Ok::<_, ErrorModel>(Some(op@))
                    &&& written@ == written_components(*self, *world, entity, types@.to_set())
                    &&& written@ != Set::<TypeId>::empty()
                },
                Ok(None) => {
                    &&& entity_operation(
                        *self,
                        *world,
                        keys@,
                        entity,
                        types@,
                        key_field@,
                        store@,
                    ) == Ok::<_, ErrorModel>(None::<OperationModel>)
                    &&& written_components(*self, *world, entity, types@.to_set()) == Set::<
                        TypeId,
                    >::empty()
                },
                Err(e) => entity_operation(
                    *self,
                    *world,
                    keys@,
                    entity,
                    types@,
                    key_field@,
                    store@,
                ) == Err::<Option<OperationModel>, _>(e@),
            },
    {
        let (fields, written) = match self.collect_fields(world, entity, types) {
            Ok(collected) => collected,
            Err(e) => {
                return Err(e);
            },
        };
        proof {
            lemma_fields_iff_written(*self, *world, entity, types@);
        }
        if fields.is_empty() {
            return Ok(None);
        }
        let mut fields: Object = fields;
        match self.cache.entity_key(entity) {
            Some(key) => {
                let version: u64 = match self.cache.version_manager.entity_version(key.as_str()) {
                    Some(version) => version,
                    None => {
                        return Err(PersistenceError::new("Missing version for update"));
                    },
                };
                connection::insert_meta(&mut fields, DocumentKind::Entity, version + 1);
                let op = TransactionOperation::UpdateDocument {
                    store: store.to_owned(),
                    kind: DocumentKind::Entity,
                    key: key.clone(),
                    expected_current_version: version,
                    patch: Value::Object(fields),
                };
                Ok(Some((op, written)))
            },
            None => {
                let key: String = keys.get(&entity).unwrap().clone();
                fields.insert(key_field.to_owned(), Value::String(key));
                connection::insert_meta(&mut fields, DocumentKind::Entity, 1);
                let op = TransactionOperation::CreateDocument {
                    store: store.to_owned(),
                    kind: DocumentKind::Entity,
                    data: Value::Object(fields),
                };
                Ok(Some((op, written)))
            },
        }
    }
}

/// The components that a commit writes, gathered entity by entity in order.
pub open spec fn components_written_in(
    session: PersistenceSession,
    world: WorldSnapshot,
    order: Seq<(Entity, Seq<TypeId>)>,
) -> Map<Entity, Set<TypeId>>
    decreases order.len(),
{
    if order.len() == 0 {
        Map::empty()
    } else {
        let rest = components_written_in(session, world, order.drop_last());
        let (entity, types) = order.last();
        let written = written_components(session, world, entity, types.to_set());
        if written != Set::<TypeId>::empty() {
            rest.insert(entity, written)
        } else {
            rest
        }
    }
}

/// Going through the dirty entities in any order writes the same components.
proof fn lemma_written_in_order(
    session: PersistenceSession,
    world: WorldSnapshot,
    order: Seq<(Entity, Seq<TypeId>)>,
    dirty: Map<Entity, Set<TypeId>>,
)
    requires
        order.map_values(|e: (Entity, Seq<TypeId>)| e.0).no_duplicates(),
        order.map_values(|e: (Entity, Seq<TypeId>)| e.0).to_set() == dirty.dom(),
        forall|i: int|
            0 <= i < order.len() ==> (#[trigger] order[i]).1.to_set() == dirty[order[i].0],
    ensures
        components_written_in(session, world, order) == committed_components(session, world, dirty),
    decreases order.len(),
{
    let entities = order.map_values(|e: (Entity, Seq<TypeId>)| e.0);
    if order.len() == 0 {
        assert(entities =~= Seq::empty());
        assert forall|e: Entity| !dirty.dom().contains(e) by {
            assert(!entities.to_set().contains(e));
        }
        assert(components_written_in(session, world, order) =~= committed_components(
            session,
            world,
            dirty,
        ));
    } else {
        let head = order.drop_last();
        let (entity, types) = order.last();
        let rest = dirty.remove(entity);
        let head_entities = head.map_values(|e: (Entity, Seq<TypeId>)| e.0);
        assert(head_entities.push(entity) =~= entities);
        collections::lemma_push_to_set(head_entities, entity);
        assert(!head_entities.to_set().contains(entity)) by {
            if head_entities.to_set().contains(entity) {
                let j = choose|j: int|
                    0 <= j < head_entities.len() && head_entities[j] == entity;
                assert(entities[j] == entities[entities.len() - 1]);
            }
        }
        assert(head_entities.no_duplicates()) by {
            assert forall|i: int, j: int|
                0 <= i < head_entities.len() && 0 <= j < head_entities.len() && i
                    != j implies head_entities[i] != head_entities[j] by {
                assert(entities[i] != entities[j]);
            }
        }
        assert(head_entities.to_set() =~= rest.dom());
        assert forall|i: int| 0 <= i < head.len() implies (#[trigger] head[i]).1.to_set()
            == rest[head[i].0] by {
            assert(head[i] == order[i]);
            assert(head_entities[i] == head[i].0);
            assert(head_entities.to_set().contains(head[i].0));
        }
        lemma_written_in_order(session, world, head, rest);
        assert(order[order.len() - 1].1.to_set() == dirty[entity]);
        assert(entities.to_set().contains(entity)) by {
            assert(entities[entities.len() - 1] == entity);
        }
        assert(components_written_in(session, world, order) =~= committed_components(
            session,
            world,
            dirty,
        ));
    }
}

impl PersistenceSession {
    /// Writes the dirty entities.
    fn write_entities(
        &self,
        world: &WorldSnapshot,
        keys: &HashMap<Entity, String>,
        order: &Vec<(Entity, Vec<TypeId>)>,
        key_field: &str,
        store: &str,
    ) -> (r: Result<
        (Vec<TransactionOperation>, Vec<Entity>, HashMap<Entity, HashSet<TypeId>>),
        PersistenceError,
    >)
        requires
            forall|i: int|
                0 <= i < order@.len() ==> self.can_write(
                    *world,
                    keys@,
                    (#[trigger] order@[i]).0,
                    order@[i].1@,
                ),
        ensures
            match r {
                Ok((ops, created, committed)) => {
                    &&& entity_operations(
                        *self,
                        *world,
                        keys@,
                        entity_order(order@),
                        key_field@,
                        store@,
                    ) == Ok::<_, ErrorModel>(connection::operation_models(ops@))
                    &&& created@ == created_entities(
                        *self,
                        *world,
                        keys@,
                        entity_order(order@),
                    )
                    &&& tracking::component_sets(committed@)
                        == components_written_in(*self, *world, entity_order(order@))
                },
                Err(e) => entity_operations(
                    *self,
                    *world,
                    keys@,
                    entity_order(order@),
                    key_field@,
                    store@,
                ) == Err::<Seq<OperationModel>, _>(e@),
            },
    {
        let ghost all = entity_order(order@);
        let mut ops: Vec<TransactionOperation> = Vec::new();
        let mut created: Vec<Entity> = Vec::new();
        let mut committed: HashMap<Entity, HashSet<TypeId>> = HashMap::new();
        let mut i: usize = 0;
        assert(connection::operation_models(ops@) =~= Seq::empty());
        assert(tracking::component_sets(committed@) =~= Map::empty());
        while i < order.len()
            invariant
                i <= order@.len(),
                all == entity_order(order@),
                forall|i: int|
                    0 <= i < order@.len() ==> self.can_write(
                        *world,
                        keys@,
                        (#[trigger] order@[i]).0,
                        order@[i].1@,
                    ),
                entity_operations(
                    *self,
                    *world,
                    keys@,
                    all.take(i as int),
                    key_field@,
                    store@,
                ) == Ok::<_, ErrorModel>(connection::operation_models(ops@)),
                created@ == created_entities(*self, *world, keys@, all.take(i as int)),
                tracking::component_sets(committed@) == components_written_in(
                    *self,
                    *world,
                    all.take(i as int),
                ),
            decreases order@.len() - i,
        {
            let entity: Entity = order[i].0;
            let ghost before = committed@;
            proof {
                assert(all.take(i + 1).drop_last() =~= all.take(i as int));
                assert(all.take(i + 1).last() == (entity, order@[i as int].1@));
            }
            match self.write_entity(world, keys, entity, &order[i].1, key_field, store) {
                Ok(Some((op, written))) => {
                    proof {
                        lemma_models_push(ops@, op);
                    }
                    if keys.contains_key(&entity) {
                        created.push(entity);
                    }
                    committed.insert(entity, written);
                    ops.push(op);
                    assert(tracking::component_sets(committed@)
                        =~= tracking::component_sets(before).insert(
                        entity,
                        written@,
                    ));
                },
                Ok(None) => {},
                Err(e) => {
                    proof {
                        lemma_entity_operations_fail(
                            *self,
                            *world,
                            keys@,
                            all,
                            key_field@,
                            store@,
                            i + 1,
                        );
                    }
                    return Err(e);
                },
            }
            i = i + 1;
        }
        assert(all.take(i as int) =~= all);
        Ok((ops, created, committed))
    }

    /// The operation that writes one resource.
    fn write_resource(
        &self,
        type_id: TypeId,
        name: String,
        value: Value,
        key_field: &str,
        store: &str,
    ) -> (op: TransactionOperation)
        requires
            self.cache.version_manager@.resource(type_id) != Some(u64::MAX),
        ensures
            op@ == resource_operation(*self, type_id, name@, value@, key_field@, store@),
    {
        match self.resource_version(type_id) {
            Some(version) => {
                let patch: Value = match value {
                    Value::Object(fields) => {
                        let mut fields: Object = fields;
                        connection::insert_meta(&mut fields, DocumentKind::Resource, version + 1);
                        Value::Object(fields)
                    },
                    other => other,
                };
                TransactionOperation::UpdateDocument {
                    store: store.to_owned(),
                    kind: DocumentKind::Resource,
                    key: name,
                    expected_current_version: version,
                    patch,
                }
            },
            None => {
                let data: Value = match value {
                    Value::Object(fields) => {
                        let mut fields: Object = fields;
                        fields.insert(key_field.to_owned(), Value::String(name));
                        connection::insert_meta(&mut fields, DocumentKind::Resource, 1);
                        Value::Object(fields)
                    },
                    other => other,
                };
                TransactionOperation::CreateDocument {
                    store: store.to_owned(),
                    kind: DocumentKind::Resource,
                    data,
                }
            },
        }
    }

    /// Writes the dirty resources.
    fn write_resources(
        &self,
        world: &WorldSnapshot,
        dirty: &DirtyState,
        order: &Vec<TypeId>,
        key_field: &str,
        store: &str,
    ) -> (r: Result<(Vec<TransactionOperation>, HashSet<TypeId>), PersistenceError>)
        requires
            forall|i: int|
                0 <= i < order@.len() && considers_resource(*self, dirty@, order@[i])
                    && world.resource(order@[i]) is Field
                    ==> self.cache.version_manager@.resource(#[trigger] order@[i]) != Some(
                    u64::MAX,
                ),
        ensures
            match r {
                Ok((ops, committed)) => {
                    &&& resource_operations(
                        *self,
                        *world,
                        dirty@,
                        order@,
                        key_field@,
                        store@,
                    ) == Ok::<_, ErrorModel>(connection::operation_models(ops@))
                    &&& committed@ == order@.to_set().filter(
                        |t: TypeId|
                            considers_resource(*self, dirty@, t) && world.resource(t) is Field,
                    )
                },
                Err(e) => resource_operations(
                    *self,
                    *world,
                    dirty@,
                    order@,
                    key_field@,
                    store@,
                ) == Err::<Seq<OperationModel>, _>(e@),
            },
    {
        let mut ops: Vec<TransactionOperation> = Vec::new();
        let mut committed: HashSet<TypeId> = HashSet::new();
        let mut i: usize = 0;
        assert(connection::operation_models(ops@) =~= Seq::empty());
        while i < order.len()
            invariant
                i <= order@.len(),
                forall|i: int|
                    0 <= i < order@.len() && considers_resource(*self, dirty@, order@[i])
                        && world.resource(order@[i]) is Field
                        ==> self.cache.version_manager@.resource(#[trigger] order@[i]) != Some(
                        u64::MAX,
                    ),
                resource_operations(
                    *self,
                    *world,
                    dirty@,
                    order@.take(i as int),
                    key_field@,
                    store@,
                ) == Ok::<_, ErrorModel>(connection::operation_models(ops@)),
                committed@ == order@.take(i as int).to_set().filter(
                    |t: TypeId|
                        considers_resource(*self, dirty@, t) && world.resource(t) is Field,
                ),
            decreases order@.len() - i,
        {
            let type_id: TypeId = order[i];
            proof {
                collections::lemma_take_to_set(order@, i as int);
                assert(order@.take(i + 1).drop_last() =~= order@.take(i as int));
            }
            if !dirty.despawned_resources.contains(&type_id)
                && self.resources.serializers.contains(&type_id) {
                match world.resources.get(&type_id) {
                    Some(serialized) => match serialized {
                        Ok(Some((name, value))) => {
                            let op: TransactionOperation = self.write_resource(
                                type_id,
                                name.clone(),
                                value.clone(),
                                key_field,
                                store,
                            );
                            proof {
                                lemma_models_push(ops@, op);
                            }
                            ops.push(op);
                            committed.insert(type_id);
                        },
                        Ok(None) => {},
                        Err(e) => {
                            proof {
                                lemma_resource_operations_fail(
                                    *self,
                                    *world,
                                    dirty@,
                                    order@,
                                    key_field@,
                                    store@,
                                    i + 1,
                                );
                            }
                            return Err(e.clone());
                        },
                    },
                    None => {},
                }
            }
            assert(committed@ =~= order@.take(i + 1).to_set().filter(
                |t: TypeId| considers_resource(*self, dirty@, t) && world.resource(t) is Field,
            ));
            i = i + 1;
        }
        assert(order@.take(i as int) =~= order@);
        Ok((ops, committed))
    }
}

/// What a commit sends to the database, and what its success means to the session.
pub struct CommitData {
    pub operations: Vec<TransactionOperation>,
    pub new_entities: Vec<Entity>,
    /// Updated edge snapshot to apply on successful commit.
    pub new_edge_snapshot: KeySet,
    /// Client-side preassigned keys for new entities.
    pub preassigned_keys: HashMap<Entity, String>,
    /// Dirty sets scoped to entities/resources that actually produced DB operations.
    pub committed_entity_components: HashMap<Entity, HashSet<TypeId>>,
    pub committed_despawned_entities: HashSet<Entity>,
    pub committed_dirty_resources: HashSet<TypeId>,
    pub committed_despawned_resources: HashSet<TypeId>,
}

/// The mathematical content of [`CommitData`].
#[verifier::ext_equal]
pub struct CommitModel {
    pub operations: Seq<OperationModel>,
    pub new_entities: Seq<Entity>,
    pub new_edge_snapshot: Set<Seq<char>>,
    pub preassigned_keys: Map<Entity, Seq<char>>,
    pub committed_components: Map<Entity, Set<TypeId>>,
    pub committed_despawned_entities: Set<Entity>,
    pub committed_resources: Set<TypeId>,
    pub committed_despawned_resources: Set<TypeId>,
}

impl View for CommitData {
    type V = CommitModel;

    open spec fn view(&self) -> CommitModel {
        CommitModel {
            operations: connection::operation_models(self.operations@),
            new_entities: self.new_entities@,
            new_edge_snapshot: self.new_edge_snapshot@,
            preassigned_keys: cache::key_texts(self.preassigned_keys@),
            committed_components: tracking::component_sets(self.committed_entity_components@),
            committed_despawned_entities: self.committed_despawned_entities@,
            committed_resources: self.committed_dirty_resources@,
            committed_despawned_resources: self.committed_despawned_resources@,
        }
    }
}

/// The operations that carry out an edge diff; none for an empty list.
pub open spec fn edge_operations(diff: EdgeDiff, store: Seq<char>) -> Seq<OperationModel> {
    let upserts = if diff.upserts.len() == 0 {
        Seq::empty()
    } else {
        seq![OperationModel::UpsertEdges { store, edges: diff.upserts }]
    };
    let deletes = if diff.deletes.len() == 0 {
        Seq::empty()
    } else {
        seq![OperationModel::DeleteEdges { store, keys: diff.deletes }]
    };
    upserts + deletes
}

/// The commit of `dirty`, gone through in `order`: first the deletions, then
/// the entities, the resources and the edges. What fails first in that order
/// is the error.
pub open spec fn prepared_commit(
    session: PersistenceSession,
    world: WorldSnapshot,
    dirty: DirtyModel,
    order: CommitOrder,
    keys: Map<Entity, String>,
    key_field: Seq<char>,
    store: Seq<char>,
) -> Result<CommitModel, ErrorModel> {
    if store.len() == 0 {
        Err(ErrorModel::General("store must be provided for commit"@))
    } else {
        match entity_deletions(session, order.despawned_entities@, store) {
            Err(e) => Err(e),
            Ok(entity_deletes) => match entity_operations(
                session,
                world,
                keys,
                entity_order(order.entities@),
                key_field,
                store,
            ) {
                Err(e) => Err(e),
                Ok(entity_writes) => match resource_operations(
                    session,
                    world,
                    dirty,
                    order.resources@,
                    key_field,
                    store,
                ) {
                    Err(e) => Err(e),
                    Ok(resource_writes) => match edges::edge_changes(
                        session,
                        world.relationships@,
                        keys,
                        dirty,
                    ) {
                        Err(e) => Err(e),
                        Ok(diff) => Ok(
                            CommitModel {
                                operations: entity_deletes + resource_deletions(
                                    session,
                                    order.despawned_resources@,
                                    store,
                                ) + entity_writes + resource_writes + edge_operations(diff, store),
                                new_entities: created_entities(
                                    session,
                                    world,
                                    keys,
                                    entity_order(order.entities@),
                                ),
                                new_edge_snapshot: diff.snapshot,
                                preassigned_keys: cache::key_texts(keys),
                                committed_components: committed_components(
                                    session,
                                    world,
                                    dirty.components,
                                ),
                                committed_despawned_entities: dirty.despawned_entities.filter(
                                    |e: Entity| session.cache.key_of(e) is Some,
                                ),
                                committed_resources: committed_resources(session, world, dirty),
                                committed_despawned_resources: dirty.despawned_resources.filter(
                                    |t: TypeId| resource_stored(session, t),
                                ),
                            },
                        ),
                    },
                },
            },
        }
    }
}

proof fn lemma_models_concat(a: Seq<TransactionOperation>, b: Seq<TransactionOperation>)
    ensures
        connection::operation_models(a + b) == connection::operation_models(a)
            + connection::operation_models(b),
{
    assert(connection::operation_models(a + b) =~= connection::operation_models(a)
        + connection::operation_models(b));
}

fn append_operations(all: &mut Vec<TransactionOperation>, more: Vec<TransactionOperation>)
    ensures
        connection::operation_models(final(all)@) == connection::operation_models(old(all)@)
            + connection::operation_models(more@),
{
    let mut more: Vec<TransactionOperation> = more;
    proof {
        lemma_models_concat(all@, more@);
    }
    all.append(&mut more);
}

impl PersistenceSession {
    /// Prepares the commit of `dirty` with the keys already assigned, going
    /// through the changes in the given order.
    pub fn prepare_commit_with_keys(
        &self,
        world: &WorldSnapshot,
        dirty: &DirtyState,
        order: &CommitOrder,
        keys: HashMap<Entity, String>,
        key_field: &str,
        store: &str,
    ) -> (r: Result<CommitData, PersistenceError>)
        requires
            self.cache.edge_snapshot.wf(),
            order.enumerates(dirty@),
            versions_fit(*self, *world, dirty@),
            forall|e: Entity| #[trigger]
                committed_components(*self, *world, dirty@.components).dom().contains(e)
                    ==> self.cache.key_of(e) is Some || keys@.dom().contains(e),
        ensures
            match r {
                Ok(data) => {
                    &&& data.new_edge_snapshot.wf()
                    &&& data.preassigned_keys == keys
                    &&& prepared_commit(
                        *self,
                        *world,
                        dirty@,
                        *order,
                        keys@,
                        key_field@,
                        store@,
                    ) == Ok::<_, ErrorModel>(data@)
                },
                Err(e) => prepared_commit(
                    *self,
                    *world,
                    dirty@,
                    *order,
                    keys@,
                    key_field@,
                    store@,
                ) == Err::<CommitModel, _>(e@),
            },
    {
        if store.is_empty() {
            return Err(PersistenceError::new("store must be provided for commit"));
        }
        // 1) Deletions
        let (mut operations, committed_despawned_entities) = match self.delete_entities(
            &order.despawned_entities,
            store,
        ) {
            Ok(deleted) => deleted,
            Err(e) => {
                return Err(e);
            },
        };
        let (resource_deletes, committed_despawned_resources) = self.delete_resources(
            &order.despawned_resources,
            store,
        );
        append_operations(&mut operations, resource_deletes);
        // 2) Creations & updates of entities
        let ghost entities = order.entities@.map_values(|e: (Entity, Vec<TypeId>)| e.0);
        assert forall|i: int| 0 <= i < order.entities@.len() implies self.can_write(
            *world,
            keys@,
            (#[trigger] order.entities@[i]).0,
            order.entities@[i].1@,
        ) by {
            let entity = order.entities@[i].0;
            assert(entities[i] == entity);
            assert(entities.to_set().contains(entity));
            if written_components(*self, *world, entity, order.entities@[i].1@.to_set())
                != Set::<TypeId>::empty() {
                assert(committed_components(*self, *world, dirty@.components).dom().contains(
                    entity,
                ));
            }
        }
        let (entity_writes, new_entities, committed_entity_components) = match self.write_entities(
            world,
            &keys,
            &order.entities,
            key_field,
            store,
        ) {
            Ok(written) => written,
            Err(e) => {
                return Err(e);
            },
        };
        append_operations(&mut operations, entity_writes);
        proof {
            let all = entity_order(order.entities@);
            assert(all.map_values(|e: (Entity, Seq<TypeId>)| e.0) =~= entities);
            assert forall|i: int| 0 <= i < all.len() implies (#[trigger] all[i]).1.to_set()
                == dirty@.components[all[i].0] by {
                assert(order.entities@[i].1@.to_set() == dirty@.components[order.entities@[i].0]);
            }
            lemma_written_in_order(*self, *world, all, dirty@.components);
        }
        // 3) Resources
        assert forall|i: int|
            0 <= i < order.resources@.len() && considers_resource(
                *self,
                dirty@,
                order.resources@[i],
            ) && world.resource(
                order.resources@[i],
            ) is Field implies self.cache.version_manager@.resource(#[trigger] order.resources@[i])
            != Some(u64::MAX) by {
            assert(order.resources@.to_set().contains(order.resources@[i]));
            assert(committed_resources(*self, *world, dirty@).contains(order.resources@[i]));
        }
        let (resource_writes, committed_dirty_resources) = match self.write_resources(
            world,
            dirty,
            &order.resources,
            key_field,
            store,
        ) {
            Ok(written) => written,
            Err(e) => {
                return Err(e);
            },
        };
        append_operations(&mut operations, resource_writes);
        // 4) Relationship edges, as a difference to the last-committed ones
        let (upserts, deletes, new_edge_snapshot) = match self.change_edges(
            &world.relationships,
            &keys,
            dirty,
        ) {
            Ok(changes) => changes,
            Err(e) => {
                return Err(e);
            },
        };
        let ghost diff = EdgeDiff {
            upserts: connection::edge_models(upserts@),
            deletes: collections::texts(deletes@),
            snapshot: new_edge_snapshot@,
        };
        let mut edge_changes: Vec<TransactionOperation> = Vec::new();
        if upserts.len() > 0 {
            edge_changes.push(
                TransactionOperation::UpsertEdges { store: store.to_owned(), edges: upserts },
            );
        }
        if deletes.len() > 0 {
            edge_changes.push(
                TransactionOperation::DeleteEdges { store: store.to_owned(), keys: deletes },
            );
        }
        assert(connection::operation_models(edge_changes@) =~= edge_operations(diff, store@));
        append_operations(&mut operations, edge_changes);
        let data = CommitData {
            operations,
            new_entities,
            new_edge_snapshot,
            preassigned_keys: keys,
            committed_entity_components,
            committed_despawned_entities,
            committed_dirty_resources,
            committed_despawned_resources,
        };
        Ok(data)
    }

    /// True where a component of the entity is written.
    fn writes_any(&self, world: &WorldSnapshot, entity: Entity, types: &Vec<TypeId>) -> (b: bool)
        ensures
            b == (written_components(*self, *world, entity, types@.to_set()) != Set::<
                TypeId,
            >::empty()),
    {
        let mut i: usize = 0;
        while i < types.len()
            invariant
                i <= types@.len(),
                forall|j: int|
                    0 <= j < i ==> !writes_component(*self, *world, entity, #[trigger] types@[j]),
            decreases types@.len() - i,
        {
            if self.components.serializers.contains(&types[i]) {
                match world.get_component(entity, types[i]) {
                    Some(Ok(Some(_))) => {
                        proof {
                            assert(types@.to_set().contains(types@[i as int]));
                            assert(written_components(
                                *self,
                                *world,
                                entity,
                                types@.to_set(),
                            ).contains(types@[i as int]));
                        }
                        return true;
                    },
                    _ => {},
                }
            }
            i = i + 1;
        }
        proof {
            let written = written_components(*self, *world, entity, types@.to_set());
            assert forall|t: TypeId| !written.contains(t) by {
                if types@.to_set().contains(t) {
                    let j = choose|j: int| 0 <= j < types@.len() && types@[j] == t;
                    assert(!writes_component(*self, *world, entity, types@[j]));
                }
            }
            assert(written =~= Set::empty());
        }
        false
    }

    /// True where every version that a commit of these changes counts up can be
    /// counted up.
    pub fn versions_can_advance(
        &self,
        world: &WorldSnapshot,
        order: &CommitOrder,
        dirty: &DirtyState,
    ) -> (b: bool)
        requires
            order.enumerates(dirty@),
        ensures
            b == versions_fit(*self, *world, dirty@),
    {
        let ghost entities = order.entities@.map_values(|e: (Entity, Vec<TypeId>)| e.0);
        let ghost committed = committed_components(*self, *world, dirty@.components);
        let mut i: usize = 0;
        while i < order.entities.len()
            invariant
                i <= order.entities@.len(),
                order.enumerates(dirty@),
                entities == order.entities@.map_values(|e: (Entity, Vec<TypeId>)| e.0),
                committed == committed_components(*self, *world, dirty@.components),
                forall|j: int|
                    0 <= j < i && committed.dom().contains(entities[j]) ==> entity_version_fits(
                        *self,
                        #[trigger] entities[j],
                    ),
            decreases order.entities@.len() - i,
        {
            let entity: Entity = order.entities[i].0;
            proof {
                assert(entities[i as int] == entity);
                assert(entities.to_set().contains(entity));
            }
            if self.writes_any(world, entity, &order.entities[i].1) {
                match self.cache.entity_key(entity) {
                    Some(key) => match self.cache.version_manager.entity_version(key.as_str()) {
                        Some(version) => if version == u64::MAX {
                            assert(committed.dom().contains(entity));
                            return false;
                        },
                        None => {},
                    },
                    None => {},
                }
            }
            i = i + 1;
        }
        let mut n: usize = 0;
        while n < order.resources.len()
            invariant
                n <= order.resources@.len(),
                order.enumerates(dirty@),
                forall|j: int|
                    0 <= j < n && committed_resources(*self, *world, dirty@).contains(
                        order.resources@[j],
                    ) ==> self.cache.version_manager@.resource(#[trigger] order.resources@[j])
                        != Some(u64::MAX),
            decreases order.resources@.len() - n,
        {
            let type_id: TypeId = order.resources[n];
            assert(order.resources@.to_set().contains(type_id));
            let written: bool = !dirty.despawned_resources.contains(&type_id)
                && self.resources.serializers.contains(&type_id) && match world.resources.get(
                &type_id,
            ) {
                Some(Ok(Some(_))) => true,
                _ => false,
            };
            assert(written == committed_resources(*self, *world, dirty@).contains(type_id));
            if written {
                match self.resource_version(type_id) {
                    Some(version) => if version == u64::MAX {
                        return false;
                    },
                    None => {},
                }
            }
            n = n + 1;
        }
        assert forall|e: Entity| #[trigger] committed.dom().contains(e) implies entity_version_fits(
            *self,
            e,
        ) by {
            assert(entities.to_set().contains(e));
            let j = choose|j: int| 0 <= j < entities.len() && entities[j] == e;
            assert(entity_version_fits(*self, entities[j]));
        }
        assert forall|t: TypeId| #[trigger]
            committed_resources(*self, *world, dirty@).contains(t) implies (
        self.cache.version_manager@.resource(t) != Some(u64::MAX)) by {
            assert(order.resources@.to_set().contains(t));
            let j = choose|j: int| 0 <= j < order.resources@.len() && order.resources@[j] == t;
            assert(self.cache.version_manager@.resource(order.resources@[j]) != Some(u64::MAX));
        }
        true
    }

    /// Prepares the commit of `dirty`: assigns keys to new entities and goes
    /// once through all that has changed, in the order of the hash tables.
    pub fn prepare_commit(
        &self,
        world: &WorldSnapshot,
        dirty: &DirtyState,
        key_field: &str,
        store: &str,
    ) -> (r: Result<CommitData, PersistenceError>)
        requires
            self.cache.edge_snapshot.wf(),
            versions_fit(*self, *world, dirty@),
        ensures
            exists|order: CommitOrder, keys: Map<Entity, String>|
                {
                    &&& #[trigger] order.enumerates(dirty@)
                    &&& #[trigger] preassigns(*self, *world, dirty@, keys)
                    &&& match r {
                        Ok(data) => {
                            &&& data.new_edge_snapshot.wf()
                            &&& data.preassigned_keys@ == keys
                            &&& prepared_commit(
                                *self,
                                *world,
                                dirty@,
                                order,
                                keys,
                                key_field@,
                                store@,
                            ) == Ok::<_, ErrorModel>(data@)
                        },
                        Err(e) => prepared_commit(
                            *self,
                            *world,
                            dirty@,
                            order,
                            keys,
                            key_field@,
                            store@,
                        ) == Err::<CommitModel, _>(e@),
                    }
                },
    {
        let order: CommitOrder = dirty.walk();
        let keys: HashMap<Entity, String> = self.preassign_keys(world, dirty);
        let ghost assigned = keys@;
        self.prepare_commit_with_keys(world, dirty, &order, keys, key_field, store)
    }
}

/// Where nothing has changed a commit has nothing to write.
pub proof fn law_clean_state_writes_nothing(
    session: PersistenceSession,
    world: WorldSnapshot,
    order: CommitOrder,
    keys: Map<Entity, String>,
    key_field: Seq<char>,
    store: Seq<char>,
)
    requires
        order.enumerates(DirtyModel::clean()),
        store.len() > 0,
    ensures
        match prepared_commit(
            session,
            world,
            DirtyModel::clean(),
            order,
            keys,
            key_field,
            store,
        ) {
            Ok(data) => {
                &&& data.operations == Seq::<OperationModel>::empty()
                &&& data.new_edge_snapshot == session.cache.edge_snapshot@
            },
            Err(_) => false,
        },
{
    let entities = order.entities@.map_values(|e: (Entity, Vec<TypeId>)| e.0);
    assert(entities.len() == 0) by {
        if entities.len() > 0 {
            assert(entities.to_set().contains(entities[0]));
        }
    }
    assert(order.despawned_entities@.len() == 0) by {
        if order.despawned_entities@.len() > 0 {
            assert(order.despawned_entities@.to_set().contains(order.despawned_entities@[0]));
        }
    }
    assert(order.resources@.len() == 0) by {
        if order.resources@.len() > 0 {
            assert(order.resources@.to_set().contains(order.resources@[0]));
        }
    }
    assert(order.despawned_resources@.len() == 0) by {
        if order.despawned_resources@.len() > 0 {
            assert(order.despawned_resources@.to_set().contains(order.despawned_resources@[0]));
        }
    }
    assert(entity_order(order.entities@).len() == 0);
    let data = prepared_commit(
        session,
        world,
        DirtyModel::clean(),
        order,
        keys,
        key_field,
        store,
    )->Ok_0;
    assert(data.operations =~= Seq::empty());
}

/// A document that is created for an entity holds its key under `key_field`:
/// the GUID that the entity carries, or else a fresh UUID. The metadata would
/// take the place of a key stored under their name.
pub proof fn law_created_document_holds_key(
    session: PersistenceSession,
    world: WorldSnapshot,
    dirty: DirtyModel,
    keys: Map<Entity, String>,
    entity: Entity,
    types: Seq<TypeId>,
    key_field: Seq<char>,
    store: Seq<char>,
)
    requires
        preassigns(session, world, dirty, keys),
        dirty.components.dom().contains(entity),
        key_field != connection::BEVY_PERSISTENCE_DATABASE_METADATA_FIELD@,
    ensures
        entity_operation(session, world, keys, entity, types, key_field, store) matches Ok(
            Some(OperationModel::Create { data, .. }),
        ) ==> match crate::value::text_field_of(data, key_field) {
            Some(key) => match world.guid(entity) {
                Some(guid) => key == guid,
                None => is_uuid(key),
            },
            None => false,
        },
{
    match entity_operation(session, world, keys, entity, types, key_field, store) {
        Ok(Some(OperationModel::Create { data, .. })) => {
            assert(keys.dom().contains(entity));
        },
        _ => {},
    }
}

/// The store that an operation goes to.
pub open spec fn operation_store(op: OperationModel) -> Seq<char> {
    match op {
        OperationModel::Create { store, .. } => store,
        OperationModel::Update { store, .. } => store,
        OperationModel::Delete { store, .. } => store,
        OperationModel::UpsertEdges { store, .. } => store,
        OperationModel::DeleteEdges { store, .. } => store,
    }
}

/// An operation goes to that store, and the document it writes, where it is an
/// object, carries the right version: 1 for a new document, the one after the
/// expected version for an update.
pub open spec fn well_versioned(op: OperationModel, store: Seq<char>) -> bool {
    &&& operation_store(op) == store
    &&& match op {
        OperationModel::Create { data, .. } => data is Object ==> connection::version_of(data)
            == Some(1u64),
        OperationModel::Update { expected, patch, .. } => patch is Object
            ==> connection::version_of(patch) == Some((expected + 1) as u64),
        _ => true,
    }
}

/// All operations are well versioned.
pub open spec fn all_well_versioned(ops: Seq<OperationModel>, store: Seq<char>) -> bool {
    forall|i: int| 0 <= i < ops.len() ==> well_versioned(#[trigger] ops[i], store)
}

proof fn lemma_entity_deletions_well_versioned(
    session: PersistenceSession,
    order: Seq<Entity>,
    store: Seq<char>,
)
    ensures
        entity_deletions(session, order, store) matches Ok(ops) ==> all_well_versioned(ops, store),
    decreases order.len(),
{
    if order.len() > 0 {
        lemma_entity_deletions_well_versioned(session, order.drop_last(), store);
    }
}

proof fn lemma_resource_deletions_well_versioned(
    session: PersistenceSession,
    order: Seq<TypeId>,
    store: Seq<char>,
)
    ensures
        all_well_versioned(resource_deletions(session, order, store), store),
    decreases order.len(),
{
    if order.len() > 0 {
        lemma_resource_deletions_well_versioned(session, order.drop_last(), store);
    }
}

proof fn lemma_entity_operations_well_versioned(
    session: PersistenceSession,
    world: WorldSnapshot,
    keys: Map<Entity, String>,
    order: Seq<(Entity, Seq<TypeId>)>,
    key_field: Seq<char>,
    store: Seq<char>,
)
    ensures
        entity_operations(session, world, keys, order, key_field, store) matches Ok(ops)
            ==> all_well_versioned(ops, store),
    decreases order.len(),
{
    if order.len() > 0 {
        let head = order.drop_last();
        let (entity, types) = order.last();
        lemma_entity_operations_well_versioned(session, world, keys, head, key_field, store);
        match entity_operation(session, world, keys, entity, types, key_field, store) {
            Ok(Some(op)) => {
                let fields = entity_fields(session, world, entity, types)->Ok_0;
                match op {
                    OperationModel::Update { expected, .. } => {
                        connection::law_metadata_reads_back(
                            fields,
                            DocumentKind::Entity,
                            (expected + 1) as u64,
                        );
                    },
                    _ => {
                        connection::law_metadata_reads_back(
                            fields.insert(key_field, Json::String(keys[entity]@)),
                            DocumentKind::Entity,
                            1,
                        );
                    },
                }
                assert(well_versioned(op, store));
            },
            _ => {},
        }
    }
}

proof fn lemma_resource_operations_well_versioned(
    session: PersistenceSession,
    world: WorldSnapshot,
    dirty: DirtyModel,
    order: Seq<TypeId>,
    key_field: Seq<char>,
    store: Seq<char>,
)
    ensures
        resource_operations(session, world, dirty, order, key_field, store) matches Ok(ops)
            ==> all_well_versioned(ops, store),
    decreases order.len(),
{
    if order.len() > 0 {
        lemma_resource_operations_well_versioned(
            session,
            world,
            dirty,
            order.drop_last(),
            key_field,
            store,
        );
        match world.resource(order.last()) {
            Outcome::Field { name, value } => {
                let op = resource_operation(session, order.last(), name, value, key_field, store);
                match (value, op) {
                    (Json::Object(fields), OperationModel::Update { expected, .. }) => {
                        connection::law_metadata_reads_back(
                            fields,
                            DocumentKind::Resource,
                            (expected + 1) as u64,
                        );
                    },
                    (Json::Object(fields), _) => {
                        connection::law_metadata_reads_back(
                            fields.insert(key_field, Json::String(name)),
                            DocumentKind::Resource,
                            1,
                        );
                    },
                    _ => {},
                }
                assert(well_versioned(op, store));
            },
            _ => {},
        }
    }
}

/// All operations of a commit go to one store, and every document that it
/// writes carries its version: 1 where it is new, one more than the version
/// expected in the database where it is updated.
pub proof fn law_commit_is_well_versioned(
    session: PersistenceSession,
    world: WorldSnapshot,
    dirty: DirtyModel,
    order: CommitOrder,
    keys: Map<Entity, String>,
    key_field: Seq<char>,
    store: Seq<char>,
)
    ensures
        prepared_commit(session, world, dirty, order, keys, key_field, store) matches Ok(data)
            ==> all_well_versioned(data.operations, store),
{
    let entities = entity_order(order.entities@);
    lemma_entity_deletions_well_versioned(session, order.despawned_entities@, store);
    lemma_resource_deletions_well_versioned(session, order.despawned_resources@, store);
    lemma_entity_operations_well_versioned(session, world, keys, entities, key_field, store);
    lemma_resource_operations_well_versioned(
        session,
        world,
        dirty,
        order.resources@,
        key_field,
        store,
    );
}

proof fn lemma_one_operation_per_entity(
    session: PersistenceSession,
    world: WorldSnapshot,
    keys: Map<Entity, String>,
    order: Seq<(Entity, Seq<TypeId>)>,
    key_field: Seq<char>,
    store: Seq<char>,
)
    requires
        order.map_values(|e: (Entity, Seq<TypeId>)| e.0).no_duplicates(),
    ensures
        components_written_in(session, world, order).dom().finite(),
        forall|e: Entity| #[trigger]
            components_written_in(session, world, order).dom().contains(e) ==> order.map_values(
                |e: (Entity, Seq<TypeId>)| e.0,
            ).contains(e),
        entity_operations(session, world, keys, order, key_field, store) matches Ok(ops)
            ==> ops.len() == components_written_in(session, world, order).dom().len(),
    decreases order.len(),
{
    if order.len() > 0 {
        let head = order.drop_last();
        let (entity, types) = order.last();
        let entities = order.map_values(|e: (Entity, Seq<TypeId>)| e.0);
        let head_entities = head.map_values(|e: (Entity, Seq<TypeId>)| e.0);
        assert(head_entities.push(entity) =~= entities);
        assert(head_entities.no_duplicates()) by {
            assert forall|i: int, j: int|
                0 <= i < head_entities.len() && 0 <= j < head_entities.len() && i
                    != j implies head_entities[i] != head_entities[j] by {
                assert(entities[i] != entities[j]);
            }
        }
        lemma_one_operation_per_entity(session, world, keys, head, key_field, store);
        let rest = components_written_in(session, world, head);
        let all = components_written_in(session, world, order);
        assert(!rest.dom().contains(entity)) by {
            if rest.dom().contains(entity) {
                let j = choose|j: int|
                    0 <= j < head_entities.len() && head_entities[j] == entity;
                assert(entities[j] == entities[entities.len() - 1]);
            }
        }
        assert forall|e: Entity| #[trigger] all.dom().contains(e) implies entities.contains(e) by {
            if e == entity {
                assert(entities[entities.len() - 1] == e);
            } else {
                assert(rest.dom().contains(e));
                let j = choose|j: int| 0 <= j < head_entities.len() && head_entities[j] == e;
                assert(entities[j] == e);
            }
        }
        if entity_operations(session, world, keys, order, key_field, store) is Ok {
            lemma_fields_iff_written(session, world, entity, types);
        }
        if written_components(session, world, entity, types.to_set()) != Set::<TypeId>::empty() {
            assert(all.dom() =~= rest.dom().insert(entity));
        }
    }
}

/// One commit holds an operation for each dirty entity that has something to
/// write: as many as the entities that it counts as committed.
pub proof fn law_commit_covers_every_entity(
    session: PersistenceSession,
    world: WorldSnapshot,
    dirty: DirtyModel,
    order: CommitOrder,
    keys: Map<Entity, String>,
    key_field: Seq<char>,
    store: Seq<char>,
)
    requires
        order.enumerates(dirty),
    ensures
        entity_operations(
            session,
            world,
            keys,
            entity_order(order.entities@),
            key_field,
            store,
        ) matches Ok(ops) ==> ops.len() == committed_components(
            session,
            world,
            dirty.components,
        ).dom().len(),
{
    let entities = order.entities@.map_values(|e: (Entity, Vec<TypeId>)| e.0);
    let all = entity_order(order.entities@);
    assert(all.map_values(|e: (Entity, Seq<TypeId>)| e.0) =~= entities);
    assert forall|i: int| 0 <= i < all.len() implies (#[trigger] all[i]).1.to_set()
        == dirty.components[all[i].0] by {
        assert(order.entities@[i].1@.to_set() == dirty.components[order.entities@[i].0]);
    }
    lemma_written_in_order(session, world, all, dirty.components);
    lemma_one_operation_per_entity(session, world, keys, all, key_field, store);
}

/// A field that one of the types gives, and no other, is a field of the document.
proof fn lemma_field_is_collected(
    session: PersistenceSession,
    world: WorldSnapshot,
    entity: Entity,
    types: Seq<TypeId>,
    i: int,
    name: Seq<char>,
    value: Json,
)
    requires
        0 <= i < types.len(),
        session.components.serializers@.contains(types[i]),
        world.component(entity, types[i]) == (Outcome::Field { name, value }),
        forall|j: int|
            0 <= j < types.len() && j != i ==> match world.component(entity, #[trigger] types[j]) {
                Outcome::Field { name: other, .. } => other != name,
                _ => true,
            },
        entity_fields(session, world, entity, types) is Ok,
    ensures
        entity_fields(session, world, entity, types)->Ok_0.dom().contains(name),
        entity_fields(session, world, entity, types)->Ok_0[name] == value,
    decreases types.len(),
{
    if i < types.len() - 1 {
        let head = types.drop_last();
        assert(types[types.len() - 1] == types.last());
        assert forall|j: int| 0 <= j < head.len() && j != i implies match world.component(
            entity,
            #[trigger] head[j],
        ) {
            Outcome::Field { name: other, .. } => other != name,
            _ => true,
        } by {
            assert(head[j] == types[j]);
        }
        lemma_field_is_collected(session, world, entity, head, i, name, value);
    }
}

/// The document that an operation writes.
pub open spec fn written_document(op: OperationModel) -> Option<Json> {
    match op {
        OperationModel::Create { data, .. } => Some(data),
        OperationModel::Update { patch, .. } => Some(patch),
        _ => None,
    }
}

/// What a commit writes of a component is what a load reads of it: the document
/// has the component's value under its name. A name that another component of
/// the entity, the key or the metadata use as well is left out.
pub proof fn law_written_component_is_read_back(
    session: PersistenceSession,
    world: WorldSnapshot,
    keys: Map<Entity, String>,
    entity: Entity,
    types: Seq<TypeId>,
    key_field: Seq<char>,
    store: Seq<char>,
    i: int,
    name: Seq<char>,
    value: Json,
)
    requires
        0 <= i < types.len(),
        session.components.serializers@.contains(types[i]),
        world.component(entity, types[i]) == (Outcome::Field { name, value }),
        forall|j: int|
            0 <= j < types.len() && j != i ==> match world.component(entity, #[trigger] types[j]) {
                Outcome::Field { name: other, .. } => other != name,
                _ => true,
            },
        name != key_field,
        name != connection::BEVY_PERSISTENCE_DATABASE_METADATA_FIELD@,
    ensures
        entity_operation(session, world, keys, entity, types, key_field, store) matches Ok(r)
            ==> match r {
            Some(op) => match written_document(op) {
                Some(doc) => crate::value::field_of(doc, name) == Some(value),
                None => false,
            },
            None => false,
        },
{
    if entity_fields(session, world, entity, types) is Ok {
        lemma_field_is_collected(session, world, entity, types, i, name, value);
        let fields = entity_fields(session, world, entity, types)->Ok_0;
        assert(fields != Map::<Seq<char>, Json>::empty());
    }
}

/// The document of a resource has every field that the resource was serialised
/// to. A field named like the key or the metadata is left out.
pub proof fn law_written_resource_is_read_back(
    session: PersistenceSession,
    type_id: TypeId,
    name: Seq<char>,
    value: Json,
    key_field: Seq<char>,
    store: Seq<char>,
    field: Seq<char>,
)
    requires
        field != key_field,
        field != connection::BEVY_PERSISTENCE_DATABASE_METADATA_FIELD@,
    ensures
        match written_document(
            resource_operation(session, type_id, name, value, key_field, store),
        ) {
            Some(doc) => crate::value::field_of(doc, field) == crate::value::field_of(value, field),
            None => false,
        },
{
}

/// Each dirty entity that has something to write has its operation in the commit.
pub proof fn law_committed_entity_has_operation(
    session: PersistenceSession,
    world: WorldSnapshot,
    keys: Map<Entity, String>,
    order: Seq<(Entity, Seq<TypeId>)>,
    key_field: Seq<char>,
    store: Seq<char>,
    i: int,
)
    requires
        0 <= i < order.len(),
        written_components(session, world, order[i].0, order[i].1.to_set()) != Set::<
            TypeId,
        >::empty(),
    ensures
        entity_operations(session, world, keys, order, key_field, store) matches Ok(ops)
            ==> match entity_operation(
            session,
            world,
            keys,
            order[i].0,
            order[i].1,
            key_field,
            store,
        ) {
            Ok(Some(op)) => ops.contains(op),
            _ => false,
        },
    decreases order.len(),
{
    match entity_operations(session, world, keys, order, key_field, store) {
        Ok(ops) => {
            let head = order.drop_last();
            let rest = entity_operations(session, world, keys, head, key_field, store)->Ok_0;
            if i < head.len() {
                law_committed_entity_has_operation(
                    session,
                    world,
                    keys,
                    head,
                    key_field,
                    store,
                    i,
                );
                assert(head[i] == order[i]);
                let op = entity_operation(
                    session,
                    world,
                    keys,
                    order[i].0,
                    order[i].1,
                    key_field,
                    store,
                )->Ok_0->0;
                let j = choose|j: int| 0 <= j < rest.len() && rest[j] == op;
                assert(ops[j] == op);
            } else {
                lemma_fields_iff_written(session, world, order[i].0, order[i].1);
                let op = entity_operation(
                    session,
                    world,
                    keys,
                    order[i].0,
                    order[i].1,
                    key_field,
                    store,
                )->Ok_0->0;
                assert(ops[rest.len() as int] == op);
            }
        },
        Err(_) => {},
    }
}

} // verus!
