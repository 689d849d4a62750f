//! What a prepared commit holds, read off the session, the world and the changes.
use std::collections::HashMap;

use vstd::prelude::*;
use vstd::string::*;

use crate::collections;
use crate::compact::CompactError;
use crate::db::connection;
use crate::db::connection::{
    DocumentKind, EdgeModel, ErrorModel, OperationModel, PersistenceError, TransactionOperation,
};
use crate::session::cache;
use crate::session::edges;
use crate::session::prepare_commit;
use crate::session::prepare_commit::{CommitData, CommitModel, CommitOrder, Outcome, WorldSnapshot};
use crate::session::state::PersistenceSession;
use crate::session::tracking::{DirtyModel, DirtyState};
use crate::session::{Entity, TypeId};
use crate::value::{Json, Number, Value};

verus! {

/// The document of a despawned entity is deleted, under its key, and only where
/// the store still has the version that the session knows.
pub open spec fn deletes_entity(
    session: PersistenceSession,
    store: Seq<char>,
    entity: Entity,
    op: OperationModel,
) -> bool {
    &&& session.cache.entity_keys@.dom().contains(entity)
    &&& session.cache.version_manager.entities@.dom().contains(
        session.cache.entity_keys@[entity]@,
    )
    &&& op == OperationModel::Delete {
        store,
        kind: DocumentKind::Entity,
        key: session.cache.entity_keys@[entity]@,
        expected: session.cache.version_manager.entities@[session.cache.entity_keys@[entity]@],
    }
}

/// The document of a removed resource is deleted, under its name, and only where
/// the store still has the version that the session knows.
pub open spec fn deletes_resource(
    session: PersistenceSession,
    store: Seq<char>,
    type_id: TypeId,
    op: OperationModel,
) -> bool {
    &&& session.resources.names.type_id_to_name@.dom().contains(type_id)
    &&& session.cache.version_manager.resources@.dom().contains(type_id)
    &&& op == OperationModel::Delete {
        store,
        kind: DocumentKind::Resource,
        key: session.resources.names.type_id_to_name@[type_id]@,
        expected: session.cache.version_manager.resources@[type_id],
    }
}

/// The world has the component, and its serializer gave that field.
pub open spec fn component_gives(
    world: WorldSnapshot,
    entity: Entity,
    component: TypeId,
    name: Seq<char>,
    value: Json,
) -> bool {
    &&& world.components@.dom().contains(entity)
    &&& world.components@[entity]@.dom().contains(component)
    &&& world.components@[entity]@[component] matches Ok(Some((n, v))) && n@ == name && v@ == value
}

/// The serializer of a component failed with that error.
pub open spec fn component_fails(
    world: WorldSnapshot,
    entity: Entity,
    component: TypeId,
    error: ErrorModel,
) -> bool {
    &&& world.components@.dom().contains(entity)
    &&& world.components@[entity]@.dom().contains(component)
    &&& world.components@[entity]@[component] matches Err(e) && e@ == error
}

/// A dirty component of the entity is registered and gives something to write.
pub open spec fn writes(
    session: PersistenceSession,
    world: WorldSnapshot,
    entity: Entity,
    component: TypeId,
) -> bool {
    &&& session.components.serializers@.contains(component)
    &&& exists|name: Seq<char>, value: Json| #[trigger]
        component_gives(world, entity, component, name, value)
}

/// One of the component types is registered and gives that field.
pub open spec fn field_given(
    session: PersistenceSession,
    world: WorldSnapshot,
    entity: Entity,
    types: Set<TypeId>,
    name: Seq<char>,
    value: Json,
) -> bool {
    exists|t: TypeId|
        types.contains(t) && session.components.serializers@.contains(t)
            && #[trigger] component_gives(world, entity, t, name, value)
}

/// The metadata object of a stored document.
pub open spec fn stamp(word: Seq<char>, version: u64) -> Json {
    Json::Object(
        Map::<Seq<char>, Json>::empty().insert(
            connection::BEVY_PERSISTENCE_DATABASE_VERSION_FIELD@,
            Json::Number(Number::PosInt(version)),
        ).insert(connection::BEVY_PERSISTENCE_DATABASE_BEVY_TYPE_FIELD@, Json::String(word)),
    )
}

/// The document of an entity: the metadata, the key where it is new, and apart
/// from these exactly the fields that the written components give.
pub open spec fn entity_document(
    session: PersistenceSession,
    world: WorldSnapshot,
    entity: Entity,
    types: Set<TypeId>,
    version: u64,
    new_key: Option<(Seq<char>, Seq<char>)>,
    fields: Map<Seq<char>, Json>,
) -> bool {
    let metadata = connection::BEVY_PERSISTENCE_DATABASE_METADATA_FIELD@;
    &&& fields.dom().contains(metadata)
    &&& fields[metadata] == stamp("entity"@, version)
    &&& match new_key {
        Some((key_field, key)) => fields.dom().contains(key_field) && (key_field != metadata
            ==> fields[key_field] == Json::String(key)),
        None => true,
    }
    &&& forall|name: Seq<char>|
        #![trigger fields.dom().contains(name)]
        name != metadata && (new_key matches Some((key_field, _)) ==> name != key_field) ==> (
        fields.dom().contains(name) <==> exists|value: Json| #[trigger]
            field_given(session, world, entity, types, name, value))
    &&& forall|name: Seq<char>|
        #![trigger fields[name]]
        name != metadata && (new_key matches Some((key_field, _)) ==> name != key_field)
            && fields.dom().contains(name) ==> field_given(
            session,
            world,
            entity,
            types,
            name,
            fields[name],
        )
}

/// The operation writes the entity: it updates the stored document to the next
/// version where the entity has a key, and creates the document with version 1
/// under the preassigned key where it has none.
pub open spec fn writes_entity(
    session: PersistenceSession,
    world: WorldSnapshot,
    keys: Map<Entity, String>,
    types: Set<TypeId>,
    key_field: Seq<char>,
    store: Seq<char>,
    entity: Entity,
    op: OperationModel,
) -> bool {
    let versions = session.cache.version_manager.entities@;
    &&& exists|t: TypeId| types.contains(t) && #[trigger] writes(session, world, entity, t)
    &&& if session.cache.entity_keys@.dom().contains(entity) {
        let key = session.cache.entity_keys@[entity]@;
        &&& versions.dom().contains(key)
        &&& op matches OperationModel::Update {
            store: to,
            kind,
            key: k,
            expected,
            patch: Json::Object(fields),
        } && to == store && kind == DocumentKind::Entity && k == key && expected == versions[key]
            && entity_document(
            session,
            world,
            entity,
            types,
            (versions[key] + 1) as u64,
            None,
            fields,
        )
    } else {
        &&& op matches OperationModel::Create { store: to, kind, data: Json::Object(fields) }
            && to == store && kind == DocumentKind::Entity && entity_document(
            session,
            world,
            entity,
            types,
            1,
            Some((key_field, keys[entity]@)),
            fields,
        )
    }
}

/// The world has the resource, and its serializer gave that document.
pub open spec fn resource_gives(
    world: WorldSnapshot,
    type_id: TypeId,
    name: Seq<char>,
    value: Json,
) -> bool {
    &&& world.resources@.dom().contains(type_id)
    &&& world.resources@[type_id] matches Ok(Some((n, v))) && n@ == name && v@ == value
}

/// The serializer of a resource failed with that error.
pub open spec fn resource_fails(
    world: WorldSnapshot,
    type_id: TypeId,
    error: ErrorModel,
) -> bool {
    &&& world.resources@.dom().contains(type_id)
    &&& world.resources@[type_id] matches Err(e) && e@ == error
}

/// A changed resource is to be written: it is registered and not removed.
pub open spec fn resource_counts(
    session: PersistenceSession,
    dirty: DirtyModel,
    type_id: TypeId,
) -> bool {
    &&& dirty.resources.contains(type_id)
    &&& !dirty.despawned_resources.contains(type_id)
    &&& session.resources.serializers@.contains(type_id)
}

/// A changed resource is written.
pub open spec fn resource_written(
    session: PersistenceSession,
    world: WorldSnapshot,
    dirty: DirtyModel,
    type_id: TypeId,
) -> bool {
    &&& resource_counts(session, dirty, type_id)
    &&& exists|name: Seq<char>, value: Json| #[trigger]
        resource_gives(world, type_id, name, value)
}

/// What is stored of a resource: an object gets the metadata, and its key where
/// it is new; any other value is stored as it is.
pub open spec fn resource_document(
    value: Json,
    version: u64,
    new_key: Option<(Seq<char>, Seq<char>)>,
) -> Json {
    match value {
        Json::Object(fields) => Json::Object(
            (match new_key {
                Some((key_field, key)) => fields.insert(key_field, Json::String(key)),
                None => fields,
            }).insert(
                connection::BEVY_PERSISTENCE_DATABASE_METADATA_FIELD@,
                stamp("resource"@, version),
            ),
        ),
        other => other,
    }
}

/// The operation writes the resource: it updates the stored document to the next
/// version where the session knows one, and creates it with version 1 otherwise.
pub open spec fn writes_resource(
    session: PersistenceSession,
    world: WorldSnapshot,
    key_field: Seq<char>,
    store: Seq<char>,
    type_id: TypeId,
    op: OperationModel,
) -> bool {
    let versions = session.cache.version_manager.resources@;
    exists|name: Seq<char>, value: Json| #[trigger]
        resource_gives(world, type_id, name, value) && op == if versions.dom().contains(type_id) {
            OperationModel::Update {
                store,
                kind: DocumentKind::Resource,
                key: name,
                expected: versions[type_id],
                patch: resource_document(value, (versions[type_id] + 1) as u64, None),
            }
        } else {
            OperationModel::Create {
                store,
                kind: DocumentKind::Resource,
                data: resource_document(value, 1, Some((key_field, name))),
            }
        }
}

/// An operation on a document of that kind that is not a deletion.
pub open spec fn is_write(op: OperationModel, of: DocumentKind) -> bool {
    match op {
        OperationModel::Create { kind, .. } => kind == of,
        OperationModel::Update { kind, .. } => kind == of,
        _ => false,
    }
}

/// A deletion of a document of that kind.
pub open spec fn is_deletion(op: OperationModel, of: DocumentKind) -> bool {
    op matches OperationModel::Delete { kind, .. } && kind == of
}

/// An operation on edges.
pub open spec fn is_edge_operation(op: OperationModel) -> bool {
    op is UpsertEdges || op is DeleteEdges
}

/// The place of an operation in a commit: deletions come first, then documents,
/// then edges; of the documents those of entities before those of resources.
pub open spec fn stage(op: OperationModel) -> int {
    match op {
        OperationModel::Delete { kind: DocumentKind::Entity, .. } => 0,
        OperationModel::Delete { kind: DocumentKind::Resource, .. } => 1,
        OperationModel::Create { kind: DocumentKind::Entity, .. } => 2,
        OperationModel::Update { kind: DocumentKind::Entity, .. } => 2,
        OperationModel::Create { kind: DocumentKind::Resource, .. } => 3,
        OperationModel::Update { kind: DocumentKind::Resource, .. } => 3,
        OperationModel::UpsertEdges { .. } => 4,
        OperationModel::DeleteEdges { .. } => 5,
    }
}

/// A commit deletes exactly the documents of despawned entities and removed
/// resources that are stored.
pub open spec fn deletes_what_is_gone(
    session: PersistenceSession,
    dirty: DirtyModel,
    store: Seq<char>,
    data: CommitModel,
) -> bool {
    &&& forall|op: OperationModel| #[trigger]
        data.operations.contains(op) && is_deletion(op, DocumentKind::Entity) ==> exists|e: Entity|
            dirty.despawned_entities.contains(e) && #[trigger] deletes_entity(
                session,
                store,
                e,
                op,
            )
    &&& forall|e: Entity, op: OperationModel|
        dirty.despawned_entities.contains(e) && #[trigger] deletes_entity(session, store, e, op)
            ==> data.operations.contains(op)
    &&& forall|e: Entity|
        dirty.despawned_entities.contains(e)
            && #[trigger] session.cache.entity_keys@.dom().contains(e) ==> session.cache.version_manager.entities@.dom().contains(
            session.cache.entity_keys@[e]@,
        )
    &&& forall|op: OperationModel| #[trigger]
        data.operations.contains(op) && is_deletion(op, DocumentKind::Resource)
            ==> exists|t: TypeId|
            dirty.despawned_resources.contains(t) && #[trigger] deletes_resource(
                session,
                store,
                t,
                op,
            )
    &&& forall|t: TypeId, op: OperationModel|
        dirty.despawned_resources.contains(t) && #[trigger] deletes_resource(session, store, t, op)
            ==> data.operations.contains(op)
    &&& forall|e: Entity| #[trigger]
        data.committed_despawned_entities.contains(e) <==> dirty.despawned_entities.contains(e)
            && session.cache.entity_keys@.dom().contains(e)
    &&& forall|t: TypeId| #[trigger]
        data.committed_despawned_resources.contains(t) <==> dirty.despawned_resources.contains(t)
            && session.resources.names.type_id_to_name@.dom().contains(t)
            && session.cache.version_manager.resources@.dom().contains(t)
}

proof fn lemma_contains_push<A>(s: Seq<A>, x: A, y: A)
    ensures
        s.push(x).contains(y) == (s.contains(y) || x == y),
{
    if s.contains(y) {
        let i = choose|i: int| 0 <= i < s.len() && s[i] == y;
        assert(s.push(x)[i] == y);
    }
    if x == y {
        assert(s.push(x)[s.len() as int] == y);
    }
    if s.push(x).contains(y) && x != y {
        let i = choose|i: int| 0 <= i < s.push(x).len() && s.push(x)[i] == y;
        assert(s[i] == y);
    }
}

proof fn lemma_contains_concat<A>(a: Seq<A>, b: Seq<A>, y: A)
    ensures
        (a + b).contains(y) == (a.contains(y) || b.contains(y)),
{
    if a.contains(y) {
        let i = choose|i: int| 0 <= i < a.len() && a[i] == y;
        assert((a + b)[i] == y);
    }
    if b.contains(y) {
        let i = choose|i: int| 0 <= i < b.len() && b[i] == y;
        assert((a + b)[a.len() + i] == y);
    }
    if (a + b).contains(y) {
        let i = choose|i: int| 0 <= i < (a + b).len() && (a + b)[i] == y;
        if i < a.len() {
            assert(a[i] == y);
        } else {
            assert(b[i - a.len()] == y);
        }
    }
}

proof fn lemma_head<A>(s: Seq<A>, x: A)
    requires
        s.len() > 0,
    ensures
        s.contains(x) == (s.drop_last().contains(x) || s.last() == x),
{
    assert(s =~= s.drop_last().push(s.last()));
    lemma_contains_push(s.drop_last(), s.last(), x);
}

/// The number of elements of a list without repetitions for which `p` holds.
proof fn lemma_filter_count<A>(s: Seq<A>, p: spec_fn(A) -> bool)
    requires
        s.no_duplicates(),
        s.len() > 0,
    ensures
        s.drop_last().no_duplicates(),
        s.to_set().filter(p).finite(),
        s.drop_last().to_set().filter(p).finite(),
        s.to_set().filter(p).len() == s.drop_last().to_set().filter(p).len() + if p(s.last()) {
            1int
        } else {
            0int
        },
{
    let head = s.drop_last();
    assert(s =~= head.push(s.last()));
    collections::lemma_push_to_set(head, s.last());
    vstd::seq_lib::seq_to_set_is_finite(head);
    assert(!head.contains(s.last()));
    assert(!head.to_set().contains(s.last()));
    vstd::set_lib::lemma_set_subset_finite(head.to_set(), head.to_set().filter(p));
    if p(s.last()) {
        assert(s.to_set().filter(p) =~= head.to_set().filter(p).insert(s.last()));
    } else {
        assert(s.to_set().filter(p) =~= head.to_set().filter(p));
    }
}

proof fn lemma_entity_deletions(
    session: PersistenceSession,
    order: Seq<Entity>,
    store: Seq<char>,
    op: OperationModel,
)
    ensures
        prepare_commit::entity_deletions(session, order, store) matches Ok(ops) ==> {
            &&& ops.contains(op) <==> exists|e: Entity|
                order.contains(e) && #[trigger] deletes_entity(session, store, e, op)
            &&& forall|i: int|
                0 <= i < ops.len() ==> is_deletion(#[trigger] ops[i], DocumentKind::Entity)
            &&& forall|e: Entity| #[trigger]
                order.contains(e) && session.cache.entity_keys@.dom().contains(e)
                    ==> session.cache.version_manager.entities@.dom().contains(
                    session.cache.entity_keys@[e]@,
                )
        },
    decreases order.len(),
{
    if order.len() > 0 {
        let head = order.drop_last();
        lemma_entity_deletions(session, head, store, op);
        assert forall|e: Entity| order.contains(e) == (head.contains(e) || order.last() == e) by {
            lemma_head(order, e);
        }
        match prepare_commit::entity_deletions(session, order, store) {
            Ok(ops) => {
                let rest = prepare_commit::entity_deletions(session, head, store)->Ok_0;
                if ops != rest {
                    lemma_contains_push(rest, ops.last(), op);
                    assert(ops =~= rest.push(ops.last()));
                    assert(deletes_entity(session, store, order.last(), ops.last()));
                }
            },
            Err(_) => {},
        }
    }
}

proof fn lemma_entity_deletions_count(
    session: PersistenceSession,
    order: Seq<Entity>,
    store: Seq<char>,
    counted: Set<Entity>,
)
    requires
        order.no_duplicates(),
        forall|e: Entity| #[trigger]
            counted.contains(e) <==> order.to_set().contains(e)
                && session.cache.entity_keys@.dom().contains(e),
    ensures
        prepare_commit::entity_deletions(session, order, store) matches Ok(ops) ==> ops.len()
            == counted.len(),
    decreases order.len(),
{
    let p = |e: Entity| session.cache.entity_keys@.dom().contains(e);
    assert(counted =~= order.to_set().filter(p));
    if order.len() == 0 {
        assert(counted =~= Set::empty());
    } else {
        lemma_filter_count(order, p);
        lemma_entity_deletions_count(
            session,
            order.drop_last(),
            store,
            order.drop_last().to_set().filter(p),
        );
    }
}

proof fn lemma_resource_deletions(
    session: PersistenceSession,
    order: Seq<TypeId>,
    store: Seq<char>,
    op: OperationModel,
)
    ensures
        prepare_commit::resource_deletions(session, order, store).contains(op) <==> exists|
            t: TypeId,
        |
            order.contains(t) && #[trigger] deletes_resource(session, store, t, op),
        forall|i: int|
            0 <= i < prepare_commit::resource_deletions(session, order, store).len()
                ==> is_deletion(
                #[trigger] prepare_commit::resource_deletions(session, order, store)[i],
                DocumentKind::Resource,
            ),
    decreases order.len(),
{
    if order.len() > 0 {
        let head = order.drop_last();
        lemma_resource_deletions(session, head, store, op);
        assert forall|t: TypeId| order.contains(t) == (head.contains(t) || order.last() == t) by {
            lemma_head(order, t);
        }
        let ops = prepare_commit::resource_deletions(session, order, store);
        let rest = prepare_commit::resource_deletions(session, head, store);
        if ops != rest {
            lemma_contains_push(rest, ops.last(), op);
            assert(ops =~= rest.push(ops.last()));
            assert(deletes_resource(session, store, order.last(), ops.last()));
        }
    }
}

proof fn lemma_resource_deletions_count(
    session: PersistenceSession,
    order: Seq<TypeId>,
    store: Seq<char>,
    counted: Set<TypeId>,
)
    requires
        order.no_duplicates(),
        forall|t: TypeId| #[trigger]
            counted.contains(t) <==> order.to_set().contains(t)
                && session.resources.names.type_id_to_name@.dom().contains(t)
                && session.cache.version_manager.resources@.dom().contains(t),
    ensures
        prepare_commit::resource_deletions(session, order, store).len() == counted.len(),
    decreases order.len(),
{
    let p = |t: TypeId|
        session.resources.names.type_id_to_name@.dom().contains(t)
            && session.cache.version_manager.resources@.dom().contains(t);
    assert(counted =~= order.to_set().filter(p));
    if order.len() == 0 {
        assert(counted =~= Set::empty());
    } else {
        lemma_filter_count(order, p);
        lemma_resource_deletions_count(
            session,
            order.drop_last(),
            store,
            order.drop_last().to_set().filter(p),
        );
    }
}

/// A commit writes exactly the dirty entities that have something to write, each
/// with the fields of its dirty components.
pub open spec fn writes_changed_entities(
    session: PersistenceSession,
    world: WorldSnapshot,
    dirty: DirtyModel,
    keys: Map<Entity, String>,
    key_field: Seq<char>,
    store: Seq<char>,
    data: CommitModel,
) -> bool {
    &&& forall|op: OperationModel| #[trigger]
        data.operations.contains(op) && is_write(op, DocumentKind::Entity) ==> exists|e: Entity|
            dirty.components.dom().contains(e) && #[trigger] writes_entity(
                session,
                world,
                keys,
                dirty.components[e],
                key_field,
                store,
                e,
                op,
            )
    &&& forall|e: Entity, t: TypeId|
        dirty.components.dom().contains(e) && dirty.components[e].contains(t)
            && #[trigger] writes(session, world, e, t) ==> exists|op: OperationModel|
            data.operations.contains(op) && #[trigger] writes_entity(
                session,
                world,
                keys,
                dirty.components[e],
                key_field,
                store,
                e,
                op,
            )
    &&& forall|e: Entity| #[trigger]
        data.committed_components.dom().contains(e) <==> dirty.components.dom().contains(e)
            && exists|t: TypeId|
            dirty.components[e].contains(t) && #[trigger] writes(session, world, e, t)
    &&& forall|e: Entity, t: TypeId|
        data.committed_components.dom().contains(e)
            && #[trigger] data.committed_components[e].contains(t) ==> dirty.components[e].contains(
            t,
        ) && writes(session, world, e, t)
    &&& forall|e: Entity, t: TypeId|
        dirty.components.dom().contains(e) && dirty.components[e].contains(t)
            && #[trigger] writes(session, world, e, t) ==> data.committed_components[e].contains(t)
    &&& data.new_entities.no_duplicates()
    &&& forall|e: Entity| #[trigger]
        data.new_entities.contains(e) <==> data.committed_components.dom().contains(e)
            && keys.dom().contains(e)
    &&& data.preassigned_keys.dom() == keys.dom()
    &&& forall|e: Entity| #[trigger]
        keys.dom().contains(e) ==> data.preassigned_keys[e] == keys[e]@
}

/// A commit writes exactly the changed resources that are registered, present
/// and not removed.
pub open spec fn writes_changed_resources(
    session: PersistenceSession,
    world: WorldSnapshot,
    dirty: DirtyModel,
    key_field: Seq<char>,
    store: Seq<char>,
    data: CommitModel,
) -> bool {
    &&& forall|op: OperationModel| #[trigger]
        data.operations.contains(op) && is_write(op, DocumentKind::Resource) ==> exists|t: TypeId|
            resource_counts(session, dirty, t) && #[trigger] writes_resource(
                session,
                world,
                key_field,
                store,
                t,
                op,
            )
    &&& forall|t: TypeId, op: OperationModel|
        resource_counts(session, dirty, t) && #[trigger] writes_resource(
            session,
            world,
            key_field,
            store,
            t,
            op,
        ) ==> data.operations.contains(op)
    &&& forall|t: TypeId| #[trigger]
        data.committed_resources.contains(t) <==> resource_written(session, world, dirty, t)
}

/// What the world says of a component is its outcome.
pub proof fn lemma_outcome(world: WorldSnapshot, entity: Entity, component: TypeId)
    ensures
        forall|name: Seq<char>, value: Json| #[trigger]
            component_gives(world, entity, component, name, value) <==> world.component(
                entity,
                component,
            ) == (Outcome::Field { name, value }),
        forall|e: ErrorModel| #[trigger]
            component_fails(world, entity, component, e) <==> world.component(entity, component)
                == Outcome::Failed(e),
{
}

/// What the world says of a resource is its outcome.
pub proof fn lemma_resource_outcome(world: WorldSnapshot, type_id: TypeId)
    ensures
        forall|name: Seq<char>, value: Json| #[trigger]
            resource_gives(world, type_id, name, value) <==> world.resource(type_id) == (
            Outcome::Field { name, value }),
        forall|e: ErrorModel| #[trigger]
            resource_fails(world, type_id, e) <==> world.resource(type_id) == Outcome::Failed(e),
{
}

/// A component is written where there is something to write.
pub proof fn lemma_writes(
    session: PersistenceSession,
    world: WorldSnapshot,
    entity: Entity,
    t: TypeId,
)
    ensures
        prepare_commit::writes_component(session, world, entity, t) == writes(
            session,
            world,
            entity,
            t,
        ),
{
    lemma_outcome(world, entity, t);
    match world.component(entity, t) {
        Outcome::Field { name, value } => {
            assert(component_gives(world, entity, t, name, value));
        },
        _ => {},
    }
}

/// The fields of a document are those that the components give.
proof fn lemma_entity_fields(
    session: PersistenceSession,
    world: WorldSnapshot,
    entity: Entity,
    types: Seq<TypeId>,
    name: Seq<char>,
)
    ensures
        prepare_commit::entity_fields(session, world, entity, types) matches Ok(fields) ==> {
            &&& fields.dom().contains(name) <==> exists|value: Json| #[trigger]
                field_given(session, world, entity, types.to_set(), name, value)
            &&& fields.dom().contains(name) ==> field_given(
                session,
                world,
                entity,
                types.to_set(),
                name,
                fields[name],
            )
        },
    decreases types.len(),
{
    if types.len() > 0 {
        let head = types.drop_last();
        let last = types.last();
        lemma_entity_fields(session, world, entity, head, name);
        lemma_outcome(world, entity, last);
        assert(head.push(last) =~= types);
        collections::lemma_push_to_set(head, last);
        match prepare_commit::entity_fields(session, world, entity, types) {
            Ok(fields) => {
                let rest = prepare_commit::entity_fields(session, world, entity, head)->Ok_0;
                assert forall|value: Json| #[trigger]
                    field_given(session, world, entity, types.to_set(), name, value) == (
                field_given(session, world, entity, head.to_set(), name, value) || (
                session.components.serializers@.contains(last) && component_gives(
                    world,
                    entity,
                    last,
                    name,
                    value,
                ))) by {
                    if field_given(session, world, entity, types.to_set(), name, value) {
                        let t = choose|t: TypeId|
                            types.to_set().contains(t) && session.components.serializers@.contains(
                                t,
                            ) && #[trigger] component_gives(world, entity, t, name, value);
                        if t != last {
                            assert(head.to_set().contains(t));
                        }
                    }
                    if field_given(session, world, entity, head.to_set(), name, value) {
                        let t = choose|t: TypeId|
                            head.to_set().contains(t) && session.components.serializers@.contains(
                                t,
                            ) && #[trigger] component_gives(world, entity, t, name, value);
                        assert(types.to_set().contains(t));
                    }
                    if session.components.serializers@.contains(last) && component_gives(
                        world,
                        entity,
                        last,
                        name,
                        value,
                    ) {
                        assert(types.to_set().contains(last));
                    }
                }
                if rest.dom().contains(name) {
                    assert(field_given(
                        session,
                        world,
                        entity,
                        types.to_set(),
                        name,
                        rest[name],
                    ));
                }
                match world.component(entity, last) {
                    Outcome::Field { name: given, value } => {
                        assert(component_gives(world, entity, last, given, value));
                        if session.components.serializers@.contains(last) && given == name {
                            assert(field_given(
                                session,
                                world,
                                entity,
                                types.to_set(),
                                name,
                                value,
                            ));
                        }
                    },
                    _ => {},
                }
                if exists|value: Json| #[trigger]
                    field_given(session, world, entity, types.to_set(), name, value) {
                    let value = choose|value: Json| #[trigger]
                        field_given(session, world, entity, types.to_set(), name, value);
                    if field_given(session, world, entity, head.to_set(), name, value) {
                        assert(rest.dom().contains(name));
                    }
                }
            },
            Err(_) => {},
        }
    }
}

proof fn lemma_stamp(kind: DocumentKind, version: u64)
    ensures
        connection::metadata(kind, version) == stamp(
            match kind {
                DocumentKind::Entity => "entity"@,
                DocumentKind::Resource => "resource"@,
            },
            version,
        ),
{
}

/// The operation for one entity is the one that its changes call for.
proof fn lemma_entity_operation(
    session: PersistenceSession,
    world: WorldSnapshot,
    keys: Map<Entity, String>,
    entity: Entity,
    types: Seq<TypeId>,
    key_field: Seq<char>,
    store: Seq<char>,
)
    ensures
        prepare_commit::entity_operation(
            session,
            world,
            keys,
            entity,
            types,
            key_field,
            store,
        ) matches Ok(r) ==> {
            &&& r is Some <==> exists|t: TypeId|
                types.to_set().contains(t) && #[trigger] writes(session, world, entity, t)
            &&& r matches Some(op) ==> writes_entity(
                session,
                world,
                keys,
                types.to_set(),
                key_field,
                store,
                entity,
                op,
            ) && is_write(op, DocumentKind::Entity)
        },
{
    match prepare_commit::entity_operation(session, world, keys, entity, types, key_field, store) {
        Ok(r) => {
            let fields = prepare_commit::entity_fields(session, world, entity, types)->Ok_0;
            let set = types.to_set();
            assert forall|name: Seq<char>|
                #![trigger fields.dom().contains(name)]
                (fields.dom().contains(name) <==> exists|value: Json| #[trigger]
                    field_given(session, world, entity, set, name, value)) && (fields.dom().contains(
                    name,
                ) ==> field_given(session, world, entity, set, name, fields[name])) by {
                lemma_entity_fields(session, world, entity, types, name);
            }
            if r is Some {
                let name = choose|name: Seq<char>| fields.dom().contains(name);
                if forall|name: Seq<char>| !fields.dom().contains(name) {
                    assert(fields =~= Map::empty());
                }
                assert(fields.dom().contains(name));
                let t = choose|t: TypeId|
                    set.contains(t) && session.components.serializers@.contains(t)
                        && #[trigger] component_gives(world, entity, t, name, fields[name]);
                assert(writes(session, world, entity, t));
            }
            if exists|t: TypeId| set.contains(t) && #[trigger] writes(session, world, entity, t) {
                let t = choose|t: TypeId|
                    set.contains(t) && #[trigger] writes(session, world, entity, t);
                let (name, value) = choose|name: Seq<char>, value: Json| #[trigger]
                    component_gives(world, entity, t, name, value);
                assert(field_given(session, world, entity, set, name, value));
                assert(fields.dom().contains(name));
            }
            match r {
                Some(op) => {
                    let metadata = connection::BEVY_PERSISTENCE_DATABASE_METADATA_FIELD@;
                    if session.cache.entity_keys@.dom().contains(entity) {
                        let key = session.cache.entity_keys@[entity]@;
                        let version = session.cache.version_manager.entities@[key];
                        let next = (version + 1) as u64;
                        lemma_stamp(DocumentKind::Entity, next);
                        let doc = connection::with_metadata(fields, DocumentKind::Entity, next);
                        assert(entity_document(session, world, entity, set, next, None, doc));
                    } else {
                        lemma_stamp(DocumentKind::Entity, 1);
                        let doc = connection::with_metadata(
                            fields.insert(key_field, Json::String(keys[entity]@)),
                            DocumentKind::Entity,
                            1,
                        );
                        assert(entity_document(
                            session,
                            world,
                            entity,
                            set,
                            1,
                            Some((key_field, keys[entity]@)),
                            doc,
                        ));
                    }
                },
                None => {},
            }
        },
        Err(_) => {},
    }
}

proof fn lemma_entity_operations(
    session: PersistenceSession,
    world: WorldSnapshot,
    keys: Map<Entity, String>,
    order: Seq<(Entity, Seq<TypeId>)>,
    key_field: Seq<char>,
    store: Seq<char>,
    op: OperationModel,
)
    ensures
        prepare_commit::entity_operations(
            session,
            world,
            keys,
            order,
            key_field,
            store,
        ) matches Ok(ops) ==> {
            &&& ops.contains(op) <==> exists|i: int|
                0 <= i < order.len() && prepare_commit::entity_operation(
                    session,
                    world,
                    keys,
                    (#[trigger] order[i]).0,
                    order[i].1,
                    key_field,
                    store,
                ) == Ok::<_, ErrorModel>(Some(op))
            &&& forall|i: int|
                0 <= i < order.len() ==> prepare_commit::entity_operation(
                    session,
                    world,
                    keys,
                    (#[trigger] order[i]).0,
                    order[i].1,
                    key_field,
                    store,
                ) is Ok
            &&& forall|i: int|
                0 <= i < ops.len() ==> is_write(#[trigger] ops[i], DocumentKind::Entity)
        },
    decreases order.len(),
{
    if order.len() > 0 {
        let head = order.drop_last();
        lemma_entity_operations(session, world, keys, head, key_field, store, op);
        match prepare_commit::entity_operations(session, world, keys, order, key_field, store) {
            Ok(ops) => {
                let rest = prepare_commit::entity_operations(
                    session,
                    world,
                    keys,
                    head,
                    key_field,
                    store,
                )->Ok_0;
                let (entity, types) = order.last();
                lemma_entity_operation(session, world, keys, entity, types, key_field, store);
                assert(order[order.len() - 1] == order.last());
                assert forall|i: int| 0 <= i < head.len() implies head[i] == order[i] by {}
                match prepare_commit::entity_operation(
                    session,
                    world,
                    keys,
                    entity,
                    types,
                    key_field,
                    store,
                ) {
                    Ok(Some(last)) => {
                        lemma_contains_push(rest, last, op);
                    },
                    _ => {},
                }
                if rest.contains(op) {
                    let i = choose|i: int|
                        0 <= i < head.len() && prepare_commit::entity_operation(
                            session,
                            world,
                            keys,
                            (#[trigger] head[i]).0,
                            head[i].1,
                            key_field,
                            store,
                        ) == Ok::<_, ErrorModel>(Some(op));
                    assert(order[i] == head[i]);
                }
                assert forall|i: int| 0 <= i < order.len() implies prepare_commit::entity_operation(
                    session,
                    world,
                    keys,
                    (#[trigger] order[i]).0,
                    order[i].1,
                    key_field,
                    store,
                ) is Ok && (prepare_commit::entity_operation(
                    session,
                    world,
                    keys,
                    order[i].0,
                    order[i].1,
                    key_field,
                    store,
                ) == Ok::<_, ErrorModel>(Some(op)) ==> ops.contains(op)) by {
                    if i < head.len() {
                        assert(head[i] == order[i]);
                    }
                }
            },
            Err(_) => {},
        }
    }
}

proof fn lemma_resource_operation(
    session: PersistenceSession,
    world: WorldSnapshot,
    type_id: TypeId,
    key_field: Seq<char>,
    store: Seq<char>,
    op: OperationModel,
)
    ensures
        writes_resource(session, world, key_field, store, type_id, op) <==> match world.resource(
            type_id,
        ) {
            Outcome::Field { name, value } => op == prepare_commit::resource_operation(
                session,
                type_id,
                name,
                value,
                key_field,
                store,
            ),
            _ => false,
        },
{
    lemma_resource_outcome(world, type_id);
    match world.resource(type_id) {
        Outcome::Field { name, value } => {
            assert(resource_gives(world, type_id, name, value));
            match session.cache.version_manager@.resource(type_id) {
                Some(version) => {
                    lemma_stamp(DocumentKind::Resource, (version + 1) as u64);
                },
                None => {
                    lemma_stamp(DocumentKind::Resource, 1);
                },
            }
        },
        _ => {},
    }
}

proof fn lemma_resource_operations(
    session: PersistenceSession,
    world: WorldSnapshot,
    dirty: DirtyModel,
    order: Seq<TypeId>,
    key_field: Seq<char>,
    store: Seq<char>,
    op: OperationModel,
)
    ensures
        prepare_commit::resource_operations(
            session,
            world,
            dirty,
            order,
            key_field,
            store,
        ) matches Ok(ops) ==> {
            &&& ops.contains(op) <==> exists|t: TypeId|
                order.contains(t) && prepare_commit::considers_resource(session, dirty, t)
                    && #[trigger] writes_resource(session, world, key_field, store, t, op)
            &&& forall|i: int|
                0 <= i < ops.len() ==> is_write(#[trigger] ops[i], DocumentKind::Resource)
            &&& forall|t: TypeId| #[trigger]
                order.contains(t) && prepare_commit::considers_resource(session, dirty, t)
                    ==> world.resource(t) !is Failed
        },
    decreases order.len(),
{
    if order.len() > 0 {
        let head = order.drop_last();
        let last = order.last();
        lemma_resource_operations(session, world, dirty, head, key_field, store, op);
        lemma_resource_operation(session, world, last, key_field, store, op);
        assert forall|t: TypeId| order.contains(t) == (head.contains(t) || last == t) by {
            lemma_head(order, t);
        }
        match prepare_commit::resource_operations(session, world, dirty, order, key_field, store) {
            Ok(ops) => {
                let rest = prepare_commit::resource_operations(
                    session,
                    world,
                    dirty,
                    head,
                    key_field,
                    store,
                )->Ok_0;
                match world.resource(last) {
                    Outcome::Field { name, value } => {
                        lemma_contains_push(
                            rest,
                            prepare_commit::resource_operation(
                                session,
                                last,
                                name,
                                value,
                                key_field,
                                store,
                            ),
                            op,
                        );
                    },
                    _ => {},
                }
            },
            Err(_) => {},
        }
    }
}

proof fn lemma_resource_operations_count(
    session: PersistenceSession,
    world: WorldSnapshot,
    dirty: DirtyModel,
    order: Seq<TypeId>,
    key_field: Seq<char>,
    store: Seq<char>,
    counted: Set<TypeId>,
)
    requires
        order.no_duplicates(),
        forall|t: TypeId| #[trigger]
            counted.contains(t) <==> order.to_set().contains(t)
                && prepare_commit::considers_resource(session, dirty, t)
                && world.resource(t) is Field,
    ensures
        prepare_commit::resource_operations(
            session,
            world,
            dirty,
            order,
            key_field,
            store,
        ) matches Ok(ops) ==> ops.len() == counted.len(),
    decreases order.len(),
{
    let p = |t: TypeId|
        prepare_commit::considers_resource(session, dirty, t) && world.resource(t) is Field;
    assert(counted =~= order.to_set().filter(p));
    if order.len() == 0 {
        assert(counted =~= Set::empty());
    } else {
        lemma_filter_count(order, p);
        lemma_resource_operations_count(
            session,
            world,
            dirty,
            order.drop_last(),
            key_field,
            store,
            order.drop_last().to_set().filter(p),
        );
    }
}

/// A commit carries the changes to the edges, and nothing else: its operations
/// are as many as the documents it deletes and writes, and the two lists of edges
/// where they are not empty.
pub open spec fn carries_edge_changes(
    session: PersistenceSession,
    world: WorldSnapshot,
    dirty: DirtyModel,
    keys: Map<Entity, String>,
    store: Seq<char>,
    data: CommitModel,
) -> bool {
    exists|upserts: Seq<EdgeModel>, deletes: Seq<Seq<char>>|
        {
            &&& #[trigger] crate::laws::edges::edges_are_right(
                session,
                world.relationships@,
                keys,
                dirty,
                upserts,
                deletes,
                data.new_edge_snapshot,
            )
            &&& forall|op: OperationModel| #[trigger]
                data.operations.contains(op) && is_edge_operation(op) <==> (upserts.len() > 0 && op
                    == OperationModel::UpsertEdges { store, edges: upserts }) || (deletes.len() > 0
                    && op == OperationModel::DeleteEdges { store, keys: deletes })
            &&& data.operations.len() == data.committed_despawned_entities.len()
                + data.committed_despawned_resources.len() + data.committed_components.dom().len()
                + data.committed_resources.len() + (if upserts.len() > 0 {
                1int
            } else {
                0int
            }) + (if deletes.len() > 0 {
                1int
            } else {
                0int
            })
        }
}

/// A prepared commit holds what the changes call for, all of it and nothing else.
pub open spec fn faithful(
    session: PersistenceSession,
    world: WorldSnapshot,
    dirty: DirtyModel,
    keys: Map<Entity, String>,
    key_field: Seq<char>,
    store: Seq<char>,
    data: CommitModel,
) -> bool {
    &&& deletes_what_is_gone(session, dirty, store, data)
    &&& writes_changed_entities(session, world, dirty, keys, key_field, store, data)
    &&& writes_changed_resources(session, world, dirty, key_field, store, data)
    &&& carries_edge_changes(session, world, dirty, keys, store, data)
    &&& forall|i: int, j: int|
        0 <= i < j < data.operations.len() ==> stage(#[trigger] data.operations[i]) <= stage(
            #[trigger] data.operations[j],
        )
}

/// Why a commit cannot be prepared: no store is given, a stored document has no
/// known version, or a registered type could not be serialised.
pub open spec fn refused(
    session: PersistenceSession,
    world: WorldSnapshot,
    dirty: DirtyModel,
    store: Seq<char>,
    error: ErrorModel,
) -> bool {
    let entity_keys = session.cache.entity_keys@;
    let versions = session.cache.version_manager.entities@;
    if store.len() == 0 {
        error == ErrorModel::General("store must be provided for commit"@)
    } else {
        ||| error == ErrorModel::General("Missing version for deletion"@) && exists|e: Entity|
            dirty.despawned_entities.contains(e) && #[trigger] entity_keys.dom().contains(e)
                && !versions.dom().contains(entity_keys[e]@)
        ||| error == ErrorModel::General("Missing version for update"@) && exists|
            e: Entity,
            t: TypeId,
        |
            dirty.components.dom().contains(e) && dirty.components[e].contains(t)
                && #[trigger] writes(session, world, e, t) && entity_keys.dom().contains(e)
                && !versions.dom().contains(entity_keys[e]@)
        ||| exists|e: Entity, t: TypeId|
            dirty.components.dom().contains(e) && dirty.components[e].contains(t)
                && session.components.serializers@.contains(t) && #[trigger] component_fails(
                world,
                e,
                t,
                error,
            )
        ||| exists|t: TypeId|
            resource_counts(session, dirty, t) && #[trigger] resource_fails(world, t, error)
        ||| crate::laws::edges::looks_at_edges(session, dirty) && exists|i: int|
            0 <= i < world.relationships@.len() && crate::laws::edges::entry_fails(
                session,
                #[trigger] world.relationships@[i],
                error,
            )
    }
}

proof fn lemma_entity_deletions_refused(
    session: PersistenceSession,
    order: Seq<Entity>,
    store: Seq<char>,
)
    ensures
        prepare_commit::entity_deletions(session, order, store) matches Err(error) ==> error
            == ErrorModel::General("Missing version for deletion"@) && exists|e: Entity|
            order.contains(e) && #[trigger] session.cache.entity_keys@.dom().contains(e)
                && !session.cache.version_manager.entities@.dom().contains(
                session.cache.entity_keys@[e]@,
            ),
    decreases order.len(),
{
    if order.len() > 0 {
        let head = order.drop_last();
        lemma_entity_deletions_refused(session, head, store);
        assert forall|e: Entity| order.contains(e) == (head.contains(e) || order.last() == e) by {
            lemma_head(order, e);
        }
        match prepare_commit::entity_deletions(session, head, store) {
            Ok(_) => {
                assert(order.contains(order.last()));
            },
            Err(_) => {},
        }
    }
}

proof fn lemma_entity_fields_refused(
    session: PersistenceSession,
    world: WorldSnapshot,
    entity: Entity,
    types: Seq<TypeId>,
)
    ensures
        match prepare_commit::entity_fields(session, world, entity, types) {
            Ok(_) => forall|t: TypeId, e: ErrorModel|
                types.contains(t) && session.components.serializers@.contains(t) ==> !(
                #[trigger] component_fails(world, entity, t, e)),
            Err(e) => exists|t: TypeId|
                types.contains(t) && session.components.serializers@.contains(t)
                    && #[trigger] component_fails(world, entity, t, e),
        },
    decreases types.len(),
{
    if types.len() > 0 {
        let head = types.drop_last();
        lemma_entity_fields_refused(session, world, entity, head);
        assert forall|t: TypeId| types.contains(t) == (head.contains(t) || types.last() == t) by {
            lemma_head(types, t);
        }
        lemma_outcome(world, entity, types.last());
        match world.component(entity, types.last()) {
            Outcome::Failed(e) => {
                assert(component_fails(world, entity, types.last(), e));
            },
            _ => {},
        }
    }
}

proof fn lemma_resource_operations_refused(
    session: PersistenceSession,
    world: WorldSnapshot,
    dirty: DirtyModel,
    order: Seq<TypeId>,
    key_field: Seq<char>,
    store: Seq<char>,
)
    ensures
        prepare_commit::resource_operations(
            session,
            world,
            dirty,
            order,
            key_field,
            store,
        ) matches Err(e) ==> exists|t: TypeId|
            order.contains(t) && prepare_commit::considers_resource(session, dirty, t)
                && #[trigger] resource_fails(world, t, e),
    decreases order.len(),
{
    if order.len() > 0 {
        let head = order.drop_last();
        lemma_resource_operations_refused(session, world, dirty, head, key_field, store);
        assert forall|t: TypeId| order.contains(t) == (head.contains(t) || order.last() == t) by {
            lemma_head(order, t);
        }
        lemma_resource_outcome(world, order.last());
        match world.resource(order.last()) {
            Outcome::Failed(e) => {
                assert(resource_fails(world, order.last(), e));
            },
            _ => {},
        }
    }
}

proof fn lemma_entity_operations_refused(
    session: PersistenceSession,
    world: WorldSnapshot,
    keys: Map<Entity, String>,
    order: Seq<(Entity, Seq<TypeId>)>,
    key_field: Seq<char>,
    store: Seq<char>,
)
    ensures
        prepare_commit::entity_operations(
            session,
            world,
            keys,
            order,
            key_field,
            store,
        ) matches Err(e) ==> exists|i: int|
            0 <= i < order.len() && prepare_commit::entity_operation(
                session,
                world,
                keys,
                (#[trigger] order[i]).0,
                order[i].1,
                key_field,
                store,
            ) == Err::<Option<OperationModel>, _>(e),
    decreases order.len(),
{
    if order.len() > 0 {
        let head = order.drop_last();
        lemma_entity_operations_refused(session, world, keys, head, key_field, store);
        assert(order[order.len() - 1] == order.last());
        match prepare_commit::entity_operations(session, world, keys, head, key_field, store) {
            Err(e) => {
                let i = choose|i: int|
                    0 <= i < head.len() && prepare_commit::entity_operation(
                        session,
                        world,
                        keys,
                        (#[trigger] head[i]).0,
                        head[i].1,
                        key_field,
                        store,
                    ) == Err::<Option<OperationModel>, _>(e);
                assert(order[i] == head[i]);
            },
            Ok(_) => {},
        }
    }
}

/// Each dirty entity stands once in the order, with its dirty types.
proof fn lemma_enumerated(order: CommitOrder, dirty: DirtyModel)
    requires
        order.enumerates(dirty),
    ensures
        ({
            let all = prepare_commit::entity_order(order.entities@);
            &&& forall|i: int|
                0 <= i < all.len() ==> dirty.components.dom().contains((#[trigger] all[i]).0)
                    && all[i].1.to_set() == dirty.components[all[i].0]
            &&& forall|e: Entity| #[trigger]
                dirty.components.dom().contains(e) ==> exists|i: int|
                    0 <= i < all.len() && (#[trigger] all[i]).0 == e
            &&& forall|i: int, j: int|
                0 <= i < j < all.len() ==> (#[trigger] all[i]).0 != (#[trigger] all[j]).0
            &&& forall|e: Entity| #[trigger]
                order.despawned_entities@.contains(e) == dirty.despawned_entities.contains(e)
            &&& forall|t: TypeId| #[trigger]
                order.resources@.contains(t) == dirty.resources.contains(t)
            &&& forall|t: TypeId| #[trigger]
                order.despawned_resources@.contains(t) == dirty.despawned_resources.contains(t)
        }),
{
    let all = prepare_commit::entity_order(order.entities@);
    let entities = order.entities@.map_values(|e: (Entity, Vec<TypeId>)| e.0);
    assert forall|i: int| 0 <= i < all.len() implies dirty.components.dom().contains(
        (#[trigger] all[i]).0,
    ) && all[i].1.to_set() == dirty.components[all[i].0] by {
        assert(order.entities@[i].1@.to_set() == dirty.components[order.entities@[i].0]);
        assert(entities[i] == all[i].0);
        assert(entities.to_set().contains(all[i].0));
    }
    assert forall|e: Entity| #[trigger] dirty.components.dom().contains(e) implies exists|i: int|
        0 <= i < all.len() && (#[trigger] all[i]).0 == e by {
        assert(entities.to_set().contains(e));
        let i = choose|i: int| 0 <= i < entities.len() && entities[i] == e;
        assert(all[i].0 == e);
    }
    assert forall|i: int, j: int| 0 <= i < j < all.len() implies (#[trigger] all[i]).0 != (
    #[trigger] all[j]).0 by {
        assert(entities[i] != entities[j]);
    }
    assert forall|e: Entity| #[trigger]
        order.despawned_entities@.contains(e) == dirty.despawned_entities.contains(e) by {
        assert(order.despawned_entities@.to_set().contains(e)
            == order.despawned_entities@.contains(e));
    }
    assert forall|t: TypeId| #[trigger]
        order.resources@.contains(t) == dirty.resources.contains(t) by {
        assert(order.resources@.to_set().contains(t) == order.resources@.contains(t));
    }
    assert forall|t: TypeId| #[trigger]
        order.despawned_resources@.contains(t) == dirty.despawned_resources.contains(t) by {
        assert(order.despawned_resources@.to_set().contains(t)
            == order.despawned_resources@.contains(t));
    }
}

proof fn lemma_written(
    session: PersistenceSession,
    world: WorldSnapshot,
    entity: Entity,
    types: Set<TypeId>,
)
    ensures
        forall|t: TypeId| #[trigger]
            prepare_commit::written_components(session, world, entity, types).contains(t)
                <==> types.contains(t) && writes(session, world, entity, t),
        prepare_commit::written_components(session, world, entity, types) != Set::<TypeId>::empty()
            <==> exists|t: TypeId| types.contains(t) && #[trigger] writes(session, world, entity, t),
{
    let written = prepare_commit::written_components(session, world, entity, types);
    assert forall|t: TypeId| #[trigger]
        written.contains(t) <==> types.contains(t) && writes(session, world, entity, t) by {
        lemma_writes(session, world, entity, t);
    }
    if forall|t: TypeId| !written.contains(t) {
        assert(written =~= Set::empty());
    } else {
        let t = choose|t: TypeId| written.contains(t);
        assert(writes(session, world, entity, t));
    }
    if exists|t: TypeId| types.contains(t) && #[trigger] writes(session, world, entity, t) {
        let t = choose|t: TypeId| types.contains(t) && #[trigger] writes(session, world, entity, t);
        assert(written.contains(t));
    }
}

proof fn lemma_created(
    session: PersistenceSession,
    world: WorldSnapshot,
    keys: Map<Entity, String>,
    order: Seq<(Entity, Seq<TypeId>)>,
)
    requires
        forall|i: int, j: int|
            0 <= i < j < order.len() ==> (#[trigger] order[i]).0 != (#[trigger] order[j]).0,
    ensures
        prepare_commit::created_entities(session, world, keys, order).no_duplicates(),
        forall|e: Entity| #[trigger]
            prepare_commit::created_entities(session, world, keys, order).contains(e) <==> exists|
                i: int,
            |
                0 <= i < order.len() && (#[trigger] order[i]).0 == e && keys.dom().contains(e)
                    && prepare_commit::written_components(session, world, e, order[i].1.to_set())
                    != Set::<TypeId>::empty(),
    decreases order.len(),
{
    if order.len() > 0 {
        let head = order.drop_last();
        let (entity, types) = order.last();
        assert forall|i: int, j: int| 0 <= i < j < head.len() implies (#[trigger] head[i]).0 != (
        #[trigger] head[j]).0 by {
            assert(order[i].0 != order[j].0);
        }
        lemma_created(session, world, keys, head);
        let rest = prepare_commit::created_entities(session, world, keys, head);
        let all = prepare_commit::created_entities(session, world, keys, order);
        assert(order[order.len() - 1] == order.last());
        assert(!rest.contains(entity)) by {
            if rest.contains(entity) {
                let i = choose|i: int|
                    0 <= i < head.len() && (#[trigger] head[i]).0 == entity
                        && keys.dom().contains(entity) && prepare_commit::written_components(
                        session,
                        world,
                        entity,
                        head[i].1.to_set(),
                    ) != Set::<TypeId>::empty();
                assert(order[i].0 != order[order.len() - 1].0);
            }
        }
        assert forall|e: Entity| #[trigger] all.contains(e) <==> exists|i: int|
            0 <= i < order.len() && (#[trigger] order[i]).0 == e && keys.dom().contains(e)
                && prepare_commit::written_components(session, world, e, order[i].1.to_set())
                != Set::<TypeId>::empty() by {
            lemma_contains_push(rest, entity, e);
            if rest.contains(e) {
                let i = choose|i: int|
                    0 <= i < head.len() && (#[trigger] head[i]).0 == e && keys.dom().contains(e)
                        && prepare_commit::written_components(
                        session,
                        world,
                        e,
                        head[i].1.to_set(),
                    ) != Set::<TypeId>::empty();
                assert(order[i] == head[i]);
            }
            if exists|i: int|
                0 <= i < order.len() && (#[trigger] order[i]).0 == e && keys.dom().contains(e)
                    && prepare_commit::written_components(session, world, e, order[i].1.to_set())
                    != Set::<TypeId>::empty() {
                let i = choose|i: int|
                    0 <= i < order.len() && (#[trigger] order[i]).0 == e && keys.dom().contains(e)
                        && prepare_commit::written_components(
                        session,
                        world,
                        e,
                        order[i].1.to_set(),
                    ) != Set::<TypeId>::empty();
                if i < head.len() {
                    assert(head[i] == order[i]);
                }
            }
        }
        if all != rest {
            assert forall|i: int, j: int|
                0 <= i < all.len() && 0 <= j < all.len() && i != j implies all[i] != all[j] by {
                if i == rest.len() {
                    assert(rest.contains(rest[j]));
                } else if j == rest.len() {
                    assert(rest.contains(rest[i]));
                }
            }
        }
    }
}

proof fn lemma_deletes(
    session: PersistenceSession,
    world: WorldSnapshot,
    dirty: DirtyModel,
    order: CommitOrder,
    keys: Map<Entity, String>,
    key_field: Seq<char>,
    store: Seq<char>,
    data: CommitModel,
)
    requires
        order.enumerates(dirty),
        prepare_commit::prepared_commit(
            session,
            world,
            dirty,
            order,
            keys,
            key_field,
            store,
        ) == Ok::<_, ErrorModel>(data),
    ensures
        deletes_what_is_gone(session, dirty, store, data),
{
    lemma_enumerated(order, dirty);
    let parts = parts_of(session, world, dirty, order, keys, key_field, store);
    assert forall|op: OperationModel|
        #![trigger data.operations.contains(op)]
        (is_deletion(op, DocumentKind::Entity) ==> (data.operations.contains(op) <==> exists|
            e: Entity,
        |
            dirty.despawned_entities.contains(e) && #[trigger] deletes_entity(
                session,
                store,
                e,
                op,
            ))) && (is_deletion(op, DocumentKind::Resource) ==> (data.operations.contains(op)
            <==> exists|t: TypeId|
            dirty.despawned_resources.contains(t) && #[trigger] deletes_resource(
                session,
                store,
                t,
                op,
            ))) by {
        lemma_parts(session, world, dirty, order, keys, key_field, store, data, op);
        lemma_entity_deletions(session, order.despawned_entities@, store, op);
        lemma_resource_deletions(session, order.despawned_resources@, store, op);
        if exists|e: Entity|
            order.despawned_entities@.contains(e) && #[trigger] deletes_entity(
                session,
                store,
                e,
                op,
            ) {
            let e = choose|e: Entity|
                order.despawned_entities@.contains(e) && #[trigger] deletes_entity(
                    session,
                    store,
                    e,
                    op,
                );
            assert(dirty.despawned_entities.contains(e));
        }
        if exists|t: TypeId|
            order.despawned_resources@.contains(t) && #[trigger] deletes_resource(
                session,
                store,
                t,
                op,
            ) {
            let t = choose|t: TypeId|
                order.despawned_resources@.contains(t) && #[trigger] deletes_resource(
                    session,
                    store,
                    t,
                    op,
                );
            assert(dirty.despawned_resources.contains(t));
        }
    }
    lemma_entity_deletions(session, order.despawned_entities@, store, arbitrary());
}

/// The operations of a commit in the order in which they are put together.
spec fn parts_of(
    session: PersistenceSession,
    world: WorldSnapshot,
    dirty: DirtyModel,
    order: CommitOrder,
    keys: Map<Entity, String>,
    key_field: Seq<char>,
    store: Seq<char>,
) -> (
    Seq<OperationModel>,
    Seq<OperationModel>,
    Seq<OperationModel>,
    Seq<OperationModel>,
    Seq<OperationModel>,
) {
    (
        prepare_commit::entity_deletions(session, order.despawned_entities@, store)->Ok_0,
        prepare_commit::resource_deletions(session, order.despawned_resources@, store),
        prepare_commit::entity_operations(
            session,
            world,
            keys,
            prepare_commit::entity_order(order.entities@),
            key_field,
            store,
        )->Ok_0,
        prepare_commit::resource_operations(
            session,
            world,
            dirty,
            order.resources@,
            key_field,
            store,
        )->Ok_0,
        prepare_commit::edge_operations(
            edges::edge_changes(session, world.relationships@, keys, dirty)->Ok_0,
            store,
        ),
    )
}

proof fn lemma_parts(
    session: PersistenceSession,
    world: WorldSnapshot,
    dirty: DirtyModel,
    order: CommitOrder,
    keys: Map<Entity, String>,
    key_field: Seq<char>,
    store: Seq<char>,
    data: CommitModel,
    op: OperationModel,
)
    requires
        prepare_commit::prepared_commit(
            session,
            world,
            dirty,
            order,
            keys,
            key_field,
            store,
        ) == Ok::<_, ErrorModel>(data),
    ensures
        ({
            let (a, b, c, d, e) = parts_of(
                session,
                world,
                dirty,
                order,
                keys,
                key_field,
                store,
            );
            &&& data.operations == a + b + c + d + e
            &&& forall|i: int| 0 <= i < a.len() ==> is_deletion(#[trigger] a[i], DocumentKind::Entity)
            &&& forall|i: int|
                0 <= i < b.len() ==> is_deletion(#[trigger] b[i], DocumentKind::Resource)
            &&& forall|i: int| 0 <= i < c.len() ==> is_write(#[trigger] c[i], DocumentKind::Entity)
            &&& forall|i: int| 0 <= i < d.len() ==> is_write(#[trigger] d[i], DocumentKind::Resource)
            &&& forall|i: int| 0 <= i < e.len() ==> is_edge_operation(#[trigger] e[i])
            &&& is_deletion(op, DocumentKind::Entity) ==> data.operations.contains(op)
                == a.contains(op)
            &&& is_deletion(op, DocumentKind::Resource) ==> data.operations.contains(op)
                == b.contains(op)
            &&& is_write(op, DocumentKind::Entity) ==> data.operations.contains(op) == c.contains(op)
            &&& is_write(op, DocumentKind::Resource) ==> data.operations.contains(op)
                == d.contains(op)
            &&& is_edge_operation(op) ==> data.operations.contains(op) == e.contains(op)
        }),
{
    let (a, b, c, d, e) = parts_of(session, world, dirty, order, keys, key_field, store);
    let entities = prepare_commit::entity_order(order.entities@);
    lemma_entity_deletions(session, order.despawned_entities@, store, op);
    lemma_resource_deletions(session, order.despawned_resources@, store, op);
    lemma_entity_operations(session, world, keys, entities, key_field, store, op);
    lemma_resource_operations(session, world, dirty, order.resources@, key_field, store, op);
    lemma_contains_concat(a, b, op);
    lemma_contains_concat(a + b, c, op);
    lemma_contains_concat(a + b + c, d, op);
    lemma_contains_concat(a + b + c + d, e, op);
    if a.contains(op) {
        let i = choose|i: int| 0 <= i < a.len() && a[i] == op;
        assert(is_deletion(a[i], DocumentKind::Entity));
    }
    if b.contains(op) {
        let i = choose|i: int| 0 <= i < b.len() && b[i] == op;
        assert(is_deletion(b[i], DocumentKind::Resource));
    }
    if c.contains(op) {
        let i = choose|i: int| 0 <= i < c.len() && c[i] == op;
        assert(is_write(c[i], DocumentKind::Entity));
    }
    if d.contains(op) {
        let i = choose|i: int| 0 <= i < d.len() && d[i] == op;
        assert(is_write(d[i], DocumentKind::Resource));
    }
    if e.contains(op) {
        let i = choose|i: int| 0 <= i < e.len() && e[i] == op;
        assert(is_edge_operation(e[i]));
    }
}

proof fn lemma_writes_entities(
    session: PersistenceSession,
    world: WorldSnapshot,
    dirty: DirtyModel,
    order: CommitOrder,
    keys: Map<Entity, String>,
    key_field: Seq<char>,
    store: Seq<char>,
    data: CommitModel,
)
    requires
        order.enumerates(dirty),
        prepare_commit::prepared_commit(
            session,
            world,
            dirty,
            order,
            keys,
            key_field,
            store,
        ) == Ok::<_, ErrorModel>(data),
    ensures
        writes_changed_entities(session, world, dirty, keys, key_field, store, data),
{
    lemma_enumerated(order, dirty);
    let all = prepare_commit::entity_order(order.entities@);
    lemma_created(session, world, keys, all);
    assert forall|e: Entity| dirty.components.dom().contains(e) implies #[trigger] same_written(
        session,
        world,
        e,
        dirty.components[e],
    ) by {
        lemma_written(session, world, e, dirty.components[e]);
    }
    assert forall|op: OperationModel| #[trigger]
        data.operations.contains(op) && is_write(op, DocumentKind::Entity) implies exists|e: Entity|
        dirty.components.dom().contains(e) && #[trigger] writes_entity(
            session,
            world,
            keys,
            dirty.components[e],
            key_field,
            store,
            e,
            op,
        ) by {
        lemma_parts(session, world, dirty, order, keys, key_field, store, data, op);
        lemma_entity_operations(session, world, keys, all, key_field, store, op);
        let i = choose|i: int|
            0 <= i < all.len() && prepare_commit::entity_operation(
                session,
                world,
                keys,
                (#[trigger] all[i]).0,
                all[i].1,
                key_field,
                store,
            ) == Ok::<_, ErrorModel>(Some(op));
        lemma_entity_operation(session, world, keys, all[i].0, all[i].1, key_field, store);
        assert(writes_entity(
            session,
            world,
            keys,
            dirty.components[all[i].0],
            key_field,
            store,
            all[i].0,
            op,
        ));
    }
    assert forall|e: Entity, t: TypeId|
        dirty.components.dom().contains(e) && dirty.components[e].contains(t)
            && #[trigger] writes(session, world, e, t) implies exists|op: OperationModel|
        data.operations.contains(op) && #[trigger] writes_entity(
            session,
            world,
            keys,
            dirty.components[e],
            key_field,
            store,
            e,
            op,
        ) by {
        let i = choose|i: int| 0 <= i < all.len() && (#[trigger] all[i]).0 == e;
        lemma_entity_operations(session, world, keys, all, key_field, store, arbitrary());
        lemma_entity_operation(session, world, keys, all[i].0, all[i].1, key_field, store);
        let op = prepare_commit::entity_operation(
            session,
            world,
            keys,
            all[i].0,
            all[i].1,
            key_field,
            store,
        )->Ok_0->0;
        lemma_entity_operations(session, world, keys, all, key_field, store, op);
        lemma_parts(session, world, dirty, order, keys, key_field, store, data, op);
    }
    assert forall|e: Entity| #[trigger]
        data.committed_components.dom().contains(e) <==> dirty.components.dom().contains(e)
            && exists|t: TypeId|
            dirty.components[e].contains(t) && #[trigger] writes(session, world, e, t) by {
        if dirty.components.dom().contains(e) {
            assert(same_written(session, world, e, dirty.components[e]));
        }
    }
    assert forall|e: Entity, t: TypeId|
        data.committed_components.dom().contains(e)
            && #[trigger] data.committed_components[e].contains(t) implies dirty.components[e].contains(
        t,
    ) && writes(session, world, e, t) by {
        assert(same_written(session, world, e, dirty.components[e]));
    }
    assert forall|e: Entity, t: TypeId|
        dirty.components.dom().contains(e) && dirty.components[e].contains(t)
            && #[trigger] writes(session, world, e, t) implies data.committed_components[e].contains(
        t,
    ) by {
        assert(same_written(session, world, e, dirty.components[e]));
        assert(data.committed_components.dom().contains(e));
    }
    assert forall|e: Entity| #[trigger]
        data.new_entities.contains(e) <==> data.committed_components.dom().contains(e)
            && keys.dom().contains(e) by {
        if data.committed_components.dom().contains(e) {
            let i = choose|i: int| 0 <= i < all.len() && (#[trigger] all[i]).0 == e;
            assert(all[i].1.to_set() == dirty.components[e]);
        }
    }
    assert(data.preassigned_keys.dom() =~= keys.dom());
}

/// What is written of an entity, type by type.
spec fn same_written(
    session: PersistenceSession,
    world: WorldSnapshot,
    entity: Entity,
    types: Set<TypeId>,
) -> bool {
    let written = prepare_commit::written_components(session, world, entity, types);
    &&& forall|t: TypeId| #[trigger]
        written.contains(t) <==> types.contains(t) && writes(session, world, entity, t)
    &&& written != Set::<TypeId>::empty() <==> exists|t: TypeId|
        types.contains(t) && #[trigger] writes(session, world, entity, t)
}

proof fn lemma_writes_resources(
    session: PersistenceSession,
    world: WorldSnapshot,
    dirty: DirtyModel,
    order: CommitOrder,
    keys: Map<Entity, String>,
    key_field: Seq<char>,
    store: Seq<char>,
    data: CommitModel,
)
    requires
        order.enumerates(dirty),
        prepare_commit::prepared_commit(
            session,
            world,
            dirty,
            order,
            keys,
            key_field,
            store,
        ) == Ok::<_, ErrorModel>(data),
    ensures
        writes_changed_resources(session, world, dirty, key_field, store, data),
{
    lemma_enumerated(order, dirty);
    assert forall|t: TypeId| #[trigger]
        resource_counts(session, dirty, t) <==> order.resources@.contains(t)
            && prepare_commit::considers_resource(session, dirty, t) by {
        assert(order.resources@.contains(t) == dirty.resources.contains(t));
    }
    assert forall|op: OperationModel| #[trigger]
        data.operations.contains(op) && is_write(op, DocumentKind::Resource) implies exists|
        t: TypeId,
    |
        resource_counts(session, dirty, t) && #[trigger] writes_resource(
            session,
            world,
            key_field,
            store,
            t,
            op,
        ) by {
        lemma_parts(session, world, dirty, order, keys, key_field, store, data, op);
        lemma_resource_operations(session, world, dirty, order.resources@, key_field, store, op);
        let t = choose|t: TypeId|
            order.resources@.contains(t) && prepare_commit::considers_resource(session, dirty, t)
                && #[trigger] writes_resource(session, world, key_field, store, t, op);
        assert(resource_counts(session, dirty, t));
    }
    assert forall|t: TypeId, op: OperationModel|
        resource_counts(session, dirty, t) && #[trigger] writes_resource(
            session,
            world,
            key_field,
            store,
            t,
            op,
        ) implies data.operations.contains(op) by {
        lemma_resource_operation(session, world, t, key_field, store, op);
        assert(order.resources@.contains(t));
        lemma_parts(session, world, dirty, order, keys, key_field, store, data, op);
        lemma_resource_operations(session, world, dirty, order.resources@, key_field, store, op);
    }
    assert forall|t: TypeId| #[trigger]
        data.committed_resources.contains(t) <==> resource_written(session, world, dirty, t) by {
        lemma_resource_outcome(world, t);
        match world.resource(t) {
            Outcome::Field { name, value } => {
                assert(resource_gives(world, t, name, value));
            },
            _ => {},
        }
    }
}

proof fn lemma_carries_edges(
    session: PersistenceSession,
    world: WorldSnapshot,
    dirty: DirtyModel,
    order: CommitOrder,
    keys: Map<Entity, String>,
    key_field: Seq<char>,
    store: Seq<char>,
    data: CommitModel,
)
    requires
        session.cache.edge_snapshot.wf(),
        order.enumerates(dirty),
        prepare_commit::prepared_commit(
            session,
            world,
            dirty,
            order,
            keys,
            key_field,
            store,
        ) == Ok::<_, ErrorModel>(data),
    ensures
        carries_edge_changes(session, world, dirty, keys, store, data),
        forall|i: int, j: int|
            0 <= i < j < data.operations.len() ==> stage(#[trigger] data.operations[i]) <= stage(
                #[trigger] data.operations[j],
            ),
{
    let (a, b, c, d, e) = parts_of(session, world, dirty, order, keys, key_field, store);
    let diff = edges::edge_changes(session, world.relationships@, keys, dirty)->Ok_0;
    crate::laws::edges::lemma_edge_changes(session, world.relationships@, keys, dirty);
    assert forall|op: OperationModel| #[trigger]
        data.operations.contains(op) && is_edge_operation(op) <==> (diff.upserts.len() > 0 && op
            == OperationModel::UpsertEdges { store, edges: diff.upserts }) || (diff.deletes.len()
            > 0 && op == OperationModel::DeleteEdges { store, keys: diff.deletes }) by {
        lemma_parts(session, world, dirty, order, keys, key_field, store, data, op);
        if diff.upserts.len() > 0 {
            assert(e[0] == OperationModel::UpsertEdges { store, edges: diff.upserts });
        }
        if diff.deletes.len() > 0 {
            assert(e[e.len() - 1] == OperationModel::DeleteEdges { store, keys: diff.deletes });
        }
        if e.contains(op) {
            let i = choose|i: int| 0 <= i < e.len() && e[i] == op;
            assert(i == 0 || i == e.len() - 1);
        }
    }
    lemma_parts(session, world, dirty, order, keys, key_field, store, data, arbitrary());
    lemma_entity_deletions_count(
        session,
        order.despawned_entities@,
        store,
        data.committed_despawned_entities,
    );
    lemma_resource_deletions_count(
        session,
        order.despawned_resources@,
        store,
        data.committed_despawned_resources,
    );
    lemma_resource_operations_count(
        session,
        world,
        dirty,
        order.resources@,
        key_field,
        store,
        data.committed_resources,
    );
    prepare_commit::law_commit_covers_every_entity(
        session,
        world,
        dirty,
        order,
        keys,
        key_field,
        store,
    );
    assert(data.operations.len() == a.len() + b.len() + c.len() + d.len() + e.len());
    assert(c.len() == data.committed_components.dom().len());
    assert(a.len() == data.committed_despawned_entities.len());
    assert(b.len() == data.committed_despawned_resources.len());
    assert(d.len() == data.committed_resources.len());
    assert(crate::laws::edges::edges_are_right(
        session,
        world.relationships@,
        keys,
        dirty,
        diff.upserts,
        diff.deletes,
        data.new_edge_snapshot,
    ));
    assert forall|i: int, j: int| 0 <= i < j < data.operations.len() implies stage(
        #[trigger] data.operations[i],
    ) <= stage(#[trigger] data.operations[j]) by {
        lemma_stage(a, b, c, d, e, i);
        lemma_stage(a, b, c, d, e, j);
        let l = a.len() + b.len() + c.len() + d.len();
        if i >= l {
            assert(e.len() == 2);
            assert(i - l == 0 && j - l == 1);
            assert(e[0] == OperationModel::UpsertEdges { store, edges: diff.upserts });
            assert(e[1] == OperationModel::DeleteEdges { store, keys: diff.deletes });
        }
    }
}

proof fn lemma_stage(
    a: Seq<OperationModel>,
    b: Seq<OperationModel>,
    c: Seq<OperationModel>,
    d: Seq<OperationModel>,
    e: Seq<OperationModel>,
    i: int,
)
    requires
        0 <= i < (a + b + c + d + e).len(),
        forall|i: int| 0 <= i < a.len() ==> is_deletion(#[trigger] a[i], DocumentKind::Entity),
        forall|i: int| 0 <= i < b.len() ==> is_deletion(#[trigger] b[i], DocumentKind::Resource),
        forall|i: int| 0 <= i < c.len() ==> is_write(#[trigger] c[i], DocumentKind::Entity),
        forall|i: int| 0 <= i < d.len() ==> is_write(#[trigger] d[i], DocumentKind::Resource),
        forall|i: int| 0 <= i < e.len() ==> is_edge_operation(#[trigger] e[i]),
    ensures
        stage((a + b + c + d + e)[i]) == if i < a.len() {
            0int
        } else if i < a.len() + b.len() {
            1
        } else if i < a.len() + b.len() + c.len() {
            2
        } else if i < a.len() + b.len() + c.len() + d.len() {
            3
        } else {
            stage(e[i - (a.len() + b.len() + c.len() + d.len())])
        },
        i >= a.len() + b.len() + c.len() + d.len() ==> stage((a + b + c + d + e)[i]) >= 4,
{
    let all = a + b + c + d + e;
    let n = a.len() as int;
    let m = n + b.len();
    let k = m + c.len();
    let l = k + d.len();
    if i < n {
        assert(all[i] == a[i]);
    } else if i < m {
        assert(all[i] == b[i - n]);
    } else if i < k {
        assert(all[i] == c[i - m]);
    } else if i < l {
        assert(all[i] == d[i - k]);
    } else {
        assert(all[i] == e[i - l]);
    }
}

/// A prepared commit is faithful, and nothing speaks against it.
pub proof fn lemma_faithful(
    session: PersistenceSession,
    world: WorldSnapshot,
    dirty: DirtyModel,
    order: CommitOrder,
    keys: Map<Entity, String>,
    key_field: Seq<char>,
    store: Seq<char>,
)
    requires
        session.cache.edge_snapshot.wf(),
        order.enumerates(dirty),
    ensures
        match prepare_commit::prepared_commit(
            session,
            world,
            dirty,
            order,
            keys,
            key_field,
            store,
        ) {
            Ok(data) => {
                &&& faithful(session, world, dirty, keys, key_field, store, data)
                &&& forall|e: ErrorModel| !(#[trigger] refused(session, world, dirty, store, e))
            },
            Err(e) => refused(session, world, dirty, store, e),
        },
{
    lemma_enumerated(order, dirty);
    let all = prepare_commit::entity_order(order.entities@);
    match prepare_commit::prepared_commit(
        session,
        world,
        dirty,
        order,
        keys,
        key_field,
        store,
    ) {
        Ok(data) => {
            lemma_deletes(session, world, dirty, order, keys, key_field, store, data);
            lemma_writes_entities(session, world, dirty, order, keys, key_field, store, data);
            lemma_writes_resources(session, world, dirty, order, keys, key_field, store, data);
            lemma_carries_edges(session, world, dirty, order, keys, key_field, store, data);
            crate::laws::edges::lemma_edge_changes(session, world.relationships@, keys, dirty);
            lemma_entity_operations(session, world, keys, all, key_field, store, arbitrary());
            lemma_resource_operations(
                session,
                world,
                dirty,
                order.resources@,
                key_field,
                store,
                arbitrary(),
            );
            assert forall|e: Entity, t: TypeId, error: ErrorModel|
                dirty.components.dom().contains(e) && dirty.components[e].contains(t)
                    && session.components.serializers@.contains(t) implies !(
            #[trigger] component_fails(world, e, t, error)) by {
                let i = choose|i: int| 0 <= i < all.len() && (#[trigger] all[i]).0 == e;
                lemma_entity_fields_refused(session, world, all[i].0, all[i].1);
                assert(all[i].1.to_set().contains(t));
                assert(all[i].1.contains(t));
            }
            assert forall|e: Entity, t: TypeId|
                dirty.components.dom().contains(e) && dirty.components[e].contains(t)
                    && #[trigger] writes(session, world, e, t)
                    && session.cache.entity_keys@.dom().contains(
                    e,
                ) implies session.cache.version_manager.entities@.dom().contains(
                session.cache.entity_keys@[e]@,
            ) by {
                let i = choose|i: int| 0 <= i < all.len() && (#[trigger] all[i]).0 == e;
                lemma_entity_operation(session, world, keys, all[i].0, all[i].1, key_field, store);
            }
            assert forall|t: TypeId, error: ErrorModel|
                resource_counts(session, dirty, t) implies !(#[trigger] resource_fails(
                world,
                t,
                error,
            )) by {
                lemma_resource_outcome(world, t);
                assert(order.resources@.contains(t));
            }
            assert forall|e: ErrorModel| !(#[trigger] refused(
                session,
                world,
                dirty,
                store,
                e,
            )) by {}
        },
        Err(error) => {
            if store.len() > 0 {
                lemma_entity_deletions_refused(session, order.despawned_entities@, store);
                lemma_entity_operations_refused(session, world, keys, all, key_field, store);
                lemma_resource_operations_refused(
                    session,
                    world,
                    dirty,
                    order.resources@,
                    key_field,
                    store,
                );
                crate::laws::edges::lemma_edge_changes(session, world.relationships@, keys, dirty);
                if prepare_commit::entity_deletions(
                    session,
                    order.despawned_entities@,
                    store,
                ) is Err {
                    let e = choose|e: Entity|
                        order.despawned_entities@.contains(e)
                            && #[trigger] session.cache.entity_keys@.dom().contains(e)
                            && !session.cache.version_manager.entities@.dom().contains(
                            session.cache.entity_keys@[e]@,
                        );
                    assert(dirty.despawned_entities.contains(e));
                } else if prepare_commit::entity_operations(
                    session,
                    world,
                    keys,
                    all,
                    key_field,
                    store,
                ) is Err {
                    let i = choose|i: int|
                        0 <= i < all.len() && prepare_commit::entity_operation(
                            session,
                            world,
                            keys,
                            (#[trigger] all[i]).0,
                            all[i].1,
                            key_field,
                            store,
                        ) == Err::<Option<OperationModel>, _>(error);
                    let (entity, types) = all[i];
                    lemma_entity_fields_refused(session, world, entity, types);
                    match prepare_commit::entity_fields(session, world, entity, types) {
                        Err(e) => {
                            let t = choose|t: TypeId|
                                types.contains(t) && session.components.serializers@.contains(t)
                                    && #[trigger] component_fails(world, entity, t, e);
                            assert(types.to_set().contains(t));
                        },
                        Ok(fields) => {
                            let name = choose|name: Seq<char>| fields.dom().contains(name);
                            if forall|name: Seq<char>| !fields.dom().contains(name) {
                                assert(fields =~= Map::empty());
                            }
                            lemma_entity_fields(session, world, entity, types, name);
                            let t = choose|t: TypeId|
                                types.to_set().contains(t)
                                    && session.components.serializers@.contains(t)
                                    && #[trigger] component_gives(
                                    world,
                                    entity,
                                    t,
                                    name,
                                    fields[name],
                                );
                            assert(writes(session, world, entity, t));
                        },
                    }
                } else if prepare_commit::resource_operations(
                    session,
                    world,
                    dirty,
                    order.resources@,
                    key_field,
                    store,
                ) is Err {
                    let t = choose|t: TypeId|
                        order.resources@.contains(t) && prepare_commit::considers_resource(
                            session,
                            dirty,
                            t,
                        ) && #[trigger] resource_fails(world, t, error);
                    assert(dirty.resources.contains(t));
                    assert(resource_counts(session, dirty, t));
                }
            }
        },
    }
}

/// A commit that was prepared is faithful to the changes, and one is prepared
/// exactly where nothing speaks against it.
pub proof fn law_prepared_commit_is_faithful(
    session: &PersistenceSession,
    world: &WorldSnapshot,
    dirty: &DirtyState,
    key_field: &str,
    store: &str,
    r: Result<CommitData, PersistenceError>,
)
    requires
        session.cache.edge_snapshot.wf(),
        call_ensures(
            PersistenceSession::prepare_commit,
            (session, world, dirty, key_field, store),
            r,
        ),
    ensures
        match r {
            Ok(data) => {
                &&& faithful(
                    *session,
                    *world,
                    dirty@,
                    data.preassigned_keys@,
                    key_field@,
                    store@,
                    data@,
                )
                &&& forall|e: ErrorModel| !(#[trigger] refused(*session, *world, dirty@, store@, e))
            },
            Err(e) => refused(*session, *world, dirty@, store@, e@),
        },
{
    let (order, keys) = choose|order: CommitOrder, keys: Map<Entity, String>|
        {
            &&& #[trigger] order.enumerates(dirty@)
            &&& #[trigger] prepare_commit::preassigns(*session, *world, dirty@, keys)
            &&& match r {
                Ok(data) => {
                    &&& data.new_edge_snapshot.wf()
                    &&& data.preassigned_keys@ == keys
                    &&& prepare_commit::prepared_commit(
                        *session,
                        *world,
                        dirty@,
                        order,
                        keys,
                        key_field@,
                        store@,
                    ) == Ok::<_, ErrorModel>(data@)
                },
                Err(e) => prepare_commit::prepared_commit(
                    *session,
                    *world,
                    dirty@,
                    order,
                    keys,
                    key_field@,
                    store@,
                ) == Err::<CommitModel, _>(e@),
            }
        };
    lemma_faithful(*session, *world, dirty@, order, keys, key_field@, store@);
}

/// The same of a commit prepared in a given order with given keys.
pub proof fn law_commit_prepared_in_order_is_faithful(
    session: &PersistenceSession,
    world: &WorldSnapshot,
    dirty: &DirtyState,
    order: &CommitOrder,
    keys: HashMap<Entity, String>,
    key_field: &str,
    store: &str,
    r: Result<CommitData, PersistenceError>,
)
    requires
        session.cache.edge_snapshot.wf(),
        order.enumerates(dirty@),
        call_ensures(
            PersistenceSession::prepare_commit_with_keys,
            (session, world, dirty, order, keys, key_field, store),
            r,
        ),
    ensures
        match r {
            Ok(data) => {
                &&& data.preassigned_keys@ == keys@
                &&& faithful(*session, *world, dirty@, keys@, key_field@, store@, data@)
                &&& forall|e: ErrorModel| !(#[trigger] refused(*session, *world, dirty@, store@, e))
            },
            Err(e) => refused(*session, *world, dirty@, store@, e@),
        },
{
    lemma_faithful(*session, *world, dirty@, *order, keys@, key_field@, store@);
}

/// The order of a commit lists every change exactly once.
pub proof fn law_walk_lists_every_change(dirty: &DirtyState, order: CommitOrder)
    requires
        call_ensures(DirtyState::walk, (dirty,), order),
    ensures
        forall|e: Entity| #[trigger]
            dirty.dirty_entity_components@.dom().contains(e) ==> exists|i: int|
                0 <= i < order.entities@.len() && (#[trigger] order.entities@[i]).0 == e
                    && forall|t: TypeId|
                    order.entities@[i].1@.contains(t)
                        <==> #[trigger] dirty.dirty_entity_components@[e]@.contains(t),
        forall|i: int|
            0 <= i < order.entities@.len() ==> dirty.dirty_entity_components@.dom().contains(
                (#[trigger] order.entities@[i]).0,
            ) && order.entities@[i].1@.no_duplicates(),
        forall|i: int, j: int|
            0 <= i < j < order.entities@.len() ==> (#[trigger] order.entities@[i]).0 != (
            #[trigger] order.entities@[j]).0,
        forall|e: Entity| #[trigger]
            order.despawned_entities@.contains(e) <==> dirty.despawned_entities@.contains(e),
        forall|t: TypeId| #[trigger]
            order.resources@.contains(t) <==> dirty.dirty_resources@.contains(t),
        forall|t: TypeId| #[trigger]
            order.despawned_resources@.contains(t) <==> dirty.despawned_resources@.contains(t),
        order.despawned_entities@.no_duplicates(),
        order.resources@.no_duplicates(),
        order.despawned_resources@.no_duplicates(),
{
    lemma_enumerated(order, dirty@);
    let all = prepare_commit::entity_order(order.entities@);
    assert forall|e: Entity| #[trigger]
        dirty.dirty_entity_components@.dom().contains(e) implies exists|i: int|
        0 <= i < order.entities@.len() && (#[trigger] order.entities@[i]).0 == e && forall|
            t: TypeId,
        |
            order.entities@[i].1@.contains(t)
                <==> #[trigger] dirty.dirty_entity_components@[e]@.contains(t) by {
        assert(dirty@.components.dom().contains(e));
        let i = choose|i: int| 0 <= i < all.len() && (#[trigger] all[i]).0 == e;
        assert(order.entities@[i].0 == e);
        assert forall|t: TypeId|
            order.entities@[i].1@.contains(t)
                <==> #[trigger] dirty.dirty_entity_components@[e]@.contains(t) by {
            assert(order.entities@[i].1@.to_set().contains(t) == order.entities@[i].1@.contains(t));
        }
    }
    assert forall|i: int| 0 <= i < order.entities@.len() implies dirty.dirty_entity_components@.dom().contains(
        (#[trigger] order.entities@[i]).0,
    ) && order.entities@[i].1@.no_duplicates() by {
        assert(dirty@.components.dom().contains(all[i].0));
    }
    assert forall|i: int, j: int| 0 <= i < j < order.entities@.len() implies (
    #[trigger] order.entities@[i]).0 != (#[trigger] order.entities@[j]).0 by {
        assert(all[i].0 != all[j].0);
    }
}

/// New keys go to exactly the dirty entities that have none: the GUID that the
/// entity carries where it carries one, and otherwise a random UUID of 36
/// characters without a colon.
pub proof fn law_new_entities_get_keys(
    session: &PersistenceSession,
    world: &WorldSnapshot,
    dirty: &DirtyState,
    keys: HashMap<Entity, String>,
    e: Entity,
)
    requires
        call_ensures(PersistenceSession::preassign_keys, (session, world, dirty), keys),
    ensures
        keys@.dom().contains(e) <==> dirty.dirty_entity_components@.dom().contains(e)
            && !session.cache.entity_keys@.dom().contains(e),
        keys@.dom().contains(e) && world.guids@.dom().contains(e) ==> keys@[e]@
            == world.guids@[e]@,
        keys@.dom().contains(e) && !world.guids@.dom().contains(e) ==> keys@[e]@.len() == 36
            && keys@[e]@[14] == '4' && !keys@[e]@.contains(':'),
{
    assert(dirty@.components.dom() =~= dirty.dirty_entity_components@.dom());
    if keys@.dom().contains(e) && !world.guids@.dom().contains(e) {
        prepare_commit::law_uuid_has_no_colon(keys@[e]@);
    }
}

/// The operation writes an edge with that key into the store.
pub open spec fn writes_edge(op: OperationModel, store: Seq<char>, key: Seq<char>) -> bool {
    &&& op matches OperationModel::UpsertEdges { store: to, edges } && to == store && exists|k: int|
        0 <= k < edges.len() && (#[trigger] edges[k]).key == key
}

/// The operation deletes the edge with that key.
pub open spec fn deletes_edge(op: OperationModel, key: Seq<char>) -> bool {
    &&& op matches OperationModel::DeleteEdges { keys, .. } && keys.contains(key)
}

proof fn lemma_found_edge_is_kept(
    session: PersistenceSession,
    world: WorldSnapshot,
    dirty: DirtyModel,
    keys: Map<Entity, String>,
    store: Seq<char>,
    data: CommitModel,
    edge: EdgeModel,
)
    requires
        carries_edge_changes(session, world, dirty, keys, store, data),
        crate::laws::edges::looks_at_edges(session, dirty),
        crate::laws::edges::edge_found(
            session,
            keys,
            crate::laws::edges::looked_at(dirty),
            world.relationships@,
            edge,
        ),
    ensures
        data.new_edge_snapshot.contains(edge.key),
        !session.cache.edge_snapshot@.contains(edge.key) ==> exists|op: OperationModel|
            data.operations.contains(op) && #[trigger] writes_edge(op, store, edge.key),
        forall|op: OperationModel|
            data.operations.contains(op) ==> !(#[trigger] deletes_edge(op, edge.key)),
{
    let scan = crate::laws::edges::looked_at(dirty);
    let (upserts, deletes) = choose|upserts: Seq<EdgeModel>, deletes: Seq<Seq<char>>|
        {
            &&& #[trigger] crate::laws::edges::edges_are_right(
                session,
                world.relationships@,
                keys,
                dirty,
                upserts,
                deletes,
                data.new_edge_snapshot,
            )
            &&& forall|op: OperationModel| #[trigger]
                data.operations.contains(op) && is_edge_operation(op) <==> (upserts.len() > 0 && op
                    == OperationModel::UpsertEdges { store, edges: upserts }) || (deletes.len() > 0
                    && op == OperationModel::DeleteEdges { store, keys: deletes })
        };
    assert(crate::laws::edges::key_found(
        session,
        keys,
        scan,
        world.relationships@,
        edge.key,
    ));
    if !session.cache.edge_snapshot@.contains(edge.key) {
        let k = choose|k: int| 0 <= k < upserts.len() && (#[trigger] upserts[k]).key == edge.key;
        let op = OperationModel::UpsertEdges { store, edges: upserts };
        assert(upserts[k].key == edge.key);
        assert(data.operations.contains(op) && is_edge_operation(op));
        assert(writes_edge(op, store, edge.key));
    }
    assert(!deletes.contains(edge.key));
    assert forall|op: OperationModel| data.operations.contains(op) implies !(
    #[trigger] deletes_edge(op, edge.key)) by {
        if op is DeleteEdges {
            assert(data.operations.contains(op) && is_edge_operation(op));
        }
    }
}

/// Gathering edges is complete: every edge that a registered relationship type
/// gives is in the new snapshot, is written where it was not stored, and is not
/// deleted.
pub proof fn law_found_edges_are_kept(
    session: &PersistenceSession,
    world: &WorldSnapshot,
    dirty: &DirtyState,
    key_field: &str,
    store: &str,
    data: CommitData,
    i: int,
    edge: EdgeModel,
)
    requires
        session.cache.edge_snapshot.wf(),
        call_ensures(
            PersistenceSession::prepare_commit,
            (session, world, dirty, key_field, store),
            Ok::<CommitData, PersistenceError>(data),
        ),
        crate::laws::edges::looks_at_edges(*session, dirty@),
        0 <= i < world.relationships@.len(),
        crate::laws::edges::entry_gives(
            *session,
            data.preassigned_keys@,
            crate::laws::edges::looked_at(dirty@),
            world.relationships@[i],
            edge,
        ),
    ensures
        data.new_edge_snapshot@.contains(edge.key),
        !session.cache.edge_snapshot@.contains(edge.key) ==> exists|n: int|
            0 <= n < data.operations@.len() && writes_edge(
                (#[trigger] data.operations@[n])@,
                store@,
                edge.key,
            ),
        forall|n: int|
            0 <= n < data.operations@.len() ==> !deletes_edge(
                (#[trigger] data.operations@[n])@,
                edge.key,
            ),
{
    law_prepared_commit_is_faithful(
        session,
        world,
        dirty,
        key_field,
        store,
        Ok::<CommitData, PersistenceError>(data),
    );
    assert(crate::laws::edges::edge_found(
        *session,
        data.preassigned_keys@,
        crate::laws::edges::looked_at(dirty@),
        world.relationships@,
        edge,
    ));
    lemma_found_edge_is_kept(
        *session,
        *world,
        dirty@,
        data.preassigned_keys@,
        store@,
        data@,
        edge,
    );
    lemma_found_edge_in_operations(data, store@, edge.key);
}

proof fn lemma_found_edge_in_operations(data: CommitData, store: Seq<char>, key: Seq<char>)
    ensures
        (exists|op: OperationModel|
            data@.operations.contains(op) && #[trigger] writes_edge(op, store, key)) ==> exists|
            n: int,
        |
            0 <= n < data.operations@.len() && writes_edge(
                (#[trigger] data.operations@[n])@,
                store,
                key,
            ),
        (forall|op: OperationModel|
            data@.operations.contains(op) ==> !(#[trigger] deletes_edge(op, key))) ==> forall|n: int|
            0 <= n < data.operations@.len() ==> !deletes_edge((#[trigger] data.operations@[n])@, key),
{
    let ops = data@.operations;
    if exists|op: OperationModel| ops.contains(op) && #[trigger] writes_edge(op, store, key) {
        let op = choose|op: OperationModel|
            ops.contains(op) && #[trigger] writes_edge(op, store, key);
        let n = choose|n: int| 0 <= n < ops.len() && ops[n] == op;
        assert(data.operations@[n]@ == op);
    }
    assert forall|n: int| 0 <= n < data.operations@.len() implies ops.contains(
        (#[trigger] data.operations@[n])@,
    ) by {
        assert(ops[n] == data.operations@[n]@);
    }
}

/// Every changed resource that is registered, present and not removed is written,
/// and counted as committed.
pub proof fn law_changed_resources_are_written(
    session: &PersistenceSession,
    world: &WorldSnapshot,
    dirty: &DirtyState,
    key_field: &str,
    store: &str,
    data: CommitData,
    type_id: TypeId,
)
    requires
        session.cache.edge_snapshot.wf(),
        call_ensures(
            PersistenceSession::prepare_commit,
            (session, world, dirty, key_field, store),
            Ok::<CommitData, PersistenceError>(data),
        ),
        dirty.dirty_resources@.contains(type_id),
        !dirty.despawned_resources@.contains(type_id),
        session.resources.serializers@.contains(type_id),
        world.resources@.dom().contains(type_id),
        world.resources@[type_id] matches Ok(Some(_)),
    ensures
        data.committed_dirty_resources@.contains(type_id),
        exists|n: int|
            0 <= n < data.operations@.len() && writes_resource(
                *session,
                *world,
                key_field@,
                store@,
                type_id,
                (#[trigger] data.operations@[n])@,
            ),
{
    law_prepared_commit_is_faithful(
        session,
        world,
        dirty,
        key_field,
        store,
        Ok::<CommitData, PersistenceError>(data),
    );
    let ops = data@.operations;
    let (given_name, given) = world.resources@[type_id]->Ok_0->0;
    let name = given_name@;
    let value = given@;
    let versions = session.cache.version_manager.resources@;
    assert(resource_gives(*world, type_id, name, value));
    assert(resource_written(*session, *world, dirty@, type_id));
    assert(data@.committed_resources.contains(type_id));
    let op = if versions.dom().contains(type_id) {
        OperationModel::Update {
            store: store@,
            kind: DocumentKind::Resource,
            key: name,
            expected: versions[type_id],
            patch: resource_document(value, (versions[type_id] + 1) as u64, None),
        }
    } else {
        OperationModel::Create {
            store: store@,
            kind: DocumentKind::Resource,
            data: resource_document(value, 1, Some((key_field@, name))),
        }
    };
    assert(writes_resource(*session, *world, key_field@, store@, type_id, op));
    assert(ops.contains(op));
    let n = choose|n: int| 0 <= n < ops.len() && ops[n] == op;
    assert(data.operations@[n]@ == op);
}

/// Every deletion of a commit expects exactly the version that the session knows
/// of the document, and the stored document of every despawned entity is deleted.
pub proof fn law_deletions_expect_the_known_version(
    session: &PersistenceSession,
    world: &WorldSnapshot,
    dirty: &DirtyState,
    key_field: &str,
    store: &str,
    data: CommitData,
)
    requires
        session.cache.edge_snapshot.wf(),
        call_ensures(
            PersistenceSession::prepare_commit,
            (session, world, dirty, key_field, store),
            Ok::<CommitData, PersistenceError>(data),
        ),
    ensures
        forall|n: int|
            0 <= n < data.operations@.len() ==> match #[trigger] data.operations@[n] {
                TransactionOperation::DeleteDocument {
                    store: to,
                    kind: DocumentKind::Entity,
                    key,
                    expected_current_version,
                } => {
                    &&& to@ == store@
                    &&& session.cache.version_manager.entities@.dom().contains(key@)
                    &&& expected_current_version == session.cache.version_manager.entities@[key@]
                    &&& exists|e: Entity|
                        dirty.despawned_entities@.contains(e)
                            && #[trigger] session.cache.entity_keys@.dom().contains(e)
                            && session.cache.entity_keys@[e]@ == key@
                },
                TransactionOperation::DeleteDocument {
                    store: to,
                    kind: DocumentKind::Resource,
                    key,
                    expected_current_version,
                } => {
                    &&& to@ == store@
                    &&& exists|t: TypeId|
                        dirty.despawned_resources@.contains(t)
                            && #[trigger] session.cache.version_manager.resources@.dom().contains(t)
                            && expected_current_version
                            == session.cache.version_manager.resources@[t]
                            && session.resources.names.type_id_to_name@.dom().contains(t)
                            && session.resources.names.type_id_to_name@[t]@ == key@
                },
                _ => true,
            },
        forall|e: Entity|
            dirty.despawned_entities@.contains(e)
                && #[trigger] session.cache.entity_keys@.dom().contains(e) ==> exists|n: int|
                0 <= n < data.operations@.len() && deletes_entity(
                    *session,
                    store@,
                    e,
                    (#[trigger] data.operations@[n])@,
                ),
{
    law_prepared_commit_is_faithful(
        session,
        world,
        dirty,
        key_field,
        store,
        Ok::<CommitData, PersistenceError>(data),
    );
    let ops = data@.operations;
    assert forall|n: int| 0 <= n < ops.len() implies ops.contains(#[trigger] data.operations@[n]@)
        && ops[n] == data.operations@[n]@ by {
        assert(ops[n] == data.operations@[n]@);
    }
    assert forall|e: Entity|
        dirty.despawned_entities@.contains(e)
            && #[trigger] session.cache.entity_keys@.dom().contains(e) implies exists|n: int|
        0 <= n < data.operations@.len() && deletes_entity(
            *session,
            store@,
            e,
            (#[trigger] data.operations@[n])@,
        ) by {
        let key = session.cache.entity_keys@[e]@;
        let op = OperationModel::Delete {
            store: store@,
            kind: DocumentKind::Entity,
            key,
            expected: session.cache.version_manager.entities@[key],
        };
        assert(dirty@.despawned_entities.contains(e));
        assert(deletes_entity(*session, store@, e, op));
        assert(ops.contains(op));
        let n = choose|n: int| 0 <= n < ops.len() && ops[n] == op;
        assert(data.operations@[n]@ == op);
    }
    assert forall|n: int| 0 <= n < data.operations@.len() implies match #[trigger] data.operations@[n] {
        TransactionOperation::DeleteDocument {
            store: to,
            kind: DocumentKind::Entity,
            key,
            expected_current_version,
        } => {
            &&& to@ == store@
            &&& session.cache.version_manager.entities@.dom().contains(key@)
            &&& expected_current_version == session.cache.version_manager.entities@[key@]
            &&& exists|e: Entity|
                dirty.despawned_entities@.contains(e)
                    && #[trigger] session.cache.entity_keys@.dom().contains(e)
                    && session.cache.entity_keys@[e]@ == key@
        },
        TransactionOperation::DeleteDocument {
            store: to,
            kind: DocumentKind::Resource,
            key,
            expected_current_version,
        } => {
            &&& to@ == store@
            &&& exists|t: TypeId|
                dirty.despawned_resources@.contains(t)
                    && #[trigger] session.cache.version_manager.resources@.dom().contains(t)
                    && expected_current_version == session.cache.version_manager.resources@[t]
                    && session.resources.names.type_id_to_name@.dom().contains(t)
                    && session.resources.names.type_id_to_name@[t]@ == key@
        },
        _ => true,
    } by {
        let op = data.operations@[n]@;
        assert(ops.contains(op));
        if is_deletion(op, DocumentKind::Entity) {
            let e = choose|e: Entity|
                dirty@.despawned_entities.contains(e) && #[trigger] deletes_entity(
                    *session,
                    store@,
                    e,
                    op,
                );
            assert(session.cache.entity_keys@.dom().contains(e));
        }
        if is_deletion(op, DocumentKind::Resource) {
            let t = choose|t: TypeId|
                dirty@.despawned_resources.contains(t) && #[trigger] deletes_resource(
                    *session,
                    store@,
                    t,
                    op,
                );
            assert(session.cache.version_manager.resources@.dom().contains(t));
        }
    }
}

/// The versions that a commit counts up can be counted up exactly where none of
/// those of the written entities and resources is at the limit.
pub proof fn law_versions_advance_below_the_limit(
    session: &PersistenceSession,
    world: &WorldSnapshot,
    order: &CommitOrder,
    dirty: &DirtyState,
    b: bool,
)
    requires
        call_ensures(
            PersistenceSession::versions_can_advance,
            (session, world, order, dirty),
            b,
        ),
    ensures
        b <==> (forall|e: Entity, t: TypeId|
            dirty.dirty_entity_components@.dom().contains(e)
                && dirty.dirty_entity_components@[e]@.contains(t) && #[trigger] writes(
                *session,
                *world,
                e,
                t,
            ) ==> !at_limit(*session, e)) && (forall|t: TypeId| #[trigger]
            resource_written(*session, *world, dirty@, t)
                && session.cache.version_manager.resources@.dom().contains(t)
                ==> session.cache.version_manager.resources@[t] < u64::MAX),
{
    let d = dirty@.components;
    let committed = prepare_commit::committed_components(*session, *world, d);
    assert forall|e: Entity| at_limit(*session, e)
        == !prepare_commit::entity_version_fits(*session, e) by {}
    assert(d.dom() =~= dirty.dirty_entity_components@.dom());
    assert forall|e: Entity| #[trigger] committed.dom().contains(e) <==> d.dom().contains(e)
        && exists|t: TypeId| d[e].contains(t) && #[trigger] writes(*session, *world, e, t) by {
        if d.dom().contains(e) {
            lemma_written(*session, *world, e, d[e]);
        }
    }
    assert forall|t: TypeId|
        #![trigger resource_written(*session, *world, dirty@, t)]
        #![trigger prepare_commit::committed_resources(*session, *world, dirty@).contains(t)]
        prepare_commit::committed_resources(*session, *world, dirty@).contains(t)
            == resource_written(*session, *world, dirty@, t) by {
        lemma_resource_outcome(*world, t);
        match world.resource(t) {
            Outcome::Field { name, value } => {
                assert(resource_gives(*world, t, name, value));
            },
            _ => {},
        }
    }
    if b {
        assert forall|e: Entity, t: TypeId|
            dirty.dirty_entity_components@.dom().contains(e)
                && dirty.dirty_entity_components@[e]@.contains(t) && #[trigger] writes(
                *session,
                *world,
                e,
                t,
            ) implies !at_limit(*session, e) by {
            assert(d[e].contains(t));
            assert(committed.dom().contains(e));
        }
        assert forall|t: TypeId| #[trigger]
            resource_written(*session, *world, dirty@, t)
                && session.cache.version_manager.resources@.dom().contains(
                t,
            ) implies session.cache.version_manager.resources@[t] < u64::MAX by {
            assert(session.cache.version_manager@.resource(t) == Some(
                session.cache.version_manager.resources@[t],
            ));
        }
    } else {
        if forall|e: Entity| #[trigger]
            committed.dom().contains(e) ==> prepare_commit::entity_version_fits(*session, e) {
            let t = choose|t: TypeId| #[trigger]
                prepare_commit::committed_resources(*session, *world, dirty@).contains(t)
                    && session.cache.version_manager@.resource(t) == Some(u64::MAX);
            assert(resource_written(*session, *world, dirty@, t));
        } else {
            let e = choose|e: Entity| #[trigger]
                committed.dom().contains(e) && !prepare_commit::entity_version_fits(*session, e);
            let t = choose|t: TypeId| d[e].contains(t) && #[trigger] writes(*session, *world, e, t);
            assert(dirty.dirty_entity_components@[e]@.contains(t));
            assert(at_limit(*session, e));
        }
    }
}

/// The version of the entity's document cannot be counted up.
pub open spec fn at_limit(session: PersistenceSession, entity: Entity) -> bool {
    &&& session.cache.entity_keys@.dom().contains(entity)
    &&& session.cache.version_manager.entities@.dom().contains(
        session.cache.entity_keys@[entity]@,
    )
    &&& session.cache.version_manager.entities@[session.cache.entity_keys@[entity]@] == u64::MAX
}

/// A serializer gives the field under its name, nothing where the world has none,
/// and an error with the message of what went wrong.
pub proof fn law_serializer_gives_the_field(
    name: &str,
    encoded: Option<Result<Value, CompactError>>,
    r: Result<Option<(String, Value)>, PersistenceError>,
)
    requires
        call_ensures(prepare_commit::serialized_field, (name, encoded), r),
    ensures
        match encoded {
            None => r is Ok && r->Ok_0 is None,
            Some(Ok(value)) => match r {
                Ok(Some((n, v))) => n@ == name@ && v@ == value@,
                _ => false,
            },
            Some(Err(e)) => r is Err && r->Err_0@ == ErrorModel::General(e@),
        },
{
}

} // verus!
