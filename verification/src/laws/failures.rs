//! Which failure a commit reports that cannot be prepared.
use std::collections::HashMap;

use vstd::prelude::*;
use vstd::string::*;

use crate::db::connection::{ErrorModel, PersistenceError};
use crate::laws::edges::entry_fails;
use crate::laws::prepare;
use crate::session::edges;
use crate::session::edges::RelationshipScan;
use crate::session::prepare_commit;
use crate::session::prepare_commit::{CommitData, CommitOrder, Outcome, WorldSnapshot};
use crate::session::state::PersistenceSession;
use crate::session::tracking::{DirtyModel, DirtyState};
use crate::session::{Entity, TypeId};
use crate::value::Json;

verus! {

/// The stored document of the entity has no known version.
pub open spec fn lacks_version(session: PersistenceSession, entity: Entity) -> bool {
    &&& session.cache.entity_keys@.dom().contains(entity)
    &&& !session.cache.version_manager.entities@.dom().contains(
        session.cache.entity_keys@[entity]@,
    )
}

/// A registered component of the entity could not be serialised.
pub open spec fn refuses_component(
    session: PersistenceSession,
    world: WorldSnapshot,
    entity: Entity,
    component: TypeId,
    error: ErrorModel,
) -> bool {
    &&& session.components.serializers@.contains(component)
    &&& prepare::component_fails(world, entity, component, error)
}

/// The first component in the list that could not be serialised failed with that
/// error.
pub open spec fn first_component(
    session: PersistenceSession,
    world: WorldSnapshot,
    entity: Entity,
    types: Seq<TypeId>,
    j: int,
    error: ErrorModel,
) -> bool {
    &&& 0 <= j < types.len()
    &&& refuses_component(session, world, entity, types[j], error)
    &&& forall|k: int, e: ErrorModel|
        0 <= k < j ==> !(#[trigger] refuses_component(session, world, entity, types[k], e))
}

/// An entity cannot be written: a component of it could not be serialised, and the
/// first such failure counts; or all could, there is something to write, and its
/// stored document has no known version.
pub open spec fn refuses_entity(
    session: PersistenceSession,
    world: WorldSnapshot,
    entity: Entity,
    types: Seq<TypeId>,
    error: ErrorModel,
) -> bool {
    ||| exists|j: int| #[trigger] first_component(session, world, entity, types, j, error)
    ||| {
        &&& error == ErrorModel::General("Missing version for update"@)
        &&& lacks_version(session, entity)
        &&& forall|k: int, e: ErrorModel|
            0 <= k < types.len() ==> !(#[trigger] refuses_component(
                session,
                world,
                entity,
                types[k],
                e,
            ))
        &&& exists|k: int|
            0 <= k < types.len() && prepare::writes(session, world, entity, #[trigger] types[k])
    }
}

/// The first entity in the order that cannot be written gives that error.
pub open spec fn first_entity(
    session: PersistenceSession,
    world: WorldSnapshot,
    order: Seq<(Entity, Seq<TypeId>)>,
    i: int,
    error: ErrorModel,
) -> bool {
    &&& 0 <= i < order.len()
    &&& refuses_entity(session, world, order[i].0, order[i].1, error)
    &&& forall|k: int, e: ErrorModel|
        0 <= k < i ==> !(#[trigger] refuses_entity(session, world, order[k].0, order[k].1, e))
}

/// A resource that is to be written could not be serialised.
pub open spec fn refuses_resource(
    session: PersistenceSession,
    world: WorldSnapshot,
    dirty: DirtyModel,
    type_id: TypeId,
    error: ErrorModel,
) -> bool {
    &&& !dirty.despawned_resources.contains(type_id)
    &&& session.resources.serializers@.contains(type_id)
    &&& prepare::resource_fails(world, type_id, error)
}

/// The first resource in the order that could not be serialised gives that error.
pub open spec fn first_resource(
    session: PersistenceSession,
    world: WorldSnapshot,
    dirty: DirtyModel,
    order: Seq<TypeId>,
    i: int,
    error: ErrorModel,
) -> bool {
    &&& 0 <= i < order.len()
    &&& refuses_resource(session, world, dirty, order[i], error)
    &&& forall|k: int, e: ErrorModel|
        0 <= k < i ==> !(#[trigger] refuses_resource(session, world, dirty, order[k], e))
}

/// The first registered relationship type that could not be serialised gives that
/// error.
pub open spec fn first_relationship(
    session: PersistenceSession,
    relationships: Seq<(TypeId, RelationshipScan)>,
    i: int,
    error: ErrorModel,
) -> bool {
    &&& 0 <= i < relationships.len()
    &&& entry_fails(session, relationships[i], error)
    &&& forall|k: int, e: ErrorModel|
        0 <= k < i ==> !(#[trigger] entry_fails(session, relationships[k], e))
}

/// No entity in the order is refused.
pub open spec fn entities_pass(
    session: PersistenceSession,
    world: WorldSnapshot,
    order: Seq<(Entity, Seq<TypeId>)>,
) -> bool {
    forall|k: int, e: ErrorModel|
        0 <= k < order.len() ==> !(#[trigger] refuses_entity(
            session,
            world,
            order[k].0,
            order[k].1,
            e,
        ))
}

/// No resource in the order is refused.
pub open spec fn resources_pass(
    session: PersistenceSession,
    world: WorldSnapshot,
    dirty: DirtyModel,
    order: Seq<TypeId>,
) -> bool {
    forall|k: int, e: ErrorModel|
        0 <= k < order.len() ==> !(#[trigger] refuses_resource(session, world, dirty, order[k], e))
}

proof fn lemma_deletions(session: PersistenceSession, order: Seq<Entity>, store: Seq<char>)
    ensures
        match prepare_commit::entity_deletions(session, order, store) {
            Ok(_) => forall|k: int| 0 <= k < order.len() ==> !lacks_version(
                session,
                #[trigger] order[k],
            ),
            Err(e) => e == ErrorModel::General("Missing version for deletion"@) && exists|k: int|
                0 <= k < order.len() && lacks_version(session, #[trigger] order[k]),
        },
    decreases order.len(),
{
    if order.len() > 0 {
        let head = order.drop_last();
        let n = order.len() - 1;
        lemma_deletions(session, head, store);
        assert(order[n] == order.last());
        assert forall|k: int| 0 <= k < n implies head[k] == #[trigger] order[k] by {}
        match prepare_commit::entity_deletions(session, head, store) {
            Err(_) => {
                let k = choose|k: int|
                    0 <= k < head.len() && lacks_version(session, #[trigger] head[k]);
                assert(lacks_version(session, order[k]));
            },
            Ok(_) => {
                if prepare_commit::entity_deletions(session, order, store) is Err {
                    assert(lacks_version(session, order[n]));
                } else {
                    assert(!lacks_version(session, order[n]));
                }
            },
        }
    }
}

proof fn lemma_fields(
    session: PersistenceSession,
    world: WorldSnapshot,
    entity: Entity,
    types: Seq<TypeId>,
)
    ensures
        match prepare_commit::entity_fields(session, world, entity, types) {
            Ok(fields) => {
                &&& forall|k: int, e: ErrorModel|
                    0 <= k < types.len() ==> !(#[trigger] refuses_component(
                        session,
                        world,
                        entity,
                        types[k],
                        e,
                    ))
                &&& fields != Map::<Seq<char>, Json>::empty() <==> exists|k: int|
                    0 <= k < types.len() && prepare::writes(
                        session,
                        world,
                        entity,
                        #[trigger] types[k],
                    )
            },
            Err(e) => exists|j: int| #[trigger]
                first_component(session, world, entity, types, j, e),
        },
    decreases types.len(),
{
    if types.len() > 0 {
        let head = types.drop_last();
        let n = types.len() - 1;
        let last = types.last();
        lemma_fields(session, world, entity, head);
        prepare::lemma_outcome(world, entity, last);
        prepare::lemma_writes(session, world, entity, last);
        assert(types[n] == last);
        assert forall|k: int| 0 <= k < n implies head[k] == #[trigger] types[k] by {}
        match prepare_commit::entity_fields(session, world, entity, head) {
            Err(e) => {
                let j = choose|j: int| #[trigger]
                    first_component(session, world, entity, head, j, e);
                assert forall|k: int, x: ErrorModel| 0 <= k < j implies !(
                #[trigger] refuses_component(session, world, entity, types[k], x)) by {
                    assert(!refuses_component(session, world, entity, head[k], x));
                }
                assert(first_component(session, world, entity, types, j, e));
            },
            Ok(fields) => {
                assert forall|k: int, x: ErrorModel| 0 <= k < n implies !(
                #[trigger] refuses_component(session, world, entity, types[k], x)) by {
                    assert(!refuses_component(session, world, entity, head[k], x));
                }
                if fields != Map::<Seq<char>, Json>::empty() {
                    let k = choose|k: int|
                        0 <= k < head.len() && prepare::writes(
                            session,
                            world,
                            entity,
                            #[trigger] head[k],
                        );
                    assert(prepare::writes(session, world, entity, types[k]));
                } else {
                    assert forall|k: int| 0 <= k < n implies !prepare::writes(
                        session,
                        world,
                        entity,
                        #[trigger] types[k],
                    ) by {
                        assert(!prepare::writes(session, world, entity, head[k]));
                    }
                }
                if session.components.serializers@.contains(last) {
                    match world.component(entity, last) {
                        Outcome::Failed(e) => {
                            assert(refuses_component(session, world, entity, types[n], e));
                            assert(first_component(session, world, entity, types, n, e));
                        },
                        Outcome::Field { name, value } => {
                            assert(fields.insert(name, value).dom().contains(name));
                            assert(prepare::writes(session, world, entity, types[n]));
                        },
                        Outcome::Absent => {},
                    }
                }
            },
        }
    }
}

proof fn lemma_entity(
    session: PersistenceSession,
    world: WorldSnapshot,
    keys: Map<Entity, String>,
    entity: Entity,
    types: Seq<TypeId>,
    key_field: Seq<char>,
    store: Seq<char>,
)
    ensures
        match prepare_commit::entity_operation(
            session,
            world,
            keys,
            entity,
            types,
            key_field,
            store,
        ) {
            Ok(_) => forall|e: ErrorModel|
                !(#[trigger] refuses_entity(session, world, entity, types, e)),
            Err(e) => refuses_entity(session, world, entity, types, e),
        },
{
    lemma_fields(session, world, entity, types);
    match prepare_commit::entity_fields(session, world, entity, types) {
        Ok(_) => {
            assert forall|j: int, e: ErrorModel| !(#[trigger] first_component(
                session,
                world,
                entity,
                types,
                j,
                e,
            )) by {
                if 0 <= j < types.len() {
                    assert(!refuses_component(session, world, entity, types[j], e));
                }
            }
        },
        Err(_) => {},
    }
}

proof fn lemma_entities(
    session: PersistenceSession,
    world: WorldSnapshot,
    keys: Map<Entity, String>,
    order: Seq<(Entity, Seq<TypeId>)>,
    key_field: Seq<char>,
    store: Seq<char>,
)
    ensures
        match prepare_commit::entity_operations(session, world, keys, order, key_field, store) {
            Ok(_) => entities_pass(session, world, order),
            Err(e) => exists|i: int| #[trigger] first_entity(session, world, order, i, e),
        },
    decreases order.len(),
{
    if order.len() > 0 {
        let head = order.drop_last();
        let n = order.len() - 1;
        lemma_entities(session, world, keys, head, key_field, store);
        lemma_entity(session, world, keys, order.last().0, order.last().1, key_field, store);
        assert(order[n] == order.last());
        assert forall|k: int| 0 <= k < n implies head[k] == #[trigger] order[k] by {}
        match prepare_commit::entity_operations(session, world, keys, head, key_field, store) {
            Err(e) => {
                let i = choose|i: int| #[trigger] first_entity(session, world, head, i, e);
                assert forall|k: int, x: ErrorModel| 0 <= k < i implies !(#[trigger] refuses_entity(
                    session,
                    world,
                    order[k].0,
                    order[k].1,
                    x,
                )) by {
                    assert(!refuses_entity(session, world, head[k].0, head[k].1, x));
                }
                assert(first_entity(session, world, order, i, e));
            },
            Ok(_) => {
                assert forall|k: int, x: ErrorModel| 0 <= k < n implies !(#[trigger] refuses_entity(
                    session,
                    world,
                    order[k].0,
                    order[k].1,
                    x,
                )) by {
                    assert(!refuses_entity(session, world, head[k].0, head[k].1, x));
                }
                match prepare_commit::entity_operations(
                    session,
                    world,
                    keys,
                    order,
                    key_field,
                    store,
                ) {
                    Err(e) => {
                        assert(first_entity(session, world, order, n, e));
                    },
                    Ok(_) => {},
                }
            },
        }
    }
}

proof fn lemma_resources(
    session: PersistenceSession,
    world: WorldSnapshot,
    dirty: DirtyModel,
    order: Seq<TypeId>,
    key_field: Seq<char>,
    store: Seq<char>,
)
    ensures
        match prepare_commit::resource_operations(
            session,
            world,
            dirty,
            order,
            key_field,
            store,
        ) {
            Ok(_) => resources_pass(session, world, dirty, order),
            Err(e) => exists|i: int| #[trigger]
                first_resource(session, world, dirty, order, i, e),
        },
    decreases order.len(),
{
    if order.len() > 0 {
        let head = order.drop_last();
        let n = order.len() - 1;
        lemma_resources(session, world, dirty, head, key_field, store);
        prepare::lemma_resource_outcome(world, order.last());
        assert(order[n] == order.last());
        assert forall|k: int| 0 <= k < n implies head[k] == #[trigger] order[k] by {}
        match prepare_commit::resource_operations(session, world, dirty, head, key_field, store) {
            Err(e) => {
                let i = choose|i: int| #[trigger]
                    first_resource(session, world, dirty, head, i, e);
                assert forall|k: int, x: ErrorModel| 0 <= k < i implies !(
                #[trigger] refuses_resource(session, world, dirty, order[k], x)) by {
                    assert(!refuses_resource(session, world, dirty, head[k], x));
                }
                assert(first_resource(session, world, dirty, order, i, e));
            },
            Ok(_) => {
                assert forall|k: int, x: ErrorModel| 0 <= k < n implies !(
                #[trigger] refuses_resource(session, world, dirty, order[k], x)) by {
                    assert(!refuses_resource(session, world, dirty, head[k], x));
                }
                match world.resource(order.last()) {
                    Outcome::Failed(e) => {
                        if prepare_commit::considers_resource(session, dirty, order.last()) {
                            assert(refuses_resource(session, world, dirty, order[n], e));
                            assert(first_resource(session, world, dirty, order, n, e));
                        }
                    },
                    _ => {},
                }
            },
        }
    }
}

proof fn lemma_relationships(
    session: PersistenceSession,
    keys: Map<Entity, String>,
    scan: Set<Entity>,
    relationships: Seq<(TypeId, RelationshipScan)>,
)
    ensures
        match edges::scanned_edges(session, keys, scan, relationships) {
            Ok(_) => forall|k: int, e: ErrorModel|
                0 <= k < relationships.len() ==> !(#[trigger] entry_fails(
                    session,
                    relationships[k],
                    e,
                )),
            Err(e) => exists|i: int| #[trigger] first_relationship(session, relationships, i, e),
        },
    decreases relationships.len(),
{
    if relationships.len() > 0 {
        let head = relationships.drop_last();
        let n = relationships.len() - 1;
        lemma_relationships(session, keys, scan, head);
        assert(relationships[n] == relationships.last());
        assert forall|k: int| 0 <= k < n implies head[k] == #[trigger] relationships[k] by {}
        match edges::scanned_edges(session, keys, scan, head) {
            Err(e) => {
                let i = choose|i: int| #[trigger] first_relationship(session, head, i, e);
                assert forall|k: int, x: ErrorModel| 0 <= k < i implies !(#[trigger] entry_fails(
                    session,
                    relationships[k],
                    x,
                )) by {
                    assert(!entry_fails(session, head[k], x));
                }
                assert(first_relationship(session, relationships, i, e));
            },
            Ok(_) => {
                assert forall|k: int, x: ErrorModel| 0 <= k < n implies !(#[trigger] entry_fails(
                    session,
                    relationships[k],
                    x,
                )) by {
                    assert(!entry_fails(session, head[k], x));
                }
                match edges::scanned_edges(session, keys, scan, relationships) {
                    Err(e) => {
                        assert(entry_fails(session, relationships[n], e));
                        assert(first_relationship(session, relationships, n, e));
                    },
                    Ok(_) => {},
                }
            },
        }
    }
}

/// The error of a commit that cannot be prepared is that of the first failure: of
/// the deletions, then of the entities in their order, then of the resources in
/// theirs, then of the relationship types in theirs. A missing store comes before
/// all of them.
pub proof fn law_first_failure_counts(
    session: &PersistenceSession,
    world: &WorldSnapshot,
    dirty: &DirtyState,
    order: &CommitOrder,
    keys: HashMap<Entity, String>,
    key_field: &str,
    store: &str,
    error: PersistenceError,
)
    requires
        call_ensures(
            PersistenceSession::prepare_commit_with_keys,
            (session, world, dirty, order, keys, key_field, store),
            Err::<CommitData, PersistenceError>(error),
        ),
    ensures
        ({
            let entities = Seq::new(
                order.entities@.len(),
                |i: int| (order.entities@[i].0, order.entities@[i].1@),
            );
            let deletions_fail = exists|k: int|
                0 <= k < order.despawned_entities@.len() && lacks_version(
                    *session,
                    #[trigger] order.despawned_entities@[k],
                );
            if store@.len() == 0 {
                error@ == ErrorModel::General("store must be provided for commit"@)
            } else if deletions_fail {
                error@ == ErrorModel::General("Missing version for deletion"@)
            } else if !entities_pass(*session, *world, entities) {
                exists|i: int| #[trigger] first_entity(*session, *world, entities, i, error@)
            } else if !resources_pass(*session, *world, dirty@, order.resources@) {
                exists|i: int| #[trigger]
                    first_resource(*session, *world, dirty@, order.resources@, i, error@)
            } else {
                exists|i: int| #[trigger]
                    first_relationship(*session, world.relationships@, i, error@)
            }
        }),
{
    let entities = Seq::new(
        order.entities@.len(),
        |i: int| (order.entities@[i].0, order.entities@[i].1@),
    );
    assert(entities =~= prepare_commit::entity_order(order.entities@));
    lemma_deletions(*session, order.despawned_entities@, store@);
    lemma_entities(*session, *world, keys@, entities, key_field@, store@);
    lemma_resources(*session, *world, dirty@, order.resources@, key_field@, store@);
    lemma_relationships(
        *session,
        keys@,
        edges::scan_sources(dirty@),
        world.relationships@,
    );
    lemma_first_entity(*session, *world, entities);
    lemma_first_resource(*session, *world, dirty@, order.resources@);
}

/// Where no entity is refused, none is the first.
proof fn lemma_first_entity(
    session: PersistenceSession,
    world: WorldSnapshot,
    order: Seq<(Entity, Seq<TypeId>)>,
)
    ensures
        entities_pass(session, world, order) ==> forall|i: int, e: ErrorModel|
            !(#[trigger] first_entity(session, world, order, i, e)),
{
}

/// Where no resource is refused, none is the first.
proof fn lemma_first_resource(
    session: PersistenceSession,
    world: WorldSnapshot,
    dirty: DirtyModel,
    order: Seq<TypeId>,
)
    ensures
        resources_pass(session, world, dirty, order) ==> forall|i: int, e: ErrorModel|
            !(#[trigger] first_resource(session, world, dirty, order, i, e)),
{
}

} // verus!
