//! Change tracking and registration.
use std::collections::{HashMap, HashSet};

use vstd::prelude::*;
use vstd::string::*;

use crate::laws::commit;
use crate::plugin::tracking::{
    auto_despawn_tracking_resource_system, auto_despawn_tracking_system,
    auto_dirty_tracking_entity_system, auto_dirty_tracking_relationship_system,
    auto_dirty_tracking_resource_system,
};
use crate::session::registries::TypeNames;
use crate::session::state::PersistenceSession;
use crate::session::tracking::DirtyState;
use crate::session::{Entity, TypeId};

verus! {

/// The state has the component of the entity down as changed.
pub open spec fn has_component(state: DirtyState, entity: Entity, component: TypeId) -> bool {
    &&& state.dirty_entity_components@.dom().contains(entity)
    &&& state.dirty_entity_components@[entity]@.contains(component)
}

/// Nothing but the marked components differs.
pub open spec fn only_components_differ(before: DirtyState, after: DirtyState) -> bool {
    &&& after.despawned_entities@ == before.despawned_entities@
    &&& after.dirty_resources@ == before.dirty_resources@
    &&& after.despawned_resources@ == before.despawned_resources@
    &&& after.dirty_relationship_entities@ == before.dirty_relationship_entities@
}

/// The same components are marked.
pub open spec fn same_components(before: DirtyState, after: DirtyState) -> bool {
    &&& after.dirty_entity_components@.dom() == before.dirty_entity_components@.dom()
    &&& forall|e: Entity, t: TypeId| #[trigger]
        has_component(after, e, t) <==> has_component(before, e, t)
}

/// Exactly one component is marked in addition.
pub open spec fn component_was_marked(
    before: DirtyState,
    entity: Entity,
    component: TypeId,
    after: DirtyState,
) -> bool {
    &&& only_components_differ(before, after)
    &&& after.dirty_entity_components@.dom() == before.dirty_entity_components@.dom().insert(entity)
    &&& forall|e: Entity, t: TypeId| #[trigger]
        has_component(after, e, t) <==> has_component(before, e, t) || (e == entity && t
            == component)
}

/// The session is as before but for what it tracks.
pub open spec fn rest_is_same(before: PersistenceSession, after: PersistenceSession) -> bool {
    after == (PersistenceSession { tracking: after.tracking, ..before })
}

proof fn lemma_has_component(state: DirtyState)
    ensures
        state@.components.dom() == state.dirty_entity_components@.dom(),
        forall|e: Entity, t: TypeId| #[trigger]
            has_component(state, e, t) <==> state@.components.dom().contains(e)
                && state@.components[e].contains(t),
{
    assert(state@.components.dom() =~= state.dirty_entity_components@.dom());
}

proof fn lemma_marked(before: DirtyState, entity: Entity, component: TypeId, after: DirtyState)
    requires
        after@ == before@.mark_component(entity, component),
    ensures
        component_was_marked(before, entity, component, after),
{
    lemma_has_component(before);
    lemma_has_component(after);
    assert(after.dirty_entity_components@.dom() =~= before.dirty_entity_components@.dom().insert(
        entity,
    ));
}

proof fn lemma_unmarked(before: DirtyState, after: DirtyState)
    requires
        after@ == before@,
    ensures
        same_components(before, after),
        only_components_differ(before, after),
{
    lemma_has_component(before);
    lemma_has_component(after);
}

/// Marking a component marks that one and no other.
pub proof fn law_component_is_marked(
    session: &mut PersistenceSession,
    state: &mut DirtyState,
    entity: Entity,
    component: TypeId,
)
    ensures
        call_ensures(
            PersistenceSession::mark_entity_component_dirty,
            (session, entity, component),
            (),
        ) ==> component_was_marked(
            old(session).tracking,
            entity,
            component,
            final(session).tracking,
        ) && rest_is_same(*old(session), *final(session)),
        call_ensures(DirtyState::mark_component, (state, entity, component), ())
            ==> component_was_marked(*old(state), entity, component, *final(state)),
{
    if call_ensures(
        PersistenceSession::mark_entity_component_dirty,
        (session, entity, component),
        (),
    ) {
        lemma_marked(old(session).tracking, entity, component, final(session).tracking);
    }
    if call_ensures(DirtyState::mark_component, (state, entity, component), ()) {
        lemma_marked(*old(state), entity, component, *final(state));
    }
}

/// A component that change detection reports is marked, unless it was added while
/// something is being loaded.
pub proof fn law_reported_component_is_marked(
    session: &mut PersistenceSession,
    entity: Entity,
    component: TypeId,
    also_added: bool,
)
    ensures
        call_ensures(
            PersistenceSession::track_component_changed,
            (session, entity, component, also_added),
            (),
        ) ==> rest_is_same(*old(session), *final(session)) && if old(session).hydration_depth > 0
            && also_added {
            same_components(old(session).tracking, final(session).tracking)
                && only_components_differ(old(session).tracking, final(session).tracking)
        } else {
            component_was_marked(
                old(session).tracking,
                entity,
                component,
                final(session).tracking,
            )
        },
        call_ensures(
            PersistenceSession::track_component_added,
            (session, entity, component),
            (),
        ) ==> rest_is_same(*old(session), *final(session)) && if old(session).hydration_depth > 0 {
            same_components(old(session).tracking, final(session).tracking)
                && only_components_differ(old(session).tracking, final(session).tracking)
        } else {
            component_was_marked(
                old(session).tracking,
                entity,
                component,
                final(session).tracking,
            )
        },
{
    let (before, after) = (old(session).tracking, final(session).tracking);
    if after@ == before@ {
        lemma_unmarked(before, after);
    }
    if after@ == before@.mark_component(entity, component) {
        lemma_marked(before, entity, component, after);
    }
}

/// The same components are marked as before, and apart from them exactly these
/// entities and resources.
pub open spec fn marks_are(
    before: DirtyState,
    despawned_entities: Set<Entity>,
    resources: Set<TypeId>,
    despawned_resources: Set<TypeId>,
    relationships: Set<Entity>,
    after: DirtyState,
) -> bool {
    &&& same_components(before, after)
    &&& after.despawned_entities@ == despawned_entities
    &&& after.dirty_resources@ == resources
    &&& after.despawned_resources@ == despawned_resources
    &&& after.dirty_relationship_entities@ == relationships
}

/// Marks on resources, despawned entities and relationships: exactly the one that
/// was asked for. Reports count for nothing while something is being loaded.
pub proof fn law_marks_are_exact(session: &mut PersistenceSession, t: TypeId, e: Entity)
    ensures
        call_ensures(PersistenceSession::mark_resource_dirty, (session, t), ()) ==> marks_are(
            old(session).tracking,
            old(session).tracking.despawned_entities@,
            old(session).tracking.dirty_resources@.insert(t),
            old(session).tracking.despawned_resources@,
            old(session).tracking.dirty_relationship_entities@,
            final(session).tracking,
        ) && rest_is_same(*old(session), *final(session)),
        call_ensures(PersistenceSession::mark_resource_despawned, (session, t), ()) ==> marks_are(
            old(session).tracking,
            old(session).tracking.despawned_entities@,
            old(session).tracking.dirty_resources@,
            old(session).tracking.despawned_resources@.insert(t),
            old(session).tracking.dirty_relationship_entities@,
            final(session).tracking,
        ) && rest_is_same(*old(session), *final(session)),
        call_ensures(PersistenceSession::track_resource_changed, (session, t), ()) ==> marks_are(
            old(session).tracking,
            old(session).tracking.despawned_entities@,
            if old(session).hydration_depth > 0 {
                old(session).tracking.dirty_resources@
            } else {
                old(session).tracking.dirty_resources@.insert(t)
            },
            old(session).tracking.despawned_resources@,
            old(session).tracking.dirty_relationship_entities@,
            final(session).tracking,
        ) && rest_is_same(*old(session), *final(session)),
        call_ensures(PersistenceSession::mark_despawned, (session, e), ()) ==> marks_are(
            old(session).tracking,
            old(session).tracking.despawned_entities@.insert(e),
            old(session).tracking.dirty_resources@,
            old(session).tracking.despawned_resources@,
            old(session).tracking.dirty_relationship_entities@,
            final(session).tracking,
        ) && rest_is_same(*old(session), *final(session)),
        call_ensures(PersistenceSession::mark_relationship_entity_dirty, (session, e), ()) ==> marks_are(
            old(session).tracking,
            old(session).tracking.despawned_entities@,
            old(session).tracking.dirty_resources@,
            old(session).tracking.despawned_resources@,
            old(session).tracking.dirty_relationship_entities@.insert(e),
            final(session).tracking,
        ) && rest_is_same(*old(session), *final(session)),
        call_ensures(PersistenceSession::track_relationship_entity_changed, (session, e), ()) ==> marks_are(
            old(session).tracking,
            old(session).tracking.despawned_entities@,
            old(session).tracking.dirty_resources@,
            old(session).tracking.despawned_resources@,
            if old(session).hydration_depth > 0 {
                old(session).tracking.dirty_relationship_entities@
            } else {
                old(session).tracking.dirty_relationship_entities@.insert(e)
            },
            final(session).tracking,
        ) && rest_is_same(*old(session), *final(session)),
{
    let (before, after) = (old(session).tracking, final(session).tracking);
    lemma_has_component(before);
    lemma_has_component(after);
}

/// Two states put together: what is marked in either, and nothing else.
pub open spec fn put_together(before: DirtyState, more: DirtyState, after: DirtyState) -> bool {
    &&& forall|e: Entity, t: TypeId| #[trigger]
        has_component(after, e, t) <==> has_component(before, e, t) || has_component(more, e, t)
    &&& after.dirty_entity_components@.dom() == before.dirty_entity_components@.dom().union(
        more.dirty_entity_components@.dom(),
    )
    &&& after.despawned_entities@ == before.despawned_entities@.union(more.despawned_entities@)
    &&& after.dirty_resources@ == before.dirty_resources@.union(more.dirty_resources@)
    &&& after.despawned_resources@ == before.despawned_resources@.union(more.despawned_resources@)
    &&& after.dirty_relationship_entities@ == before.dirty_relationship_entities@.union(
        more.dirty_relationship_entities@,
    )
}

/// Taking the changes hands them all out and leaves none; restoring and merging
/// put them together with those there are.
pub proof fn law_changes_are_taken_and_restored(
    session: &mut PersistenceSession,
    state: &mut DirtyState,
    taken: DirtyState,
)
    ensures
        call_ensures(PersistenceSession::take_dirty_state, (session,), taken) ==> {
            &&& taken == old(session).tracking
            &&& final(session).tracking.dirty_entity_components@.dom() == Set::<Entity>::empty()
            &&& final(session).tracking.despawned_entities@ == Set::<Entity>::empty()
            &&& final(session).tracking.dirty_resources@ == Set::<TypeId>::empty()
            &&& final(session).tracking.despawned_resources@ == Set::<TypeId>::empty()
            &&& final(session).tracking.dirty_relationship_entities@ == Set::<Entity>::empty()
            &&& rest_is_same(*old(session), *final(session))
        },
        call_ensures(PersistenceSession::restore_dirty_state, (session, taken), ())
            ==> put_together(old(session).tracking, taken, final(session).tracking) && rest_is_same(
            *old(session),
            *final(session),
        ),
        call_ensures(DirtyState::merge, (state, taken), ()) ==> put_together(
            *old(state),
            taken,
            *final(state),
        ),
        call_ensures(PersistenceSession::clear_dirty_entity_components, (session,), ()) ==> {
            &&& final(session).tracking.dirty_entity_components@.dom() == Set::<Entity>::empty()
            &&& only_components_differ(old(session).tracking, final(session).tracking)
        },
{
    lemma_has_component(taken);
    lemma_has_component(*old(state));
    lemma_has_component(*final(state));
    lemma_has_component(old(session).tracking);
    lemma_has_component(final(session).tracking);
    if call_ensures(PersistenceSession::restore_dirty_state, (session, taken), ()) {
        lemma_put_together(old(session).tracking, taken, final(session).tracking);
    }
    if call_ensures(DirtyState::merge, (state, taken), ()) {
        lemma_put_together(*old(state), taken, *final(state));
    }
}

proof fn lemma_put_together(before: DirtyState, more: DirtyState, after: DirtyState)
    requires
        after@ == before@.merge(more@),
    ensures
        put_together(before, more, after),
{
    lemma_has_component(before);
    lemma_has_component(more);
    lemma_has_component(after);
    assert(after.dirty_entity_components@.dom() =~= before.dirty_entity_components@.dom().union(
        more.dirty_entity_components@.dom(),
    ));
}

/// Asking whether something changed gives what is tracked.
pub proof fn law_dirtiness_is_what_is_tracked(
    session: &PersistenceSession,
    e: Entity,
    t: TypeId,
    b: bool,
)
    ensures
        call_ensures(PersistenceSession::is_entity_dirty, (session, e), b) ==> b
            == session.tracking.dirty_entity_components@.dom().contains(e),
        call_ensures(PersistenceSession::is_resource_dirty, (session, t), b) ==> b
            == session.tracking.dirty_resources@.contains(t),
        call_ensures(PersistenceSession::is_dirty_entity_components_empty, (session,), b) && b
            ==> !session.tracking.dirty_entity_components@.dom().contains(e),
        call_ensures(PersistenceSession::is_dirty_entity_components_empty, (session,), b) && !b
            ==> session.tracking.dirty_entity_components@.dom() != Set::<Entity>::empty(),
        call_ensures(PersistenceSession::is_despawned_entities_empty, (session,), b) ==> b == (
        session.tracking.despawned_entities@ == Set::<Entity>::empty()),
        call_ensures(PersistenceSession::is_hydrating, (session,), b) ==> b == (
        session.hydration_depth > 0),
{
    lemma_has_component(session.tracking);
    if session.tracking.dirty_entity_components@.dom() == Set::<Entity>::empty() {
        assert(session.tracking@.components =~= Map::empty());
    }
}

/// Every changed entity of a list is marked, apart from those that were added
/// while something is being loaded; no other mark changes.
pub proof fn law_changed_entities_are_marked(
    session: &mut PersistenceSession,
    type_id: TypeId,
    changed: &Vec<Entity>,
    added: &HashSet<Entity>,
)
    requires
        call_ensures(
            auto_dirty_tracking_entity_system,
            (session, type_id, changed, added),
            (),
        ),
    ensures
        forall|e: Entity, t: TypeId| #[trigger]
            has_component(final(session).tracking, e, t) <==> has_component(
                old(session).tracking,
                e,
                t,
            ) || (t == type_id && changed@.contains(e) && !(old(session).hydration_depth > 0
                && added@.contains(e))),
        forall|e: Entity| #[trigger]
            final(session).tracking.dirty_entity_components@.dom().contains(e)
                <==> old(session).tracking.dirty_entity_components@.dom().contains(e) || (
            changed@.contains(e) && !(old(session).hydration_depth > 0 && added@.contains(e))),
        only_components_differ(old(session).tracking, final(session).tracking),
        rest_is_same(*old(session), *final(session)),
{
    lemma_has_component(old(session).tracking);
    lemma_has_component(final(session).tracking);
}

/// A resource is marked where the world has it changed and nothing is being loaded.
pub proof fn law_changed_resource_is_marked(
    session: &mut PersistenceSession,
    type_id: TypeId,
    changed: Option<bool>,
)
    requires
        call_ensures(
            auto_dirty_tracking_resource_system,
            (session, type_id, changed),
            (),
        ),
    ensures
        marks_are(
            old(session).tracking,
            old(session).tracking.despawned_entities@,
            if changed == Some(true) && old(session).hydration_depth == 0 {
                old(session).tracking.dirty_resources@.insert(type_id)
            } else {
                old(session).tracking.dirty_resources@
            },
            old(session).tracking.despawned_resources@,
            old(session).tracking.dirty_relationship_entities@,
            final(session).tracking,
        ),
        rest_is_same(*old(session), *final(session)),
{
    lemma_has_component(old(session).tracking);
    lemma_has_component(final(session).tracking);
}

/// Every entity whose relationships changed or were removed is marked, unless
/// something is being loaded.
pub proof fn law_changed_relationships_are_marked(
    session: &mut PersistenceSession,
    changed: &Vec<Entity>,
    removed: &Vec<Entity>,
    e: Entity,
)
    requires
        call_ensures(
            auto_dirty_tracking_relationship_system,
            (session, changed, removed),
            (),
        ),
    ensures
        final(session).tracking.dirty_relationship_entities@.contains(e)
            <==> old(session).tracking.dirty_relationship_entities@.contains(e) || (
        old(session).hydration_depth == 0 && (changed@.contains(e) || removed@.contains(e))),
        marks_are(
            old(session).tracking,
            old(session).tracking.despawned_entities@,
            old(session).tracking.dirty_resources@,
            old(session).tracking.despawned_resources@,
            final(session).tracking.dirty_relationship_entities@,
            final(session).tracking,
        ),
        rest_is_same(*old(session), *final(session)),
{
    lemma_has_component(old(session).tracking);
    lemma_has_component(final(session).tracking);
    assert(changed@.to_set().contains(e) == changed@.contains(e));
    assert(removed@.to_set().contains(e) == removed@.contains(e));
}

/// Every despawned entity is marked for deletion, also while something is loaded.
pub proof fn law_despawned_entities_are_marked(
    session: &mut PersistenceSession,
    removed: &Vec<Entity>,
    e: Entity,
)
    requires
        call_ensures(auto_despawn_tracking_system, (session, removed), ()),
    ensures
        final(session).tracking.despawned_entities@.contains(e)
            <==> old(session).tracking.despawned_entities@.contains(e) || removed@.contains(e),
        marks_are(
            old(session).tracking,
            final(session).tracking.despawned_entities@,
            old(session).tracking.dirty_resources@,
            old(session).tracking.despawned_resources@,
            old(session).tracking.dirty_relationship_entities@,
            final(session).tracking,
        ),
        rest_is_same(*old(session), *final(session)),
{
    lemma_has_component(old(session).tracking);
    lemma_has_component(final(session).tracking);
    assert(removed@.to_set().contains(e) == removed@.contains(e));
}

/// A resource was there when the session last looked.
pub open spec fn was_there(session: PersistenceSession, t: TypeId) -> bool {
    &&& session.resources.last_seen_present@.dom().contains(t)
    &&& session.resources.last_seen_present@[t]
}

/// A resource that was there and is not is marked for deletion, and no other; what
/// was seen is remembered.
pub proof fn law_vanished_resources_are_marked(
    session: &mut PersistenceSession,
    snapshot: &Vec<(TypeId, bool)>,
    t: TypeId,
)
    requires
        call_ensures(auto_despawn_tracking_resource_system, (session, snapshot), ()),
    ensures
        final(session).tracking.despawned_resources@.contains(t)
            <==> old(session).tracking.despawned_resources@.contains(t) || (was_there(
            *old(session),
            t,
        ) && snapshot@.contains((t, false))),
        snapshot@.contains((t, true)) ==> was_there(*final(session), t),
        snapshot@.contains((t, false)) && !snapshot@.contains((t, true)) ==> !was_there(
            *final(session),
            t,
        ),
        !snapshot@.contains((t, true)) && !snapshot@.contains((t, false)) ==> (was_there(
            *final(session),
            t,
        ) <==> was_there(*old(session), t)),
        marks_are(
            old(session).tracking,
            old(session).tracking.despawned_entities@,
            old(session).tracking.dirty_resources@,
            final(session).tracking.despawned_resources@,
            old(session).tracking.dirty_relationship_entities@,
            final(session).tracking,
        ),
        commit::same_cache(*old(session), *final(session)),
        final(session).components == old(session).components,
        final(session).relationships == old(session).relationships,
        final(session).resources.serializers == old(session).resources.serializers,
        final(session).resources.names == old(session).resources.names,
        final(session).hydration_depth == old(session).hydration_depth,
{
    lemma_has_component(old(session).tracking);
    lemma_has_component(final(session).tracking);
    assert(final(session).resources.was_present(t) == was_there(*final(session), t));
    assert(old(session).resources.was_present(t) == was_there(*old(session), t));
}

/// Registering a component type: it is written and read from then on, under that
/// name, and everything that was registered before still is.
pub proof fn law_component_is_registered(
    session: &mut PersistenceSession,
    type_id: TypeId,
    name: &str,
)
    requires
        call_ensures(
            PersistenceSession::register_component_named,
            (session, type_id, name),
            (),
        ),
    ensures
        final(session).components.serializers@ == old(session).components.serializers@.insert(
            type_id,
        ),
        final(session).components.deserializers@ == old(session).components.deserializers@.insert(
            name@,
        ),
        final(session).components.presence@ == old(session).components.presence@.insert(name@),
        final(session).components.names.name_to_type_id@ == old(session).components.names.name_to_type_id@.insert(name@, type_id),
        final(session).components.names@.name_of(type_id) == Some(name@),
        forall|t: TypeId|
            t != type_id ==> #[trigger] final(session).components.names@.name_of(t) == old(session).components.names@.name_of(t),
        final(session).tracking == old(session).tracking,
        final(session).cache == old(session).cache,
        final(session).resources == old(session).resources,
        final(session).relationships == old(session).relationships,
        final(session).hydration_depth == old(session).hydration_depth,
        final(session).compact_threshold_bytes == old(session).compact_threshold_bytes,
{
}

/// Registering a resource type: it is written, read, watched and removable from
/// then on, under that name.
pub proof fn law_resource_is_registered(
    session: &mut PersistenceSession,
    type_id: TypeId,
    name: &str,
)
    requires
        call_ensures(
            PersistenceSession::register_resource_named,
            (session, type_id, name),
            (),
        ),
    ensures
        final(session).resources.serializers@ == old(session).resources.serializers@.insert(type_id),
        final(session).resources.deserializers@ == old(session).resources.deserializers@.insert(
            name@,
        ),
        final(session).resources.presence@ == old(session).resources.presence@.insert(type_id),
        final(session).resources.removers@ == old(session).resources.removers@.insert(type_id),
        final(session).resources.last_seen_present@ == old(session).resources.last_seen_present@,
        final(session).resources.names.name_to_type_id@ == old(session).resources.names.name_to_type_id@.insert(name@, type_id),
        final(session).resources.names@.name_of(type_id) == Some(name@),
        forall|t: TypeId|
            t != type_id ==> #[trigger] final(session).resources.names@.name_of(t) == old(session).resources.names@.name_of(t),
        final(session).tracking == old(session).tracking,
        final(session).cache == old(session).cache,
        final(session).components == old(session).components,
        final(session).relationships == old(session).relationships,
        final(session).hydration_depth == old(session).hydration_depth,
        final(session).compact_threshold_bytes == old(session).compact_threshold_bytes,
{
}

/// Registering a relationship type for writing, and for reading.
pub proof fn law_relationship_is_registered(
    session: &mut PersistenceSession,
    type_id: TypeId,
    name: &str,
)
    ensures
        call_ensures(
            PersistenceSession::register_relationship,
            (session, type_id, name),
            (),
        ) ==> {
            &&& final(session).relationships.serializers@ == old(session).relationships.serializers@.insert(type_id)
            &&& final(session).relationships.deserializers@ == old(session).relationships.deserializers@
            &&& final(session).relationships.names@.name_of(type_id) == Some(name@)
            &&& final(session).relationships.names.name_to_type_id@
                == old(session).relationships.names.name_to_type_id@.insert(name@, type_id)
            &&& forall|t: TypeId|
                t != type_id ==> #[trigger] final(session).relationships.names@.name_of(t)
                    == old(session).relationships.names@.name_of(t)
            &&& final(session).tracking == old(session).tracking
            &&& final(session).cache == old(session).cache
            &&& final(session).components == old(session).components
            &&& final(session).resources == old(session).resources
            &&& final(session).hydration_depth == old(session).hydration_depth
        },
        call_ensures(
            PersistenceSession::register_relationship_loader,
            (session, type_id),
            (),
        ) ==> {
            &&& final(session).relationships.deserializers@ == old(session).relationships.deserializers@.insert(type_id)
            &&& final(session).relationships.serializers@ == old(session).relationships.serializers@
            &&& final(session).tracking == old(session).tracking
            &&& final(session).relationships.names@ == old(session).relationships.names@
            &&& final(session).cache == old(session).cache
            &&& final(session).components == old(session).components
            &&& final(session).resources == old(session).resources
        },
{
}

/// Lookups by type and by name give what was registered, and only that.
pub proof fn law_lookups_give_what_is_registered(
    session: &PersistenceSession,
    type_id: TypeId,
    name: &str,
    found: Option<TypeId>,
    found_name: Option<&String>,
    types: Vec<TypeId>,
)
    ensures
        call_ensures(PersistenceSession::resource_type_id, (session, name), found) ==> {
            let ids = session.resources.names.name_to_type_id@;
            &&& found is Some <==> ids.dom().contains(name@)
            &&& found is Some ==> found->0 == ids[name@]
        },
        call_ensures(
            PersistenceSession::resource_name_for_type,
            (session, type_id),
            found_name,
        ) ==> {
            let names = session.resources.names.type_id_to_name@;
            &&& found_name is Some <==> names.dom().contains(type_id)
            &&& found_name is Some ==> found_name->0@ == names[type_id]@
        },
        call_ensures(
            PersistenceSession::relationship_type_name,
            (session, type_id),
            found_name,
        ) ==> {
            let names = session.relationships.names.type_id_to_name@;
            &&& found_name is Some <==> names.dom().contains(type_id)
            &&& found_name is Some ==> found_name->0@ == names[type_id]@
        },
        call_ensures(PersistenceSession::persisted_resource_types, (session,), types) ==> {
            &&& types@.contains(type_id) <==> session.resources.serializers@.contains(type_id)
            &&& types@.no_duplicates()
        },
        call_ensures(PersistenceSession::removable_resource_types, (session,), types) ==> {
            &&& types@.contains(type_id) <==> session.resources.removers@.contains(type_id)
            &&& types@.no_duplicates()
        },
{
    assert(types@.to_set().contains(type_id) == types@.contains(type_id));
}

/// The presence of every watched resource is told, each once; noting it gives what
/// was noted before.
pub proof fn law_presence_is_told(
    session: &mut PersistenceSession,
    reader: &PersistenceSession,
    present: &HashSet<TypeId>,
    snapshot: Vec<(TypeId, bool)>,
    type_id: TypeId,
    is_present: bool,
    was: bool,
)
    ensures
        call_ensures(
            PersistenceSession::resource_presence_snapshot,
            (reader, present),
            snapshot,
        ) ==> {
            &&& forall|i: int|
                0 <= i < snapshot@.len() ==> reader.resources.presence@.contains(
                    (#[trigger] snapshot@[i]).0,
                ) && snapshot@[i].1 == present@.contains(snapshot@[i].0)
            &&& reader.resources.presence@.contains(type_id) ==> snapshot@.contains(
                (type_id, present@.contains(type_id)),
            )
            &&& forall|i: int, j: int|
                0 <= i < j < snapshot@.len() ==> (#[trigger] snapshot@[i]).0 != (
                #[trigger] snapshot@[j]).0
        },
        call_ensures(
            PersistenceSession::update_resource_presence,
            (session, type_id, is_present),
            was,
        ) ==> {
            &&& was == was_there(*old(session), type_id)
            &&& was_there(*final(session), type_id) == is_present
            &&& forall|t: TypeId|
                t != type_id ==> #[trigger] was_there(*final(session), t) == was_there(
                    *old(session),
                    t,
                )
            &&& final(session).tracking == old(session).tracking
        },
{
    if call_ensures(
        PersistenceSession::resource_presence_snapshot,
        (reader, present),
        snapshot,
    ) {
        let types = snapshot@.map_values(|p: (TypeId, bool)| p.0);
        assert forall|i: int| 0 <= i < snapshot@.len() implies reader.resources.presence@.contains(
            (#[trigger] snapshot@[i]).0,
        ) by {
            assert(types[i] == snapshot@[i].0);
            assert(types.to_set().contains(types[i]));
        }
        assert forall|i: int, j: int| 0 <= i < j < snapshot@.len() implies (
        #[trigger] snapshot@[i]).0 != (#[trigger] snapshot@[j]).0 by {
            assert(types[i] != types[j]);
        }
        if reader.resources.presence@.contains(type_id) {
            assert(types.to_set().contains(type_id));
            let i = choose|i: int| 0 <= i < types.len() && types[i] == type_id;
            assert(snapshot@[i] == (type_id, present@.contains(type_id)));
        }
    }
}

/// A name that was given is found in both directions; other types and names keep
/// what they had.
pub proof fn law_given_name_is_found(
    names: &mut TypeNames,
    type_id: TypeId,
    name: &str,
    probe: TypeId,
    found_name: Option<&String>,
    text: &str,
    found: Option<TypeId>,
)
    requires
        call_ensures(TypeNames::insert_name_maps, (names, type_id, name), ()),
        call_ensures(TypeNames::name_of, (&*final(names), probe), found_name),
        call_ensures(TypeNames::type_of, (&*final(names), text), found),
    ensures
        probe == type_id ==> found_name is Some && found_name->0@ == name@,
        probe != type_id ==> (found_name is Some <==> old(names).type_id_to_name@.dom().contains(
            probe,
        )),
        probe != type_id && found_name is Some ==> found_name->0@ == old(names).type_id_to_name@[probe]@,
        text@ == name@ ==> found == Some(type_id),
        text@ != name@ ==> (found is Some <==> old(names).name_to_type_id@.dom().contains(text@)),
        text@ != name@ && found is Some ==> found->0 == old(names).name_to_type_id@[text@],
{
}

/// The registered resources are counted, and the named relationship types listed
/// once each with their names.
pub proof fn law_registrations_are_listed(
    session: &PersistenceSession,
    n: usize,
    entries: Vec<(TypeId, String)>,
    t: TypeId,
)
    ensures
        call_ensures(PersistenceSession::persisted_resource_count, (session,), n) ==> n
            == session.resources.removers@.len(),
        call_ensures(PersistenceSession::relationship_type_entries, (session,), entries) ==> {
            let names = session.relationships.names.type_id_to_name@;
            &&& names.dom().contains(t) ==> exists|i: int|
                0 <= i < entries@.len() && (#[trigger] entries@[i]).0 == t
            &&& forall|i: int|
                0 <= i < entries@.len() ==> names.dom().contains((#[trigger] entries@[i]).0)
                    && entries@[i].1@ == names[entries@[i].0]@
            &&& forall|i: int, j: int|
                0 <= i < j < entries@.len() ==> (#[trigger] entries@[i]).0 != (
                #[trigger] entries@[j]).0
        },
{
    if call_ensures(PersistenceSession::relationship_type_entries, (session,), entries) {
        let types = entries@.map_values(|e: (TypeId, String)| e.0);
        let names = session.relationships.names.type_id_to_name@;
        assert(session.relationships.names@.names.dom() =~= names.dom());
        if names.dom().contains(t) {
            assert(types.to_set().contains(t));
            let i = choose|i: int| 0 <= i < types.len() && types[i] == t;
            assert(entries@[i].0 == t);
        }
        assert forall|i: int, j: int| 0 <= i < j < entries@.len() implies (
        #[trigger] entries@[i]).0 != (#[trigger] entries@[j]).0 by {
            assert(types[i] != types[j]);
        }
    }
}

/// The parts of a state are those it was made of.
pub proof fn law_parts_are_given_back(
    components: HashMap<Entity, HashSet<TypeId>>,
    despawned_entities: HashSet<Entity>,
    resources: HashSet<TypeId>,
    despawned_resources: HashSet<TypeId>,
    relationships: HashSet<Entity>,
    state: DirtyState,
    parts: (
        HashMap<Entity, HashSet<TypeId>>,
        HashSet<Entity>,
        HashSet<TypeId>,
        HashSet<TypeId>,
        HashSet<Entity>,
    ),
)
    requires
        call_ensures(
            DirtyState::from_parts,
            (components, despawned_entities, resources, despawned_resources, relationships),
            state,
        ),
        call_ensures(DirtyState::into_parts, (state,), parts),
    ensures
        parts == (components, despawned_entities, resources, despawned_resources, relationships),
        state.dirty_entity_components == components,
        state.despawned_entities == despawned_entities,
        state.dirty_resources == resources,
        state.despawned_resources == despawned_resources,
        state.dirty_relationship_entities == relationships,
{
}

} // verus!
