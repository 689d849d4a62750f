//! Dirty / change tracking for a persistence session.
use std::collections::{HashMap, HashSet};

use vstd::prelude::*;

use crate::collections;
use crate::session::state::PersistenceSession;
use crate::session::{Entity, TypeId};

verus! {

broadcast use vstd::std_specs::hash::group_hash_axioms;

/// What has changed since the last commit, or what one commit works on.
pub struct DirtyState {
    pub dirty_entity_components: HashMap<Entity, HashSet<TypeId>>,
    pub despawned_entities: HashSet<Entity>,
    pub dirty_resources: HashSet<TypeId>,
    pub despawned_resources: HashSet<TypeId>,
    /// Entities whose relationships have been marked dirty.
    pub dirty_relationship_entities: HashSet<Entity>,
}

/// The mathematical content of a [`DirtyState`].
#[verifier::ext_equal]
pub struct DirtyModel {
    pub components: Map<Entity, Set<TypeId>>,
    pub despawned_entities: Set<Entity>,
    pub resources: Set<TypeId>,
    pub despawned_resources: Set<TypeId>,
    pub relationships: Set<Entity>,
}

/// The sets that a map holds.
pub open spec fn component_sets(m: Map<Entity, HashSet<TypeId>>) -> Map<Entity, Set<TypeId>> {
    m.map_values(|s: HashSet<TypeId>| s@)
}

impl DirtyModel {
    /// Nothing has changed.
    pub open spec fn clean() -> Self {
        DirtyModel {
            components: Map::empty(),
            despawned_entities: Set::empty(),
            resources: Set::empty(),
            despawned_resources: Set::empty(),
            relationships: Set::empty(),
        }
    }

    /// The dirty component types of `entity`.
    pub open spec fn components_of(self, entity: Entity) -> Set<TypeId> {
        if self.components.dom().contains(entity) {
            self.components[entity]
        } else {
            Set::empty()
        }
    }

    /// With one component of an entity marked.
    pub open spec fn mark_component(self, entity: Entity, component: TypeId) -> Self {
        DirtyModel {
            components: self.components.insert(
                entity,
                self.components_of(entity).insert(component),
            ),
            ..self
        }
    }

    /// What changed in `self` or in `other`.
    pub open spec fn merge(self, other: Self) -> Self {
        DirtyModel {
            components: merge_components(self.components, other.components),
            despawned_entities: self.despawned_entities.union(other.despawned_entities),
            resources: self.resources.union(other.resources),
            despawned_resources: self.despawned_resources.union(other.despawned_resources),
            relationships: self.relationships.union(other.relationships),
        }
    }
}

/// The component types of each entity that are in one of the two maps.
pub open spec fn merge_components(
    a: Map<Entity, Set<TypeId>>,
    b: Map<Entity, Set<TypeId>>,
) -> Map<Entity, Set<TypeId>> {
    Map::new(
        |e: Entity| a.dom().contains(e) || b.dom().contains(e),
        |e: Entity|
            (if a.dom().contains(e) {
                a[e]
            } else {
                Set::empty()
            }).union(
                if b.dom().contains(e) {
                    b[e]
                } else {
                    Set::empty()
                },
            ),
    )
}

impl View for DirtyState {
    type V = DirtyModel;

    open spec fn view(&self) -> DirtyModel {
        DirtyModel {
            components: component_sets(self.dirty_entity_components@),
            despawned_entities: self.despawned_entities@,
            resources: self.dirty_resources@,
            despawned_resources: self.despawned_resources@,
            relationships: self.dirty_relationship_entities@,
        }
    }
}

impl Default for DirtyState {
    fn default() -> (r: Self)
        ensures
            r@ == DirtyModel::clean(),
    {
        let r = DirtyState {
            dirty_entity_components: HashMap::new(),
            despawned_entities: HashSet::new(),
            dirty_resources: HashSet::new(),
            despawned_resources: HashSet::new(),
            dirty_relationship_entities: HashSet::new(),
        };
        assert(r@.components =~= Map::empty());
        r
    }
}

/// Adds the types of `more` to those that `map` holds for `entity`.
fn extend_components(
    map: &mut HashMap<Entity, HashSet<TypeId>>,
    entity: Entity,
    more: &HashSet<TypeId>,
)
    ensures
        component_sets(final(map)@) == component_sets(old(map)@).insert(
            entity,
            (if old(map)@.dom().contains(entity) {
                old(map)@[entity]@
            } else {
                Set::empty()
            }).union(more@),
        ),
{
    let ghost before = map@;
    let mut types: HashSet<TypeId> = match map.remove(&entity) {
        Some(types) => types,
        None => HashSet::new(),
    };
    collections::extend_set(&mut types, more);
    map.insert(entity, types);
    assert(component_sets(map@) =~= component_sets(before).insert(
        entity,
        (if before.dom().contains(entity) {
            before[entity]@
        } else {
            Set::empty()
        }).union(more@),
    ));
}

impl DirtyState {
    /// Marks one component type of `entity`.
    pub fn mark_component(&mut self, entity: Entity, component: TypeId)
        ensures
            final(self)@ == old(self)@.mark_component(entity, component),
    {
        let ghost before = self@;
        let mut one: HashSet<TypeId> = HashSet::new();
        one.insert(component);
        extend_components(&mut self.dirty_entity_components, entity, &one);
        assert(before.components_of(entity).union(one@) =~= before.components_of(entity).insert(
            component,
        ));
    }

    /// Adds all that changed in `other`.
    pub fn merge(&mut self, other: DirtyState)
        ensures
            final(self)@ == old(self)@.merge(other@),
    {
        let ghost before = self@;
        let entities: Vec<Entity> = collections::keys_of(&other.dirty_entity_components);
        let mut i: usize = 0;
        proof {
            assert(self@.components =~~= merge_components(
                before.components,
                other@.components.restrict(entities@.take(0).to_set()),
            ));
        }
        while i < entities.len()
            invariant
                i <= entities@.len(),
                entities@.no_duplicates(),
                entities@.to_set() == other.dirty_entity_components@.dom(),
                self@.components == merge_components(
                    before.components,
                    other@.components.restrict(entities@.take(i as int).to_set()),
                ),
                self@ == (DirtyModel { components: self@.components, ..before }),
            decreases entities@.len() - i,
        {
            let entity: Entity = entities[i];
            let ghost mid = self@.components;
            proof {
                assert(entities@.to_set().contains(entity));
            }
            match other.dirty_entity_components.get(&entity) {
                Some(types) => {
                    extend_components(&mut self.dirty_entity_components, entity, types);
                },
                None => {},
            }
            proof {
                collections::lemma_take_to_set(entities@, i as int);
                let done = other@.components.restrict(entities@.take(i as int).to_set());
                let next = other@.components.restrict(entities@.take(i + 1).to_set());
                assert(!entities@.take(i as int).to_set().contains(entity));
                assert(next =~= done.insert(entity, other@.components[entity]));
                let merged = merge_components(before.components, next);
                assert(self@.components.dom() =~= merged.dom());
                assert forall|e: Entity| merged.dom().contains(e) implies self@.components[e]
                    =~= merged[e] by {
                    if e != entity {
                        assert(self@.components[e] == mid[e]);
                        assert(mid[e] == merge_components(before.components, done)[e]);
                    } else if mid.dom().contains(e) {
                        assert(mid[e] =~= before.components[e]);
                    }
                }
                assert(self@.components =~= merged);
            }
            i = i + 1;
        }
        proof {
            assert(entities@.take(i as int) =~= entities@);
            assert(other@.components.restrict(entities@.to_set()) =~= other@.components);
        }
        collections::extend_set(&mut self.despawned_entities, &other.despawned_entities);
        collections::extend_set(&mut self.dirty_resources, &other.dirty_resources);
        collections::extend_set(&mut self.despawned_resources, &other.despawned_resources);
        collections::extend_set(
            &mut self.dirty_relationship_entities,
            &other.dirty_relationship_entities,
        );
    }
}

impl DirtyState {
    /// A state of these parts.
    pub fn from_parts(
        dirty_entity_components: HashMap<Entity, HashSet<TypeId>>,
        despawned_entities: HashSet<Entity>,
        dirty_resources: HashSet<TypeId>,
        despawned_resources: HashSet<TypeId>,
        dirty_relationship_entities: HashSet<Entity>,
    ) -> (r: Self)
        ensures
            r == (DirtyState {
                dirty_entity_components,
                despawned_entities,
                dirty_resources,
                despawned_resources,
                dirty_relationship_entities,
            }),
    {
        DirtyState {
            dirty_entity_components,
            despawned_entities,
            dirty_resources,
            despawned_resources,
            dirty_relationship_entities,
        }
    }

    /// The parts of the state.
    pub fn into_parts(self) -> (r: (
        HashMap<Entity, HashSet<TypeId>>,
        HashSet<Entity>,
        HashSet<TypeId>,
        HashSet<TypeId>,
        HashSet<Entity>,
    ))
        ensures
            r == (
                self.dirty_entity_components,
                self.despawned_entities,
                self.dirty_resources,
                self.despawned_resources,
                self.dirty_relationship_entities,
            ),
    {
        (
            self.dirty_entity_components,
            self.despawned_entities,
            self.dirty_resources,
            self.despawned_resources,
            self.dirty_relationship_entities,
        )
    }
}

/// Only the tracking differs between two states of a session.
pub open spec fn only_tracking_changed(
    before: PersistenceSession,
    after: PersistenceSession,
) -> bool {
    after == (PersistenceSession { tracking: after.tracking, ..before })
}

/// What has changed once change detection reports a component: the same as
/// before where the component was added while something is being loaded.
pub open spec fn tracked_component(
    session: PersistenceSession,
    entity: Entity,
    component: TypeId,
    also_added_this_frame: bool,
) -> DirtyModel {
    if session.hydrating() && also_added_this_frame {
        session.tracking@
    } else {
        session.tracking@.mark_component(entity, component)
    }
}

/// What has changed once change detection reports a resource: the same as
/// before while something is being loaded.
pub open spec fn tracked_resource(session: PersistenceSession, type_id: TypeId) -> DirtyModel {
    if session.hydrating() {
        session.tracking@
    } else {
        DirtyModel {
            resources: session.tracking@.resources.insert(type_id),
            ..session.tracking@
        }
    }
}

/// What has changed once change detection reports a relationship: the same as
/// before while something is being loaded.
pub open spec fn tracked_relationship(session: PersistenceSession, entity: Entity) -> DirtyModel {
    if session.hydrating() {
        session.tracking@
    } else {
        DirtyModel {
            relationships: session.tracking@.relationships.insert(entity),
            ..session.tracking@
        }
    }
}

impl PersistenceSession {
    /// Marks a persisted resource as changed.
    pub fn mark_resource_dirty(&mut self, type_id: TypeId)
        ensures
            old(self).wf() ==> final(self).wf(),
            only_tracking_changed(*old(self), *final(self)),
            final(self).tracking@ == (DirtyModel {
                resources: old(self).tracking@.resources.insert(type_id),
                ..old(self).tracking@
            }),
    {
        self.tracking.dirty_resources.insert(type_id);
    }

    /// Manually mark a persisted resource as having been removed.
    pub fn mark_resource_despawned(&mut self, type_id: TypeId)
        ensures
            old(self).wf() ==> final(self).wf(),
            only_tracking_changed(*old(self), *final(self)),
            final(self).tracking@ == (DirtyModel {
                despawned_resources: old(self).tracking@.despawned_resources.insert(type_id),
                ..old(self).tracking@
            }),
    {
        self.tracking.despawned_resources.insert(type_id);
    }

    /// Mark a specific persisted component type as dirty for an entity.
    ///
    /// Prefer [`Self::track_component_changed`] from ECS change-detection systems so
    /// hydration suppression stays centralized.
    pub fn mark_entity_component_dirty(&mut self, entity: Entity, component: TypeId)
        ensures
            old(self).wf() ==> final(self).wf(),
            only_tracking_changed(*old(self), *final(self)),
            final(self).tracking@ == old(self).tracking@.mark_component(entity, component),
    {
        self.tracking.mark_component(entity, component);
    }

    /// Record ECS `Added<T>` for dirty tracking. No-op while hydrating.
    pub fn track_component_added(&mut self, entity: Entity, component: TypeId)
        ensures
            old(self).wf() ==> final(self).wf(),
            only_tracking_changed(*old(self), *final(self)),
            final(self).tracking@ == tracked_component(*old(self), entity, component, true),
    {
        if self.is_hydrating() {
            return;
        }
        self.mark_entity_component_dirty(entity, component);
    }

    /// Record ECS `Changed<T>` for dirty tracking.
    ///
    /// Load inserts that also appear as `Added` in the same frame are suppressed while
    /// hydrating; genuine post-load edits on existing components still mark dirty.
    pub fn track_component_changed(
        &mut self,
        entity: Entity,
        component: TypeId,
        also_added_this_frame: bool,
    )
        ensures
            old(self).wf() ==> final(self).wf(),
            only_tracking_changed(*old(self), *final(self)),
            final(self).tracking@ == tracked_component(
                *old(self),
                entity,
                component,
                also_added_this_frame,
            ),
    {
        if self.is_hydrating() && also_added_this_frame {
            return;
        }
        self.mark_entity_component_dirty(entity, component);
    }

    /// Record ECS resource change detection. No-op while hydrating.
    pub fn track_resource_changed(&mut self, type_id: TypeId)
        ensures
            old(self).wf() ==> final(self).wf(),
            only_tracking_changed(*old(self), *final(self)),
            final(self).tracking@ == tracked_resource(*old(self), type_id),
    {
        if self.is_hydrating() {
            return;
        }
        self.tracking.dirty_resources.insert(type_id);
    }

    /// Mark an entity's relationships as dirty.
    pub fn mark_relationship_entity_dirty(&mut self, entity: Entity)
        ensures
            old(self).wf() ==> final(self).wf(),
            only_tracking_changed(*old(self), *final(self)),
            final(self).tracking@ == (DirtyModel {
                relationships: old(self).tracking@.relationships.insert(entity),
                ..old(self).tracking@
            }),
    {
        self.tracking.dirty_relationship_entities.insert(entity);
    }

    /// Record ECS relationship change detection. No-op while hydrating.
    pub fn track_relationship_entity_changed(&mut self, entity: Entity)
        ensures
            old(self).wf() ==> final(self).wf(),
            only_tracking_changed(*old(self), *final(self)),
            final(self).tracking@ == tracked_relationship(*old(self), entity),
    {
        if self.is_hydrating() {
            return;
        }
        self.mark_relationship_entity_dirty(entity);
    }

    /// Marks an entity as despawned, so that its document is deleted.
    pub fn mark_despawned(&mut self, entity: Entity)
        ensures
            old(self).wf() ==> final(self).wf(),
            only_tracking_changed(*old(self), *final(self)),
            final(self).tracking@ == (DirtyModel {
                despawned_entities: old(self).tracking@.despawned_entities.insert(entity),
                ..old(self).tracking@
            }),
    {
        self.tracking.despawned_entities.insert(entity);
    }

    /// Takes all that changed out of the session.
    pub fn take_dirty_state(&mut self) -> (state: DirtyState)
        ensures
            old(self).wf() ==> final(self).wf(),
            only_tracking_changed(*old(self), *final(self)),
            state == old(self).tracking,
            final(self).tracking@ == DirtyModel::clean(),
    {
        let mut state: DirtyState = DirtyState::default();
        core::mem::swap(&mut state, &mut self.tracking);
        state
    }

    /// Adds what a commit did not get done to what has changed since.
    pub fn restore_dirty_state(&mut self, state: DirtyState)
        ensures
            old(self).wf() ==> final(self).wf(),
            only_tracking_changed(*old(self), *final(self)),
            final(self).tracking@ == old(self).tracking@.merge(state@),
    {
        self.tracking.merge(state);
    }

    /// Forgets every dirty component.
    pub fn clear_dirty_entity_components(&mut self)
        ensures
            old(self).wf() ==> final(self).wf(),
            only_tracking_changed(*old(self), *final(self)),
            final(self).tracking@ == (DirtyModel {
                components: Map::empty(),
                ..old(self).tracking@
            }),
    {
        self.tracking.dirty_entity_components.clear();
        assert(self.tracking@.components =~= Map::empty());
    }

    /// True where a component of `entity` has been marked.
    pub fn is_entity_dirty(&self, entity: Entity) -> (b: bool)
        ensures
            b == self.tracking@.components.dom().contains(entity),
    {
        self.tracking.dirty_entity_components.contains_key(&entity)
    }

    /// True where no component has been marked.
    pub fn is_dirty_entity_components_empty(&self) -> (b: bool)
        ensures
            b == (self.tracking@.components == Map::<Entity, Set<TypeId>>::empty()),
    {
        let b: bool = self.tracking.dirty_entity_components.is_empty();
        proof {
            if b {
                assert(self.tracking@.components =~= Map::empty());
            } else {
                assert(self.tracking@.components.dom()
                    =~= self.tracking.dirty_entity_components@.dom());
            }
        }
        b
    }

    /// True where no entity has been marked as despawned.
    pub fn is_despawned_entities_empty(&self) -> (b: bool)
        ensures
            b == (self.tracking@.despawned_entities == Set::<Entity>::empty()),
    {
        self.tracking.despawned_entities.is_empty()
    }

    /// True where the resource has been marked as changed.
    pub fn is_resource_dirty(&self, type_id: TypeId) -> (b: bool)
        ensures
            b == self.tracking@.resources.contains(type_id),
    {
        self.tracking.dirty_resources.contains(&type_id)
    }
}

/// Restoring what was taken gives back the state before, where nothing changed
/// in between.
pub proof fn law_restore_undoes_take(state: DirtyModel)
    ensures
        DirtyModel::clean().merge(state) == state,
{
    assert(DirtyModel::clean().merge(state) =~~= state);
}

/// Restoring loses no change: neither of what is restored nor of what was
/// marked in the meantime, and it adds none.
pub proof fn law_restore_keeps_every_change(
    now: DirtyModel,
    restored: DirtyModel,
    entity: Entity,
    type_id: TypeId,
)
    ensures
        now.merge(restored).components_of(entity).contains(type_id) == (now.components_of(
            entity,
        ).contains(type_id) || restored.components_of(entity).contains(type_id)),
        now.merge(restored).resources.contains(type_id) == (now.resources.contains(type_id)
            || restored.resources.contains(type_id)),
        now.merge(restored).despawned_entities.contains(entity) == (
        now.despawned_entities.contains(entity) || restored.despawned_entities.contains(entity)),
        now.merge(restored).despawned_resources.contains(type_id) == (
        now.despawned_resources.contains(type_id) || restored.despawned_resources.contains(
            type_id,
        )),
        now.merge(restored).relationships.contains(entity) == (now.relationships.contains(entity)
            || restored.relationships.contains(entity)),
{
}

} // verus!
