//! Change detection: what the systems of a frame report to the session.
use std::collections::HashSet;

use vstd::prelude::*;

use crate::session::registries::ResourceRegistry;
use crate::session::state::PersistenceSession;
use crate::session::tracking;
use crate::session::tracking::DirtyModel;
use crate::session::{Entity, TypeId};

verus! {

broadcast use vstd::std_specs::hash::group_hash_axioms;

/// The component type for each entity of a list that is marked: all but those
/// that were added while something is being loaded.
pub open spec fn marked_components(
    hydrating: bool,
    type_id: TypeId,
    changed: Seq<Entity>,
    added: Set<Entity>,
) -> Map<Entity, Set<TypeId>> {
    Map::new(
        |e: Entity| changed.contains(e) && !(hydrating && added.contains(e)),
        |e: Entity| Set::empty().insert(type_id),
    )
}

/// Automatically marks entities with added/changed components as dirty.
///
/// An added component also counts as changed. The added ones are only used to
/// tell hydration suppression whether the change is an insert-in-the-same-frame
/// (see [`PersistenceSession::track_component_changed`]).
pub fn auto_dirty_tracking_entity_system(
    session: &mut PersistenceSession,
    type_id: TypeId,
    changed: &Vec<Entity>,
    added: &HashSet<Entity>,
)
    ensures
        old(session).wf() ==> final(session).wf(),
        tracking::only_tracking_changed(*old(session), *final(session)),
        final(session).tracking@ == (DirtyModel {
            components: tracking::merge_components(
                old(session).tracking@.components,
                marked_components(old(session).hydrating(), type_id, changed@, added@),
            ),
            ..old(session).tracking@
        }),
{
    let ghost before = *session;
    let ghost hydrating = session.hydrating();
    let mut i: usize = 0;
    proof {
        assert(session.tracking@.components =~~= tracking::merge_components(
            before.tracking@.components,
            marked_components(hydrating, type_id, changed@.take(0), added@),
        ));
    }
    while i < changed.len()
        invariant
            i <= changed@.len(),
            before.wf() ==> session.wf(),
            tracking::only_tracking_changed(before, *session),
            hydrating == before.hydrating(),
            session.tracking@ == (DirtyModel {
                components: tracking::merge_components(
                    before.tracking@.components,
                    marked_components(hydrating, type_id, changed@.take(i as int), added@),
                ),
                ..before.tracking@
            }),
        decreases changed@.len() - i,
    {
        let entity: Entity = changed[i];
        let ghost mid = session.tracking@;
        let ghost done = changed@.take(i as int);
        let ghost next = changed@.take(i + 1);
        session.track_component_changed(entity, type_id, added.contains(&entity));
        proof {
            assert forall|e: Entity| next.contains(e) == (done.contains(e) || e == entity) by {
                if done.contains(e) {
                    let j = choose|j: int| 0 <= j < done.len() && done[j] == e;
                    assert(next[j] == e);
                }
                if e == entity {
                    assert(next[i as int] == e);
                }
                if next.contains(e) && e != entity {
                    let j = choose|j: int| 0 <= j < next.len() && next[j] == e;
                    assert(done[j] == e);
                }
            }
            let merged = tracking::merge_components(
                before.tracking@.components,
                marked_components(hydrating, type_id, next, added@),
            );
            assert(session.tracking@.components.dom() =~= merged.dom());
            assert forall|e: Entity| merged.dom().contains(e) implies session.tracking@.components[e]
                =~= merged[e] by {
                if e != entity {
                    assert(session.tracking@.components[e] == mid.components[e]);
                }
            }
            assert(session.tracking@.components =~= merged);
        }
        i = i + 1;
    }
    assert(changed@.take(i as int) =~= changed@);
}

/// Automatically marks changed resources as dirty: `changed` is `None` where
/// the world does not have the resource.
pub fn auto_dirty_tracking_resource_system(
    session: &mut PersistenceSession,
    type_id: TypeId,
    changed: Option<bool>,
)
    ensures
        old(session).wf() ==> final(session).wf(),
        tracking::only_tracking_changed(*old(session), *final(session)),
        final(session).tracking@ == if changed == Some(true) {
            tracking::tracked_resource(*old(session), type_id)
        } else {
            old(session).tracking@
        },
{
    match changed {
        Some(is_changed) => {
            if is_changed {
                session.track_resource_changed(type_id);
            }
        },
        None => {},
    }
}

/// Automatically marks entities whose relationships were changed or removed.
pub fn auto_dirty_tracking_relationship_system(
    session: &mut PersistenceSession,
    changed: &Vec<Entity>,
    removed: &Vec<Entity>,
)
    ensures
        old(session).wf() ==> final(session).wf(),
        tracking::only_tracking_changed(*old(session), *final(session)),
        final(session).tracking@ == if old(session).hydrating() {
            old(session).tracking@
        } else {
            DirtyModel {
                relationships: old(session).tracking@.relationships.union(
                    changed@.to_set(),
                ).union(removed@.to_set()),
                ..old(session).tracking@
            }
        },
{
    track_relationships(session, changed);
    track_relationships(session, removed);
}

fn track_relationships(session: &mut PersistenceSession, entities: &Vec<Entity>)
    ensures
        old(session).wf() ==> final(session).wf(),
        tracking::only_tracking_changed(*old(session), *final(session)),
        final(session).tracking@ == if old(session).hydrating() {
            old(session).tracking@
        } else {
            DirtyModel {
                relationships: old(session).tracking@.relationships.union(entities@.to_set()),
                ..old(session).tracking@
            }
        },
{
    let ghost before = *session;
    let mut i: usize = 0;
    assert(before.tracking@.relationships.union(entities@.take(0).to_set())
        =~= before.tracking@.relationships);
    while i < entities.len()
        invariant
            i <= entities@.len(),
            before.wf() ==> session.wf(),
            tracking::only_tracking_changed(before, *session),
            session.tracking@ == if before.hydrating() {
                before.tracking@
            } else {
                DirtyModel {
                    relationships: before.tracking@.relationships.union(
                        entities@.take(i as int).to_set(),
                    ),
                    ..before.tracking@
                }
            },
        decreases entities@.len() - i,
    {
        session.track_relationship_entity_changed(entities[i]);
        proof {
            crate::collections::lemma_take_to_set(entities@, i as int);
            assert(before.tracking@.relationships.union(entities@.take(i + 1).to_set())
                =~= before.tracking@.relationships.union(entities@.take(i as int).to_set()).insert(
                entities@[i as int],
            ));
        }
        i = i + 1;
    }
    assert(entities@.take(i as int) =~= entities@);
}

/// The resources of a presence snapshot that were there when last seen and are
/// not there now.
pub open spec fn vanished(session: PersistenceSession, snapshot: Seq<(TypeId, bool)>) -> Set<
    TypeId,
> {
    Set::new(
        |t: TypeId| snapshot.contains((t, false)) && session.resources.was_present(t),
    )
}

/// Detects removal of persisted resources and marks them for deletion.
///
/// The snapshot tells of each resource type whether the world has it; it lists
/// each type once.
pub fn auto_despawn_tracking_resource_system(
    session: &mut PersistenceSession,
    snapshot: &Vec<(TypeId, bool)>,
)
    requires
        snapshot@.map_values(|p: (TypeId, bool)| p.0).no_duplicates(),
    ensures
        old(session).wf() ==> final(session).wf(),
        *final(session) == (PersistenceSession {
            tracking: final(session).tracking,
            resources: ResourceRegistry {
                last_seen_present: final(session).resources.last_seen_present,
                ..old(session).resources
            },
            ..*old(session)
        }),
        final(session).tracking@ == (DirtyModel {
            despawned_resources: old(session).tracking@.despawned_resources.union(
                vanished(*old(session), snapshot@),
            ),
            ..old(session).tracking@
        }),
        forall|t: TypeId|
            #![trigger final(session).resources.was_present(t)]
            final(session).resources.was_present(t) == (snapshot@.contains((t, true)) || (
            old(session).resources.was_present(t) && !snapshot@.contains((t, false)))),
{
    let ghost before = *session;
    let ghost types = snapshot@.map_values(|p: (TypeId, bool)| p.0);
    let mut i: usize = 0;
    proof {
        assert(session.tracking@.despawned_resources
            =~= before.tracking@.despawned_resources.union(vanished(before, snapshot@.take(0))));
    }
    while i < snapshot.len()
        invariant
            i <= snapshot@.len(),
            types == snapshot@.map_values(|p: (TypeId, bool)| p.0),
            types.no_duplicates(),
            before.wf() ==> session.wf(),
            *session == (PersistenceSession {
                tracking: session.tracking,
                resources: ResourceRegistry {
                    last_seen_present: session.resources.last_seen_present,
                    ..before.resources
                },
                ..before
            }),
            session.tracking@ == (DirtyModel {
                despawned_resources: before.tracking@.despawned_resources.union(
                    vanished(before, snapshot@.take(i as int)),
                ),
                ..before.tracking@
            }),
            forall|t: TypeId|
                #![trigger session.resources.was_present(t)]
                session.resources.was_present(t) == (snapshot@.take(i as int).contains((t, true))
                    || (before.resources.was_present(t) && !snapshot@.take(i as int).contains(
                    (t, false),
                ))),
        decreases snapshot@.len() - i,
    {
        let (type_id, is_present) = snapshot[i];
        let ghost done = snapshot@.take(i as int);
        let ghost next = snapshot@.take(i + 1);
        let ghost mid = *session;
        proof {
            assert forall|p: (TypeId, bool)| next.contains(p) == (done.contains(p) || p == (
                type_id,
                is_present,
            )) by {
                if done.contains(p) {
                    let j = choose|j: int| 0 <= j < done.len() && done[j] == p;
                    assert(next[j] == p);
                }
                if p == (type_id, is_present) {
                    assert(next[i as int] == p);
                }
                if next.contains(p) && p != (type_id, is_present) {
                    let j = choose|j: int| 0 <= j < next.len() && next[j] == p;
                    assert(done[j] == p);
                }
            }
            assert forall|b: bool| !done.contains((type_id, b)) by {
                if done.contains((type_id, b)) {
                    let j = choose|j: int| 0 <= j < done.len() && done[j] == (type_id, b);
                    assert(types[j] == types[i as int]);
                }
            }
            assert(mid.resources.was_present(type_id) == before.resources.was_present(type_id));
        }
        let was_present: bool = session.update_resource_presence(type_id, is_present);
        if was_present && !is_present {
            session.mark_resource_despawned(type_id);
        }
        proof {
            assert forall|t: TypeId|
                #![trigger session.resources.was_present(t)]
                session.resources.was_present(t) == (next.contains((t, true)) || (
                before.resources.was_present(t) && !next.contains((t, false)))) by {
                if t != type_id {
                    assert(session.resources.was_present(t) == mid.resources.was_present(t));
                }
            }
            assert(session.tracking@.despawned_resources
                =~= before.tracking@.despawned_resources.union(vanished(before, next)));
        }
        i = i + 1;
    }
    assert(snapshot@.take(i as int) =~= snapshot@);
}

/// Automatically marks despawned entities as needing deletion.
pub fn auto_despawn_tracking_system(session: &mut PersistenceSession, removed: &Vec<Entity>)
    ensures
        old(session).wf() ==> final(session).wf(),
        tracking::only_tracking_changed(*old(session), *final(session)),
        final(session).tracking@ == (DirtyModel {
            despawned_entities: old(session).tracking@.despawned_entities.union(removed@.to_set()),
            ..old(session).tracking@
        }),
{
    let ghost before = *session;
    let mut i: usize = 0;
    assert(before.tracking@.despawned_entities.union(removed@.take(0).to_set())
        =~= before.tracking@.despawned_entities);
    while i < removed.len()
        invariant
            i <= removed@.len(),
            before.wf() ==> session.wf(),
            tracking::only_tracking_changed(before, *session),
            session.tracking@ == (DirtyModel {
                despawned_entities: before.tracking@.despawned_entities.union(
                    removed@.take(i as int).to_set(),
                ),
                ..before.tracking@
            }),
        decreases removed@.len() - i,
    {
        session.mark_despawned(removed[i]);
        proof {
            crate::collections::lemma_take_to_set(removed@, i as int);
            assert(before.tracking@.despawned_entities.union(removed@.take(i + 1).to_set())
                =~= before.tracking@.despawned_entities.union(
                removed@.take(i as int).to_set(),
            ).insert(removed@[i as int]));
        }
        i = i + 1;
    }
    assert(removed@.take(i as int) =~= removed@);
}

/// Close hydration scopes opened during load, after dirty tracking has run.
/// Returns whether there was one.
pub fn finish_hydration(session: &mut PersistenceSession) -> (closed: bool)
    ensures
        old(session).wf() ==> final(session).wf(),
        closed == old(session).hydrating(),
        *final(session) == (PersistenceSession { hydration_depth: 0, ..*old(session) }),
{
    if !session.is_hydrating() {
        return false;
    }
    session.finish_all_hydration();
    true
}

/// Loading leaves the session clean: components that were all added while
/// something is being loaded are not marked, whatever was marked before stays.
pub proof fn law_loaded_components_stay_clean(
    components: Map<Entity, Set<TypeId>>,
    type_id: TypeId,
    changed: Seq<Entity>,
    added: Set<Entity>,
)
    requires
        forall|e: Entity| #[trigger] changed.contains(e) ==> added.contains(e),
    ensures
        tracking::merge_components(components, marked_components(true, type_id, changed, added))
            == components,
{
    assert(tracking::merge_components(
        components,
        marked_components(true, type_id, changed, added),
    ) =~~= components);
}

/// Outside of a load every reported component is marked.
pub proof fn law_changed_components_are_marked(
    components: Map<Entity, Set<TypeId>>,
    type_id: TypeId,
    changed: Seq<Entity>,
    added: Set<Entity>,
    entity: Entity,
)
    requires
        changed.contains(entity),
    ensures
        tracking::merge_components(
            components,
            marked_components(false, type_id, changed, added),
        ).dom().contains(entity),
        tracking::merge_components(
            components,
            marked_components(false, type_id, changed, added),
        )[entity].contains(type_id),
{
}

} // verus!
