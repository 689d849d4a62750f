//! What becomes of triggers, running commits and the tasks that finish them.
use std::collections::HashMap;

use vstd::prelude::*;
use vstd::string::*;

use crate::db::connection;
use crate::db::connection::ErrorModel;
use crate::plugin::commit;
use crate::plugin::commit::{
    accept_commit_triggers, apply_commit_success, complete_task, handle_commit_completed,
    prepare_accepted_commit, restore_dirty_state_on_failure, success_can_apply, task_result,
    CommitCompleted, CommitMeta, CommitStart, CommitStatus, CompletionReport, FinishedTask,
    PassState, PendingCommit, TaskEffects, TaskPoll, TransactionResult, TriggerCommit,
    TriggerDecision,
};
use crate::session::cache;
use crate::session::cache::CacheModel;
use crate::session::prepare_commit;
use crate::session::prepare_commit::{CommitModel, CommitOrder, WorldSnapshot};
use crate::session::state::PersistenceSession;
use crate::session::tracking;
use crate::session::tracking::{DirtyModel, DirtyState};
use crate::session::{Entity, TypeId};
use crate::versioning::Versions;

verus! {

/// The session has the component of the entity down as changed.
pub open spec fn tracks_component(
    session: PersistenceSession,
    entity: Entity,
    component: TypeId,
) -> bool {
    &&& session.tracking.dirty_entity_components@.dom().contains(entity)
    &&& session.tracking.dirty_entity_components@[entity]@.contains(component)
}

/// A running commit has taken the component of the entity.
pub open spec fn took_component<C>(
    meta: CommitMeta<C>,
    entity: Entity,
    component: TypeId,
) -> bool {
    &&& meta.dirty_entity_components@.dom().contains(entity)
    &&& meta.dirty_entity_components@[entity]@.contains(component)
}

/// The session tracks what it tracked and what the commit had taken, and nothing
/// else. Changed relationships are not given back.
pub open spec fn given_back<C>(
    before: PersistenceSession,
    meta: CommitMeta<C>,
    after: PersistenceSession,
) -> bool {
    &&& forall|e: Entity, t: TypeId| #[trigger]
        tracks_component(after, e, t) <==> tracks_component(before, e, t) || took_component(
            meta,
            e,
            t,
        )
    &&& forall|e: Entity| #[trigger]
        after.tracking.dirty_entity_components@.dom().contains(e)
            <==> before.tracking.dirty_entity_components@.dom().contains(e)
            || meta.dirty_entity_components@.dom().contains(e)
    &&& forall|e: Entity| #[trigger]
        after.tracking.despawned_entities@.contains(e)
            <==> before.tracking.despawned_entities@.contains(e)
            || meta.despawned_entities@.contains(e)
    &&& forall|t: TypeId| #[trigger]
        after.tracking.dirty_resources@.contains(t) <==> before.tracking.dirty_resources@.contains(
            t,
        ) || meta.dirty_resources@.contains(t)
    &&& forall|t: TypeId| #[trigger]
        after.tracking.despawned_resources@.contains(t)
            <==> before.tracking.despawned_resources@.contains(t)
            || meta.despawned_resources@.contains(t)
    &&& forall|e: Entity| #[trigger]
        after.tracking.dirty_relationship_entities@.contains(e)
            <==> before.tracking.dirty_relationship_entities@.contains(e)
}

/// The session tracks the same changes.
pub open spec fn same_tracking(before: PersistenceSession, after: PersistenceSession) -> bool {
    &&& forall|e: Entity, t: TypeId| #[trigger]
        tracks_component(after, e, t) <==> tracks_component(before, e, t)
    &&& after.tracking.dirty_entity_components@.dom()
        == before.tracking.dirty_entity_components@.dom()
    &&& after.tracking.despawned_entities@ == before.tracking.despawned_entities@
    &&& after.tracking.dirty_resources@ == before.tracking.dirty_resources@
    &&& after.tracking.despawned_resources@ == before.tracking.despawned_resources@
    &&& after.tracking.dirty_relationship_entities@ == before.tracking.dirty_relationship_entities@
}

/// The session remembers the same of the store.
pub open spec fn same_cache(before: PersistenceSession, after: PersistenceSession) -> bool {
    &&& after.cache.entity_keys@.dom() == before.cache.entity_keys@.dom()
    &&& forall|e: Entity| #[trigger]
        after.cache.entity_keys@.dom().contains(e) ==> after.cache.entity_keys@[e]@
            == before.cache.entity_keys@[e]@
    &&& after.cache.guid_to_entity@ == before.cache.guid_to_entity@
    &&& after.cache.version_manager.entities@ == before.cache.version_manager.entities@
    &&& after.cache.version_manager.resources@ == before.cache.version_manager.resources@
    &&& after.cache.edge_snapshot@ == before.cache.edge_snapshot@
}

/// The rest of the session is as it was.
pub open spec fn same_registries(before: PersistenceSession, after: PersistenceSession) -> bool {
    &&& after.components == before.components
    &&& after.resources == before.resources
    &&& after.relationships == before.relationships
    &&& after.hydration_depth == before.hydration_depth
    &&& after.compact_threshold_bytes == before.compact_threshold_bytes
}

/// The answer to a trigger is that its commit succeeded.
pub open spec fn says_success(completed: Option<CommitCompleted>, id: Option<u64>) -> bool {
    match completed {
        Some(c) => {
            &&& c.correlation_id == id
            &&& c.dirty_entities@.len() == 0
            &&& c.result is Ok
            &&& c.result->Ok_0@.len() == 0
        },
        None => false,
    }
}

/// The answer to a trigger is that its commit failed with that error.
pub open spec fn says_failure(
    completed: Option<CommitCompleted>,
    error: ErrorModel,
    id: Option<u64>,
) -> bool {
    match completed {
        Some(c) => {
            &&& c.correlation_id == id
            &&& c.dirty_entities@.len() == 0
            &&& c.result is Err
            &&& c.result->Err_0@ == error
        },
        None => false,
    }
}

/// Equal contents are the same tracked changes.
proof fn lemma_same_tracking(before: PersistenceSession, after: PersistenceSession)
    requires
        after.tracking@ == before.tracking@,
    ensures
        same_tracking(before, after),
{
    let (b, a) = (before.tracking@, after.tracking@);
    assert(a.components.dom() =~= after.tracking.dirty_entity_components@.dom());
    assert(b.components.dom() =~= before.tracking.dirty_entity_components@.dom());
    assert forall|e: Entity, t: TypeId| #[trigger]
        tracks_component(after, e, t) <==> tracks_component(before, e, t) by {
        assert(tracks_component(after, e, t) == (a.components.dom().contains(e)
            && a.components[e].contains(t)));
        assert(tracks_component(before, e, t) == (b.components.dom().contains(e)
            && b.components[e].contains(t)));
    }
}

/// Equal contents are the same memory of the store.
proof fn lemma_same_cache(before: PersistenceSession, after: PersistenceSession)
    requires
        after.cache@ == before.cache@,
    ensures
        same_cache(before, after),
{
    let (b, a) = (before.cache@, after.cache@);
    assert(a.keys.dom() =~= after.cache.entity_keys@.dom());
    assert(b.keys.dom() =~= before.cache.entity_keys@.dom());
    assert forall|e: Entity| #[trigger]
        after.cache.entity_keys@.dom().contains(e) implies after.cache.entity_keys@[e]@
        == before.cache.entity_keys@[e]@ by {
        assert(a.keys[e] == after.cache.entity_keys@[e]@);
        assert(b.keys[e] == before.cache.entity_keys@[e]@);
    }
    assert(a.versions == b.versions);
}

/// A merge gives back what was taken.
proof fn lemma_given_back<C>(
    before: PersistenceSession,
    meta: CommitMeta<C>,
    after: PersistenceSession,
)
    requires
        after.tracking@ == before.tracking@.merge(meta.restorable()),
    ensures
        given_back(before, meta, after),
{
    let (b, m, a) = (before.tracking@, meta.restorable(), after.tracking@);
    assert(a.components.dom() =~= after.tracking.dirty_entity_components@.dom());
    assert(b.components.dom() =~= before.tracking.dirty_entity_components@.dom());
    assert(m.components.dom() =~= meta.dirty_entity_components@.dom());
    assert forall|e: Entity, t: TypeId| #[trigger]
        tracks_component(after, e, t) <==> tracks_component(before, e, t) || took_component(
            meta,
            e,
            t,
        ) by {
        assert(tracks_component(after, e, t) == (a.components.dom().contains(e)
            && a.components[e].contains(t)));
        assert(tracks_component(before, e, t) == (b.components.dom().contains(e)
            && b.components[e].contains(t)));
        assert(took_component(meta, e, t) == (m.components.dom().contains(e)
            && m.components[e].contains(t)));
    }
    assert forall|e: Entity| #[trigger]
        after.tracking.dirty_entity_components@.dom().contains(e)
            <==> before.tracking.dirty_entity_components@.dom().contains(e)
            || meta.dirty_entity_components@.dom().contains(e) by {
        assert(a.components.dom().contains(e) == (b.components.dom().contains(e)
            || m.components.dom().contains(e)));
    }
}

/// The session tracks what it tracked and these changes, and nothing else.
pub open spec fn joined(
    before: PersistenceSession,
    taken: DirtyState,
    after: PersistenceSession,
) -> bool {
    &&& forall|e: Entity, t: TypeId| #[trigger]
        tracks_component(after, e, t) <==> tracks_component(before, e, t) || (
        taken.dirty_entity_components@.dom().contains(e)
            && taken.dirty_entity_components@[e]@.contains(t))
    &&& forall|e: Entity| #[trigger]
        after.tracking.dirty_entity_components@.dom().contains(e)
            <==> before.tracking.dirty_entity_components@.dom().contains(e)
            || taken.dirty_entity_components@.dom().contains(e)
    &&& forall|e: Entity| #[trigger]
        after.tracking.despawned_entities@.contains(e)
            <==> before.tracking.despawned_entities@.contains(e)
            || taken.despawned_entities@.contains(e)
    &&& forall|t: TypeId| #[trigger]
        after.tracking.dirty_resources@.contains(t) <==> before.tracking.dirty_resources@.contains(
            t,
        ) || taken.dirty_resources@.contains(t)
    &&& forall|t: TypeId| #[trigger]
        after.tracking.despawned_resources@.contains(t)
            <==> before.tracking.despawned_resources@.contains(t)
            || taken.despawned_resources@.contains(t)
    &&& forall|e: Entity| #[trigger]
        after.tracking.dirty_relationship_entities@.contains(e)
            <==> before.tracking.dirty_relationship_entities@.contains(e)
            || taken.dirty_relationship_entities@.contains(e)
}

/// A merge joins what was tracked and what was taken.
proof fn lemma_joined(before: PersistenceSession, taken: DirtyState, after: PersistenceSession)
    requires
        after.tracking@ == before.tracking@.merge(taken@),
    ensures
        joined(before, taken, after),
{
    let (b, m, a) = (before.tracking@, taken@, after.tracking@);
    assert(a.components.dom() =~= after.tracking.dirty_entity_components@.dom());
    assert(b.components.dom() =~= before.tracking.dirty_entity_components@.dom());
    assert(m.components.dom() =~= taken.dirty_entity_components@.dom());
    assert forall|e: Entity, t: TypeId| #[trigger]
        tracks_component(after, e, t) <==> tracks_component(before, e, t) || (
        taken.dirty_entity_components@.dom().contains(e)
            && taken.dirty_entity_components@[e]@.contains(t)) by {
        assert(tracks_component(after, e, t) == (a.components.dom().contains(e)
            && a.components[e].contains(t)));
        assert(tracks_component(before, e, t) == (b.components.dom().contains(e)
            && b.components[e].contains(t)));
        if m.components.dom().contains(e) {
            assert(m.components[e] == taken.dirty_entity_components@[e]@);
        }
    }
    assert forall|e: Entity| #[trigger]
        after.tracking.dirty_entity_components@.dom().contains(e)
            <==> before.tracking.dirty_entity_components@.dom().contains(e)
            || taken.dirty_entity_components@.dom().contains(e) by {
        assert(a.components.dom().contains(e) == (b.components.dom().contains(e)
            || m.components.dom().contains(e)));
    }
}

/// A task that failed, whatever the error: the trigger is answered with it, all
/// that the commit had taken is tracked again next to what was tracked before,
/// and nothing of the store is remembered differently. No commit runs or is
/// queued any more, and none is triggered.
pub proof fn law_failed_task_gives_everything_back<C>(
    session: &mut PersistenceSession,
    status: &mut CommitStatus,
    queued: &mut Option<TriggerCommit<C>>,
    had_error: &mut bool,
    task: FinishedTask<C>,
    effects: TaskEffects<C>,
)
    requires
        call_ensures(complete_task::<C>, (session, status, queued, had_error, task), effects),
        task.result is Err,
    ensures
        task.meta matches Some(meta) ==> given_back(*old(session), meta, *final(session)),
        task.meta is None ==> same_tracking(*old(session), *final(session)),
        same_cache(*old(session), *final(session)),
        same_registries(*old(session), *final(session)),
        says_failure(effects.completed, task.result->Err_0@, task.correlation_id),
        effects.guids@.len() == 0,
        effects.follow_up is None,
        *final(status) == CommitStatus::Idle,
        *final(queued) is None,
        *final(had_error),
{
    lemma_same_cache(*old(session), *final(session));
    match task.meta {
        Some(meta) => {
            lemma_given_back(*old(session), meta, *final(session));
        },
        None => {
            lemma_same_tracking(*old(session), *final(session));
        },
    }
}

/// Giving back on its own: see [`given_back`].
pub proof fn law_restore_gives_everything_back<C>(
    session: &mut PersistenceSession,
    meta: CommitMeta<C>,
)
    requires
        call_ensures(restore_dirty_state_on_failure::<C>, (session, meta), ()),
    ensures
        given_back(*old(session), meta, *final(session)),
        same_cache(*old(session), *final(session)),
        same_registries(*old(session), *final(session)),
{
    lemma_given_back(*old(session), meta, *final(session));
    lemma_same_cache(*old(session), *final(session));
}

/// The key that an entity has after a success: the preassigned one where it was
/// given one, else the one it had.
pub open spec fn key_after<C>(
    before: PersistenceSession,
    meta: CommitMeta<C>,
    entity: Entity,
    key: Seq<char>,
) -> bool {
    if meta.preassigned_keys@.dom().contains(entity) {
        key == meta.preassigned_keys@[entity]@
    } else {
        before.cache.entity_keys@.dom().contains(entity) && key
            == before.cache.entity_keys@[entity]@
    }
}

/// The commit created a document under that key.
pub open spec fn created<C>(meta: CommitMeta<C>, key: Seq<char>) -> bool {
    exists|e: Entity| #[trigger]
        meta.preassigned_keys@.dom().contains(e) && meta.preassigned_keys@[e]@ == key
}

/// The commit updated the document of that entity.
pub open spec fn updated<C>(meta: CommitMeta<C>, entity: Entity) -> bool {
    &&& meta.committed_entity_components@.dom().contains(entity)
    &&& !meta.preassigned_keys@.dom().contains(entity)
}

/// The commit deleted the document with that key.
pub open spec fn deleted<C>(before: PersistenceSession, meta: CommitMeta<C>, key: Seq<char>) -> bool {
    exists|e: Entity|
        meta.committed_despawned_entities@.contains(e) && #[trigger] key_after(
            before,
            meta,
            e,
            key,
        )
}

/// The updated entities whose documents have that key.
pub open spec fn sharing<C>(
    session: PersistenceSession,
    meta: CommitMeta<C>,
    key: Seq<char>,
) -> Set<Entity> {
    meta.committed_entity_components@.dom().filter(
        |e: Entity| updated(meta, e) && key_after(session, meta, e, key),
    )
}

/// After a success the session remembers what the store now has.
///
/// Every entity has its key, new documents have version 1, updated ones the next
/// version, deleted ones none, and all others the one they had. The versions of
/// the resources go the same way, and the edges are those of the new snapshot.
/// Each updated entity counts up the version of the document that has its key.
pub open spec fn remembers_success<C>(
    before: PersistenceSession,
    meta: CommitMeta<C>,
    after: PersistenceSession,
) -> bool {
    let old_versions = before.cache.version_manager.entities@;
    let new_versions = after.cache.version_manager.entities@;
    let old_resources = before.cache.version_manager.resources@;
    let new_resources = after.cache.version_manager.resources@;
    &&& forall|e: Entity| #[trigger]
        after.cache.entity_keys@.dom().contains(e) <==> before.cache.entity_keys@.dom().contains(e)
            || meta.preassigned_keys@.dom().contains(e)
    &&& forall|e: Entity| #[trigger]
        after.cache.entity_keys@.dom().contains(e) ==> key_after(
            before,
            meta,
            e,
            after.cache.entity_keys@[e]@,
        )
    &&& forall|key: Seq<char>| #[trigger]
        deleted(before, meta, key) ==> !new_versions.dom().contains(key)
    &&& forall|key: Seq<char>|
        #![trigger new_versions.dom().contains(key)]
        !deleted(before, meta, key) ==> (new_versions.dom().contains(key)
            <==> old_versions.dom().contains(key) || created(meta, key))
    &&& forall|key: Seq<char>| #[trigger]
        new_versions.dom().contains(key) ==> new_versions[key] == (if created(meta, key) {
            1
        } else {
            old_versions[key] as int
        }) + sharing(before, meta, key).len()
    &&& forall|t: TypeId| #[trigger]
        new_resources.dom().contains(t) <==> !meta.committed_despawned_resources@.contains(t) && (
        old_resources.dom().contains(t) || meta.committed_dirty_resources@.contains(t))
    &&& forall|t: TypeId| #[trigger]
        new_resources.dom().contains(t) ==> new_resources[t]
            == if meta.committed_dirty_resources@.contains(t) {
            if old_resources.dom().contains(t) {
                old_resources[t] + 1
            } else {
                1
            }
        } else {
            old_resources[t] as int
        }
    &&& after.cache.edge_snapshot@ == meta.new_edge_snapshot@
    &&& finds_new_entities(before, meta, after)
}

/// Every new key leads to an entity that was given it, and every other key to where
/// it led before. This is said of entities that had no key before; one that had
/// is no longer found under that key.
pub open spec fn finds_new_entities<C>(
    before: PersistenceSession,
    meta: CommitMeta<C>,
    after: PersistenceSession,
) -> bool {
    let old_index = before.cache.guid_to_entity@;
    let new_index = after.cache.guid_to_entity@;
    (forall|e: Entity| #[trigger]
        meta.preassigned_keys@.dom().contains(e) ==> !before.cache.entity_keys@.dom().contains(e))
        ==> {
        &&& forall|key: Seq<char>| #[trigger]
            new_index.dom().contains(key) <==> old_index.dom().contains(key) || created(meta, key)
        &&& forall|key: Seq<char>| #[trigger]
            created(meta, key) ==> meta.preassigned_keys@.dom().contains(new_index[key])
                && meta.preassigned_keys@[new_index[key]]@ == key
        &&& forall|key: Seq<char>|
            #![trigger new_index[key]]
            !created(meta, key) && old_index.dom().contains(key) ==> new_index[key]
                == old_index[key]
    }
}

/// One of the entities in the order is given that key.
pub open spec fn given_in(
    keys: Map<Entity, Seq<char>>,
    order: Seq<Entity>,
    key: Seq<char>,
) -> bool {
    exists|i: int| 0 <= i < order.len() && keys[#[trigger] order[i]] == key
}

/// Where keys lead after some of the preassigned ones have been taken over.
proof fn lemma_assigned_index(cache: CacheModel, keys: Map<Entity, Seq<char>>, order: Seq<Entity>)
    requires
        order.no_duplicates(),
        forall|i: int|
            0 <= i < order.len() ==> keys.dom().contains(#[trigger] order[i])
                && !cache.keys.dom().contains(order[i]),
    ensures
        ({
            let after = commit::assigned(cache, keys, order);
            &&& forall|e: Entity| #[trigger]
                after.keys.dom().contains(e) <==> cache.keys.dom().contains(e) || order.contains(e)
            &&& forall|key: Seq<char>| #[trigger]
                after.index.dom().contains(key) <==> cache.index.dom().contains(key) || given_in(
                    keys,
                    order,
                    key,
                )
            &&& forall|key: Seq<char>|
                #![trigger after.index[key]]
                given_in(keys, order, key) ==> order.contains(after.index[key]) && keys[after.index[key]] == key
            &&& forall|key: Seq<char>|
                #![trigger after.index[key]]
                !given_in(keys, order, key) && cache.index.dom().contains(key) ==> after.index[key] == cache.index[key]
        }),
    decreases order.len(),
{
    if order.len() > 0 {
        let head = order.drop_last();
        let n = order.len() - 1;
        let last = order.last();
        assert(order[n] == last);
        assert forall|i: int| 0 <= i < head.len() implies head[i] == #[trigger] order[i] by {}
        lemma_assigned_index(cache, keys, head);
        let before = commit::assigned(cache, keys, head);
        let after = commit::assigned(cache, keys, order);
        assert(!head.contains(last)) by {
            if head.contains(last) {
                let i = choose|i: int| 0 <= i < head.len() && head[i] == last;
                assert(order[i] == order[n]);
            }
        }
        assert(!before.keys.dom().contains(last));
        assert(after.index == before.index.insert(keys[last], last));
        assert forall|e: Entity| order.contains(e) == (head.contains(e) || e == last) by {
            if head.contains(e) {
                let i = choose|i: int| 0 <= i < head.len() && head[i] == e;
                assert(order[i] == e);
            }
            if order.contains(e) && e != last {
                let i = choose|i: int| 0 <= i < order.len() && order[i] == e;
                assert(head[i] == e);
            }
        }
        assert forall|key: Seq<char>| #[trigger]
            given_in(keys, order, key) == (key == keys[last] || given_in(keys, head, key)) by {
            if given_in(keys, head, key) {
                let i = choose|i: int| 0 <= i < head.len() && keys[#[trigger] head[i]] == key;
                assert(keys[order[i]] == key);
            }
            if given_in(keys, order, key) {
                let i = choose|i: int| 0 <= i < order.len() && keys[#[trigger] order[i]] == key;
                if i < n {
                    assert(keys[head[i]] == key);
                }
            }
        }
    }
}

proof fn lemma_finds_new_entities<C>(
    before: PersistenceSession,
    meta: CommitMeta<C>,
    after: PersistenceSession,
    order: Seq<Entity>,
)
    requires
        order.no_duplicates(),
        order.to_set() == meta.preassigned_keys@.dom(),
        after.cache@ == commit::applied(before.cache@, meta, order),
    ensures
        finds_new_entities(before, meta, after),
{
    let cache = before.cache@;
    let keys = meta.keys();
    assert(cache.keys.dom() =~= before.cache.entity_keys@.dom());
    assert(keys.dom() =~= meta.preassigned_keys@.dom());
    assert forall|e: Entity| #[trigger] order.contains(e) == order.to_set().contains(e) by {}
    if forall|e: Entity| #[trigger]
        meta.preassigned_keys@.dom().contains(e) ==> !before.cache.entity_keys@.dom().contains(e) {
        assert forall|i: int| 0 <= i < order.len() implies keys.dom().contains(#[trigger] order[i])
            && !cache.keys.dom().contains(order[i]) by {
            assert(order.contains(order[i]));
            assert(meta.preassigned_keys@.dom().contains(order[i]));
        }
        lemma_assigned_index(cache, keys, order);
        assert forall|key: Seq<char>| #[trigger]
            created(meta, key) <==> given_in(keys, order, key) by {
            if created(meta, key) {
                let e = choose|e: Entity| #[trigger]
                    meta.preassigned_keys@.dom().contains(e) && meta.preassigned_keys@[e]@ == key;
                assert(order.contains(e));
                let i = choose|i: int| 0 <= i < order.len() && order[i] == e;
                assert(keys[order[i]] == key);
            }
            if given_in(keys, order, key) {
                let i = choose|i: int| 0 <= i < order.len() && keys[#[trigger] order[i]] == key;
                assert(meta.preassigned_keys@.dom().contains(order[i]));
            }
        }
        let index = commit::assigned(cache, keys, order).index;
        assert(after.cache.guid_to_entity@ == index);
        assert forall|key: Seq<char>| #[trigger]
            created(meta, key) implies meta.preassigned_keys@.dom().contains(
            after.cache.guid_to_entity@[key],
        ) && meta.preassigned_keys@[after.cache.guid_to_entity@[key]]@ == key by {
            assert(given_in(keys, order, key));
            assert(order.contains(index[key]) && keys[index[key]] == key);
        }
    }
}

/// The GUIDs that the world gets: each entity with a new key once, with its key.
pub open spec fn guids_are_right<C>(meta: CommitMeta<C>, guids: Seq<(Entity, String)>) -> bool {
    &&& forall|i: int|
        0 <= i < guids.len() ==> meta.preassigned_keys@.dom().contains((#[trigger] guids[i]).0)
            && guids[i].1@ == meta.preassigned_keys@[guids[i].0]@
    &&& forall|e: Entity| #[trigger]
        meta.preassigned_keys@.dom().contains(e) ==> exists|i: int|
            0 <= i < guids.len() && (#[trigger] guids[i]).0 == e
    &&& forall|i: int, j: int|
        0 <= i < j < guids.len() ==> (#[trigger] guids[i]).0 != (#[trigger] guids[j]).0
}

proof fn lemma_key_after<C>(
    before: PersistenceSession,
    meta: CommitMeta<C>,
    e: Entity,
    key: Seq<char>,
)
    ensures
        key_after(before, meta, e, key) <==> commit::keys_after(
            before.cache@.keys,
            meta.keys(),
        ).dom().contains(e) && commit::keys_after(before.cache@.keys, meta.keys())[e] == key,
{
}

proof fn lemma_created<C>(meta: CommitMeta<C>, key: Seq<char>)
    ensures
        created(meta, key) == meta.keys().values().contains(key),
{
    if created(meta, key) {
        let e = choose|e: Entity| #[trigger]
            meta.preassigned_keys@.dom().contains(e) && meta.preassigned_keys@[e]@ == key;
        assert(meta.keys().dom().contains(e) && meta.keys()[e] == key);
    }
    if meta.keys().values().contains(key) {
        let e = choose|e: Entity| #[trigger] meta.keys().dom().contains(e) && meta.keys()[e] == key;
        assert(meta.preassigned_keys@.dom().contains(e));
    }
}

proof fn lemma_deleted<C>(before: PersistenceSession, meta: CommitMeta<C>, key: Seq<char>)
    ensures
        deleted(before, meta, key) == crate::versioning::keys_of_entities(
            commit::keys_after(before.cache@.keys, meta.keys()),
            meta.committed_despawned_entities@,
        ).contains(key),
{
    let keys = commit::keys_after(before.cache@.keys, meta.keys());
    let gone = meta.committed_despawned_entities@;
    if deleted(before, meta, key) {
        let e = choose|e: Entity| gone.contains(e) && #[trigger] key_after(before, meta, e, key);
        lemma_key_after(before, meta, e, key);
        assert(gone.contains(e));
    }
    if crate::versioning::keys_of_entities(keys, gone).contains(key) {
        let e = choose|e: Entity| #[trigger]
            gone.contains(e) && keys.dom().contains(e) && keys[e] == key;
        lemma_key_after(before, meta, e, key);
    }
}

/// The version of a document after a success.
proof fn lemma_version<C>(
    before: PersistenceSession,
    meta: CommitMeta<C>,
    order: Seq<Entity>,
    key: Seq<char>,
)
    requires
        order.to_set() == meta.preassigned_keys@.dom(),
        commit::success_fits(before.cache@, meta),
    ensures
        ({
            let versions = commit::applied(before.cache@, meta, order).versions.entities;
            let old_versions = before.cache.version_manager.entities@;
            &&& deleted(before, meta, key) ==> !versions.dom().contains(key)
            &&& !deleted(before, meta, key) ==> (versions.dom().contains(key)
                <==> old_versions.dom().contains(key) || created(meta, key))
            &&& versions.dom().contains(key) ==> versions[key] == (if created(meta, key) {
                1
            } else {
                old_versions[key] as int
            }) + sharing(before, meta, key).len()
        }),
{
    let cache = before.cache@;
    commit::lemma_assigned_all(cache, meta, order);
    lemma_created(meta, key);
    lemma_deleted(before, meta, key);
    let keys = commit::keys_after(cache.keys, meta.keys());
    let here = crate::versioning::entities_with_key(keys, meta.updated_entities(), key);
    let old_versions = before.cache.version_manager.entities@;
    let base = Versions {
        entities: commit::versions_after(cache.versions.entities, meta.keys()),
        ..cache.versions
    };
    assert forall|e: Entity| #[trigger]
        here.contains(e) <==> updated(meta, e) && key_after(before, meta, e, key) by {
        lemma_key_after(before, meta, e, key);
        assert(meta.updated_entities().contains(e) == updated(meta, e));
    }
    assert(here =~= sharing(before, meta, key));
    if base.entities.dom().contains(key) {
        assert(base.entities[key] + here.len() <= u64::MAX);
    }
}

proof fn lemma_remembers<C>(
    before: PersistenceSession,
    meta: CommitMeta<C>,
    after: PersistenceSession,
    guids: Seq<(Entity, String)>,
)
    requires
        commit::success_fits(before.cache@, meta),
        commit::success_leads_to(before.cache@, meta, after.cache@, guids),
    ensures
        remembers_success(before, meta, after),
        guids_are_right(meta, guids),
{
    let order = choose|order: Seq<Entity>|
        {
            &&& order.no_duplicates()
            &&& order.to_set() == meta.preassigned_keys@.dom()
            &&& after.cache@ == #[trigger] commit::applied(before.cache@, meta, order)
            &&& commit::guids_in_order(guids, meta, order)
        };
    lemma_finds_new_entities(before, meta, after, order);
    let cache = before.cache@;
    commit::lemma_assigned_all(cache, meta, order);
    let keys = commit::keys_after(cache.keys, meta.keys());
    assert(after.cache@.keys == keys);
    assert(after.cache@.keys.dom() =~= after.cache.entity_keys@.dom());
    assert(cache.keys.dom() =~= before.cache.entity_keys@.dom());
    assert(meta.keys().dom() =~= meta.preassigned_keys@.dom());
    assert forall|e: Entity| #[trigger] after.cache.entity_keys@.dom().contains(e) implies key_after(
        before,
        meta,
        e,
        after.cache.entity_keys@[e]@,
    ) by {
        assert(after.cache@.keys[e] == after.cache.entity_keys@[e]@);
        lemma_key_after(before, meta, e, after.cache.entity_keys@[e]@);
    }
    let versions = after.cache.version_manager.entities@;
    assert(versions == commit::applied(cache, meta, order).versions.entities);
    assert forall|key: Seq<char>| #[trigger] deleted(before, meta, key) implies !versions.dom().contains(
        key,
    ) by {
        lemma_version(before, meta, order, key);
    }
    assert forall|key: Seq<char>|
        #![trigger versions.dom().contains(key)]
        !deleted(before, meta, key) implies (versions.dom().contains(key)
        <==> before.cache.version_manager.entities@.dom().contains(key) || created(meta, key)) by {
        lemma_version(before, meta, order, key);
    }
    assert forall|key: Seq<char>| #[trigger]
        versions.dom().contains(key) implies versions[key] == (if created(meta, key) {
        1
    } else {
        before.cache.version_manager.entities@[key] as int
    }) + sharing(before, meta, key).len() by {
        lemma_version(before, meta, order, key);
    }
    let resources = after.cache.version_manager.resources@;
    assert(resources == commit::applied(cache, meta, order).versions.resources);
    assert forall|t: TypeId| #[trigger] resources.dom().contains(t) implies resources[t]
        == if meta.committed_dirty_resources@.contains(t) {
        if before.cache.version_manager.resources@.dom().contains(t) {
            before.cache.version_manager.resources@[t] + 1
        } else {
            1
        }
    } else {
        before.cache.version_manager.resources@[t] as int
    } by {
        if meta.committed_dirty_resources@.contains(t) {
            assert(cache.versions.resource(t) != Some(u64::MAX));
        }
    }
    assert forall|e: Entity| #[trigger] meta.preassigned_keys@.dom().contains(e) implies exists|
        i: int,
    |
        0 <= i < guids.len() && (#[trigger] guids[i]).0 == e by {
        assert(order.to_set().contains(e));
        let i = choose|i: int| 0 <= i < order.len() && order[i] == e;
        assert(guids[i].0 == e);
    }
    assert forall|i: int| 0 <= i < guids.len() implies meta.preassigned_keys@.dom().contains(
        (#[trigger] guids[i]).0,
    ) && guids[i].1@ == meta.preassigned_keys@[guids[i].0]@ by {
        assert(order.to_set().contains(order[i]));
        assert(meta.keys()[order[i]] == meta.preassigned_keys@[order[i]]@);
    }
}

/// A task that succeeded: the session remembers what the store now has, tracks
/// the same changes as before, and the trigger is answered. A commit that was
/// queued meanwhile is triggered, unless a task of the pass failed: as it was
/// asked for where a trigger was kept for it, else over the connection of the
/// finished commit into the same store, without a correlation id.
pub proof fn law_successful_task_is_taken_over<C>(
    session: &mut PersistenceSession,
    status: &mut CommitStatus,
    queued: &mut Option<TriggerCommit<C>>,
    had_error: &mut bool,
    task: FinishedTask<C>,
    effects: TaskEffects<C>,
)
    requires
        call_ensures(complete_task::<C>, (session, status, queued, had_error, task), effects),
        task.meta matches Some(meta) ==> has_room(*old(session), meta),
        task.result is Ok,
    ensures
        same_tracking(*old(session), *final(session)),
        same_registries(*old(session), *final(session)),
        task.meta matches Some(meta) ==> {
            &&& remembers_success(*old(session), meta, *final(session))
            &&& guids_are_right(meta, effects.guids@)
            &&& says_success(effects.completed, task.correlation_id)
        },
        task.meta is None ==> {
            &&& same_cache(*old(session), *final(session))
            &&& effects.guids@.len() == 0
            &&& effects.completed is None
        },
        *final(status) == CommitStatus::Idle,
        *final(queued) is None,
        *final(had_error) == *old(had_error),
        *old(had_error) || *old(status) != CommitStatus::InProgressAndDirty
            ==> effects.follow_up is None,
        !*old(had_error) && *old(status) == CommitStatus::InProgressAndDirty && *old(queued) is Some
            ==> effects.follow_up == *old(queued),
        !*old(had_error) && *old(status) == CommitStatus::InProgressAndDirty && *old(queued) is None
            ==> match (task.meta, effects.follow_up) {
            (Some(meta), Some(trigger)) => {
                &&& trigger.correlation_id is None
                &&& trigger.target_connection == meta.connection
                &&& trigger.store == meta.store
            },
            (None, None) => true,
            _ => false,
        },
{
    lemma_same_tracking(*old(session), *final(session));
    match task.meta {
        Some(meta) => {
            lemma_room(*old(session), meta);
            lemma_remembers(*old(session), meta, *final(session), effects.guids@);
        },
        None => {
            lemma_same_cache(*old(session), *final(session));
        },
    }
}

/// Taking over a success on its own: see [`remembers_success`].
pub proof fn law_applied_success_is_remembered<C>(
    session: &mut PersistenceSession,
    meta: &CommitMeta<C>,
    guids: Vec<(Entity, String)>,
)
    requires
        call_ensures(apply_commit_success::<C>, (session, meta), guids),
        has_room(*old(session), *meta),
    ensures
        remembers_success(*old(session), *meta, *final(session)),
        guids_are_right(*meta, guids@),
        same_registries(*old(session), *final(session)),
        final(session).tracking == old(session).tracking,
{
    lemma_room(*old(session), *meta);
    lemma_remembers(*old(session), *meta, *final(session), guids@);
}

/// Every version that the success counts up is below the limit: those of the
/// written resources, and those of the documents, each with one step for every
/// updated entity that has its key.
pub open spec fn has_room<C>(session: PersistenceSession, meta: CommitMeta<C>) -> bool {
    let versions = session.cache.version_manager.entities@;
    let resources = session.cache.version_manager.resources@;
    &&& forall|t: TypeId| #[trigger]
        meta.committed_dirty_resources@.contains(t) && resources.dom().contains(t) ==> resources[t]
            < u64::MAX
    &&& forall|key: Seq<char>| #[trigger]
        created(meta, key) || versions.dom().contains(key) ==> (if created(meta, key) {
            1
        } else {
            versions[key] as int
        }) + sharing(session, meta, key).len() <= u64::MAX
}

proof fn lemma_room<C>(session: PersistenceSession, meta: CommitMeta<C>)
    ensures
        commit::success_fits(session.cache@, meta) == has_room(session, meta),
{
    let cache = session.cache@;
    let keys = commit::keys_after(cache.keys, meta.keys());
    let base = commit::versions_after(cache.versions.entities, meta.keys());
    let versions = session.cache.version_manager.entities@;
    let resources = session.cache.version_manager.resources@;
    assert forall|key: Seq<char>|
        #![trigger created(meta, key)]
        #![trigger base.dom().contains(key)]
        (base.dom().contains(key) <==> created(meta, key) || versions.dom().contains(key)) && (
        base.dom().contains(key) ==> base[key] == if created(meta, key) {
            1
        } else {
            versions[key]
        }) && crate::versioning::entities_with_key(keys, meta.updated_entities(), key)
            == sharing(session, meta, key) by {
        lemma_created(meta, key);
        let a = crate::versioning::entities_with_key(keys, meta.updated_entities(), key);
        let b = sharing(session, meta, key);
        assert forall|e: Entity| a.contains(e) == b.contains(e) by {
            lemma_key_after(session, meta, e, key);
        }
        assert(a =~= b);
    }
    assert forall|t: TypeId| #[trigger] cache.versions.resource(t) == if resources.dom().contains(
        t,
    ) {
        Some(resources[t])
    } else {
        None
    } by {}
    if has_room(session, meta) {
        assert forall|t: TypeId| #[trigger]
            meta.committed_dirty_resources@.contains(t) implies cache.versions.resource(t) != Some(
            u64::MAX,
        ) by {
            assert(cache.versions.resource(t) is Some ==> resources.dom().contains(t));
        }
        assert forall|key: Seq<char>| #[trigger] base.dom().contains(key) implies base[key]
            + crate::versioning::entities_with_key(keys, meta.updated_entities(), key).len()
            <= u64::MAX by {
            assert(created(meta, key) || versions.dom().contains(key));
        }
    }
    if commit::success_fits(cache, meta) {
        assert forall|t: TypeId| #[trigger]
            meta.committed_dirty_resources@.contains(t) && resources.dom().contains(
                t,
            ) implies resources[t] < u64::MAX by {
            assert(cache.versions.resource(t) == Some(resources[t]));
        }
        assert forall|key: Seq<char>| #[trigger]
            created(meta, key) || versions.dom().contains(key) implies (if created(meta, key) {
            1
        } else {
            versions[key] as int
        }) + sharing(session, meta, key).len() <= u64::MAX by {
            let advanced = Versions { entities: base, ..cache.versions };
            assert(advanced.entities_fit(keys, meta.updated_entities()));
            assert(advanced.entities.dom().contains(key));
            assert(base[key] + crate::versioning::entities_with_key(
                keys,
                meta.updated_entities(),
                key,
            ).len() <= u64::MAX);
        }
    }
}

/// A success can be taken over exactly where every version has room.
pub proof fn law_success_applies_where_there_is_room<C>(
    session: &PersistenceSession,
    meta: &CommitMeta<C>,
    b: bool,
)
    requires
        call_ensures(success_can_apply::<C>, (session, meta), b),
    ensures
        b <==> has_room(*session, *meta),
{
    lemma_room(*session, *meta);
}

/// What is tracked in one state is tracked in the other.
pub open spec fn tracked_still(before: DirtyModel, after: DirtyModel) -> bool {
    &&& forall|e: Entity, t: TypeId|
        before.components.dom().contains(e) && #[trigger] before.components[e].contains(t)
            ==> after.components.dom().contains(e) && after.components[e].contains(t)
    &&& before.despawned_entities.subset_of(after.despawned_entities)
    &&& before.resources.subset_of(after.resources)
    &&& before.despawned_resources.subset_of(after.despawned_resources)
}

proof fn lemma_pass_keeps_tracking<C>(
    trace: Seq<PassState<C>>,
    start: PassState<C>,
    tasks: Seq<FinishedTask<C>>,
    effects: Seq<TaskEffects<C>>,
    i: int,
)
    requires
        commit::is_pass(trace, start, tasks, effects),
        0 <= i < trace.len(),
    ensures
        tracked_still(trace[i].tracking, trace.last().tracking),
    decreases trace.len() - i,
{
    if i < trace.len() - 1 {
        lemma_pass_keeps_tracking(trace, start, tasks, effects, i + 1);
        assert(commit::completes(trace[i], tasks[i], trace[i + 1], effects[i]));
        assert(tracked_still(trace[i].tracking, trace[i + 1].tracking));
    }
}

/// A pass completes every task, or stops before the first one whose outcome
/// cannot be taken over; it loses no change: what was tracked before, and what
/// each failed commit had taken, is tracked after it. Each task that it completed
/// is answered with its own result, and after a failure or the first task no
/// commit is triggered. No commit is in progress after a task was completed.
pub proof fn law_pass_completes_every_task<C>(
    session: &mut PersistenceSession,
    status: &mut CommitStatus,
    queued: &mut Option<TriggerCommit<C>>,
    tasks: Vec<FinishedTask<C>>,
    report: CompletionReport<C>,
)
    requires
        call_ensures(
            handle_commit_completed::<C>,
            (session, status, queued, tasks),
            report,
        ),
    ensures
        report.effects@.len() <= tasks@.len(),
        report.overflow == (report.effects@.len() < tasks@.len()),
        same_registries(*old(session), *final(session)),
        tracked_still(old(session).tracking@, final(session).tracking@),
        forall|i: int|
            0 <= i < report.effects@.len() && (#[trigger] tasks@[i]).result is Err ==> {
                &&& says_failure(
                    report.effects@[i].completed,
                    tasks@[i].result->Err_0@,
                    tasks@[i].correlation_id,
                )
                &&& report.effects@[i].guids@.len() == 0
                &&& tasks@[i].meta matches Some(meta) ==> tracked_still(
                    meta.restorable(),
                    final(session).tracking@,
                )
            },
        forall|i: int|
            0 <= i < report.effects@.len() && (#[trigger] tasks@[i]).result is Ok
                && tasks@[i].meta is Some ==> says_success(
                report.effects@[i].completed,
                tasks@[i].correlation_id,
            ) && guids_are_right(tasks@[i].meta->0, report.effects@[i].guids@),
        forall|i: int|
            0 < i < report.effects@.len() ==> (#[trigger] report.effects@[i]).follow_up is None,
        report.effects@.len() > 0 ==> {
            &&& *final(status) == CommitStatus::Idle
            &&& *final(queued) is None
            &&& tasks@[0].result is Ok && *old(status) == CommitStatus::InProgressAndDirty
                && *old(queued) is Some ==> report.effects@[0].follow_up == *old(queued)
        },
        report.effects@.len() == 0 ==> {
            &&& *final(status) == *old(status)
            &&& *final(queued) == *old(queued)
            &&& same_tracking(*old(session), *final(session))
            &&& same_cache(*old(session), *final(session))
        },
{
    let start = commit::pass_state(*old(session), *old(status), *old(queued), false);
    let effects = report.effects@;
    let trace = choose|trace: Seq<PassState<C>>| #[trigger]
        commit::pass_leads_to(
            trace,
            start,
            tasks@,
            report,
            *final(session),
            *final(status),
            *final(queued),
        );
    lemma_pass_keeps_tracking(trace, start, tasks@, effects, 0);
    assert forall|i: int| 0 <= i < effects.len() && (#[trigger] tasks@[i]).result is Err implies {
        &&& says_failure(
            effects[i].completed,
            tasks@[i].result->Err_0@,
            tasks@[i].correlation_id,
        )
        &&& effects[i].guids@.len() == 0
        &&& tasks@[i].meta matches Some(meta) ==> tracked_still(
            meta.restorable(),
            final(session).tracking@,
        )
    } by {
        assert(commit::completes(trace[i], tasks@[i], trace[i + 1], effects[i]));
        lemma_pass_keeps_tracking(trace, start, tasks@, effects, i + 1);
        match tasks@[i].meta {
            Some(meta) => {
                assert(tracked_still(meta.restorable(), trace[i + 1].tracking));
            },
            None => {},
        }
    }
    assert forall|i: int|
        0 <= i < effects.len() && (#[trigger] tasks@[i]).result is Ok
            && tasks@[i].meta is Some implies says_success(
        effects[i].completed,
        tasks@[i].correlation_id,
    ) && guids_are_right(tasks@[i].meta->0, effects[i].guids@) by {
        assert(commit::completes(trace[i], tasks@[i], trace[i + 1], effects[i]));
        lemma_guids(trace[i].cache, tasks@[i].meta->0, trace[i + 1].cache, effects[i].guids@);
    }
    assert forall|i: int| 0 < i < effects.len() implies (
    #[trigger] effects[i]).follow_up is None by {
        commit::law_pass_triggers_at_most_once(trace, start, tasks@, effects, i);
    }
    if effects.len() > 0 {
        commit::law_pass_leaves_no_commit_in_progress(trace, start, tasks@, effects);
        let i = effects.len() - 1;
        assert(commit::completes(trace[i], tasks@[i], trace[i + 1], effects[i]));
        assert(commit::completes(trace[0], tasks@[0], trace[0int + 1], effects[0]));
    } else {
        lemma_same_tracking(*old(session), *final(session));
        lemma_same_cache(*old(session), *final(session));
    }
}

/// A pass stops early only before a task that succeeded and whose outcome has no
/// room in the versions.
pub proof fn law_pass_stops_only_without_room<C>(
    session: &mut PersistenceSession,
    status: &mut CommitStatus,
    queued: &mut Option<TriggerCommit<C>>,
    tasks: Vec<FinishedTask<C>>,
    report: CompletionReport<C>,
)
    requires
        call_ensures(
            handle_commit_completed::<C>,
            (session, status, queued, tasks),
            report,
        ),
        report.effects@.len() < tasks@.len(),
    ensures
        report.overflow,
        tasks@[report.effects@.len() as int].result is Ok,
        tasks@[report.effects@.len() as int].meta is Some,
        !has_room(*final(session), tasks@[report.effects@.len() as int].meta->0),
{
    let task = tasks@[report.effects@.len() as int];
    assert(!task.can_complete(final(session).cache@));
    lemma_room(*final(session), task.meta->0);
}

/// A pass over one task does what the task calls for: a success is remembered,
/// and a failed commit gives back what it had taken.
pub proof fn law_pass_over_one_task<C>(
    session: &mut PersistenceSession,
    status: &mut CommitStatus,
    queued: &mut Option<TriggerCommit<C>>,
    tasks: Vec<FinishedTask<C>>,
    report: CompletionReport<C>,
)
    requires
        call_ensures(
            handle_commit_completed::<C>,
            (session, status, queued, tasks),
            report,
        ),
        tasks@.len() == 1,
        report.effects@.len() == 1,
        tasks@[0].meta is Some,
    ensures
        tasks@[0].result is Ok && has_room(*old(session), tasks@[0].meta->0) ==> remembers_success(
            *old(session),
            tasks@[0].meta->0,
            *final(session),
        ) && same_tracking(*old(session), *final(session)),
        tasks@[0].result is Err ==> given_back(*old(session), tasks@[0].meta->0, *final(session))
            && same_cache(*old(session), *final(session)),
{
    let start = commit::pass_state(*old(session), *old(status), *old(queued), false);
    let trace = choose|trace: Seq<PassState<C>>| #[trigger]
        commit::pass_leads_to(
            trace,
            start,
            tasks@,
            report,
            *final(session),
            *final(status),
            *final(queued),
        );
    let meta = tasks@[0].meta->0;
    assert(commit::completes(trace[0], tasks@[0], trace[0int + 1], report.effects@[0]));
    lemma_room(*old(session), meta);
    if tasks@[0].result is Err {
        lemma_given_back(*old(session), meta, *final(session));
        lemma_same_cache(*old(session), *final(session));
    } else if has_room(*old(session), meta) {
        lemma_remembers(*old(session), meta, *final(session), report.effects@[0].guids@);
        lemma_same_tracking(*old(session), *final(session));
    }
}

proof fn lemma_guids<C>(
    before: CacheModel,
    meta: CommitMeta<C>,
    after: CacheModel,
    guids: Seq<(Entity, String)>,
)
    requires
        commit::success_leads_to(before, meta, after, guids),
    ensures
        guids_are_right(meta, guids),
{
    let order = choose|order: Seq<Entity>|
        {
            &&& order.no_duplicates()
            &&& order.to_set() == meta.preassigned_keys@.dom()
            &&& after == #[trigger] commit::applied(before, meta, order)
            &&& commit::guids_in_order(guids, meta, order)
        };
    assert forall|e: Entity| #[trigger] meta.preassigned_keys@.dom().contains(e) implies exists|
        i: int,
    |
        0 <= i < guids.len() && (#[trigger] guids[i]).0 == e by {
        assert(order.to_set().contains(e));
        let i = choose|i: int| 0 <= i < order.len() && order[i] == e;
        assert(guids[i].0 == e);
    }
    assert forall|i: int| 0 <= i < guids.len() implies meta.preassigned_keys@.dom().contains(
        (#[trigger] guids[i]).0,
    ) && guids[i].1@ == meta.preassigned_keys@[guids[i].0]@ by {
        assert(order.to_set().contains(order[i]));
        assert(meta.keys()[order[i]] == meta.preassigned_keys@[order[i]]@);
    }
}

/// Triggers start a commit only where none runs, and then the first one with its
/// own connection, store and correlation id, over all that has changed; the
/// session is clean after that. A first trigger without a store is refused with
/// its id. While a commit runs, triggers queue one more, and the first of them is
/// kept. Without triggers nothing happens.
pub proof fn law_triggers_are_handled<C>(
    session: &mut PersistenceSession,
    status: &mut CommitStatus,
    queued: &mut Option<TriggerCommit<C>>,
    triggers: Vec<TriggerCommit<C>>,
    decision: TriggerDecision<C>,
)
    requires
        call_ensures(
            accept_commit_triggers::<C>,
            (session, status, queued, triggers),
            decision,
        ),
    ensures
        same_cache(*old(session), *final(session)),
        same_registries(*old(session), *final(session)),
        triggers@.len() == 0 ==> {
            &&& decision is Wait
            &&& *final(status) == *old(status)
            &&& *final(queued) == *old(queued)
            &&& same_tracking(*old(session), *final(session))
        },
        triggers@.len() > 0 && *old(status) != CommitStatus::Idle ==> {
            &&& decision is Wait
            &&& *final(status) == CommitStatus::InProgressAndDirty
            &&& *final(queued) == if *old(queued) is Some {
                *old(queued)
            } else {
                Some(triggers@[0])
            }
            &&& same_tracking(*old(session), *final(session))
        },
        triggers@.len() > 0 && *old(status) == CommitStatus::Idle ==> {
            &&& *final(status) == CommitStatus::Idle
            &&& *final(queued) == *old(queued)
            &&& if triggers@[0].store@.len() == 0 {
                &&& decision matches TriggerDecision::Reject(completed) && says_failure(
                    Some(completed),
                    ErrorModel::General("TriggerCommit store must be non-empty"@),
                    triggers@[0].correlation_id,
                )
                &&& same_tracking(*old(session), *final(session))
            } else {
                &&& decision matches TriggerDecision::Prepare(pending) && pending.correlation_id
                    == triggers@[0].correlation_id && pending.connection
                    == triggers@[0].target_connection && pending.store@ == triggers@[0].store@
                    && pending.queue_follow_up == (triggers@.len() > 1) && pending.dirty == old(session).tracking
                &&& forall|e: Entity, t: TypeId| !(#[trigger] tracks_component(
                    *final(session),
                    e,
                    t,
                ))
                &&& final(session).tracking.dirty_entity_components@.dom() == Set::<Entity>::empty()
                &&& final(session).tracking.despawned_entities@ == Set::<Entity>::empty()
                &&& final(session).tracking.dirty_resources@ == Set::<TypeId>::empty()
                &&& final(session).tracking.despawned_resources@ == Set::<TypeId>::empty()
                &&& final(session).tracking.dirty_relationship_entities@ == Set::<Entity>::empty()
            }
        },
{
    lemma_same_cache(*old(session), *final(session));
    match decision {
        TriggerDecision::Prepare(_) => {
            assert(final(session).tracking@.components.dom()
                =~= final(session).tracking.dirty_entity_components@.dom());
        },
        _ => {
            lemma_same_tracking(*old(session), *final(session));
        },
    }
}

/// An accepted commit is run exactly where it can be prepared and has something to
/// do, and then with what the changes call for: see
/// [`crate::laws::prepare::faithful`]. Otherwise it is answered at once, and all
/// that it took is tracked again.
pub proof fn law_accepted_commit_is_faithful<C>(
    session: &mut PersistenceSession,
    status: &mut CommitStatus,
    pending: PendingCommit<C>,
    world: &WorldSnapshot,
    order: &CommitOrder,
    keys: HashMap<Entity, String>,
    key_field: &str,
    start: CommitStart<C>,
)
    requires
        old(session).wf(),
        order.enumerates(pending.dirty@),
        call_ensures(
            prepare_accepted_commit::<C>,
            (session, status, pending, world, order, keys, key_field),
            start,
        ),
    ensures
        same_cache(*old(session), *final(session)),
        same_registries(*old(session), *final(session)),
        match start {
            CommitStart::Run(request) => {
                &&& request.operations@.len() > 0
                &&& request.correlation_id == pending.correlation_id
                &&& request.meta.connection == pending.connection
                &&& request.meta.store@ == pending.store@
                &&& request.meta.preassigned_keys@ == keys@
                &&& forall|e: Entity, t: TypeId| #[trigger]
                    took_component(request.meta, e, t)
                        <==> pending.dirty.dirty_entity_components@.dom().contains(e)
                        && pending.dirty.dirty_entity_components@[e]@.contains(t)
                &&& request.meta.dirty_entity_components@.dom()
                    == pending.dirty.dirty_entity_components@.dom()
                &&& request.meta.despawned_entities@ == pending.dirty.despawned_entities@
                &&& request.meta.dirty_resources@ == pending.dirty.dirty_resources@
                &&& request.meta.despawned_resources@ == pending.dirty.despawned_resources@
                &&& crate::laws::prepare::faithful(
                    *old(session),
                    *world,
                    pending.dirty@,
                    keys@,
                    key_field@,
                    pending.store@,
                    (CommitModel {
                        operations: connection::operation_models(request.operations@),
                        new_entities: request.new_entities@,
                        new_edge_snapshot: request.meta.new_edge_snapshot@,
                        preassigned_keys: cache::key_texts(request.meta.preassigned_keys@),
                        committed_components: tracking::component_sets(
                            request.meta.committed_entity_components@,
                        ),
                        committed_despawned_entities: request.meta.committed_despawned_entities@,
                        committed_resources: request.meta.committed_dirty_resources@,
                        committed_despawned_resources: request.meta.committed_despawned_resources@,
                    }),
                )
                &&& same_tracking(*old(session), *final(session))
                &&& *final(status) == if pending.queue_follow_up {
                    CommitStatus::InProgressAndDirty
                } else {
                    CommitStatus::InProgress
                }
            },
            CommitStart::Over(completed) => {
                &&& *final(status) == *old(status)
                &&& joined(*old(session), pending.dirty, *final(session))
                &&& match completed.result {
                    Ok(_) => {
                        &&& says_success(Some(completed), pending.correlation_id)
                        &&& exists|data: CommitModel|
                            data.operations.len() == 0 && #[trigger] crate::laws::prepare::faithful(
                                *old(session),
                                *world,
                                pending.dirty@,
                                keys@,
                                key_field@,
                                pending.store@,
                                data,
                            )
                        &&& forall|e: ErrorModel| !(
                        #[trigger] crate::laws::prepare::refused(
                            *old(session),
                            *world,
                            pending.dirty@,
                            pending.store@,
                            e,
                        ))
                    },
                    Err(e) => {
                        &&& says_failure(Some(completed), e@, pending.correlation_id)
                        &&& crate::laws::prepare::refused(
                            *old(session),
                            *world,
                            pending.dirty@,
                            pending.store@,
                            e@,
                        )
                    },
                }
            },
        },
{
    crate::laws::prepare::lemma_faithful(
        *old(session),
        *world,
        pending.dirty@,
        *order,
        keys@,
        key_field@,
        pending.store@,
    );
    lemma_same_cache(*old(session), *final(session));
    match start {
        CommitStart::Run(request) => {
            lemma_same_tracking(*old(session), *final(session));
            let (a, b) = (request.meta.restorable(), pending.dirty@);
            assert(a.components.dom() =~= request.meta.dirty_entity_components@.dom());
            assert(b.components.dom() =~= pending.dirty.dirty_entity_components@.dom());
            assert forall|e: Entity, t: TypeId| #[trigger]
                took_component(request.meta, e, t)
                    <==> pending.dirty.dirty_entity_components@.dom().contains(e)
                    && pending.dirty.dirty_entity_components@[e]@.contains(t) by {
                assert(took_component(request.meta, e, t) == (a.components.dom().contains(e)
                    && a.components[e].contains(t)));
                if b.components.dom().contains(e) {
                    assert(b.components[e] == pending.dirty.dirty_entity_components@[e]@);
                }
            }
            assert(connection::operation_models(request.operations@).len()
                == request.operations@.len());
        },
        CommitStart::Over(completed) => {
            lemma_joined(*old(session), pending.dirty, *final(session));
            match completed.result {
                Ok(_) => {
                    let data = prepare_commit::prepared_commit(
                        *old(session),
                        *world,
                        pending.dirty@,
                        *order,
                        keys@,
                        key_field@,
                        pending.store@,
                    )->Ok_0;
                    assert(crate::laws::prepare::faithful(
                        *old(session),
                        *world,
                        pending.dirty@,
                        keys@,
                        key_field@,
                        pending.store@,
                        data,
                    ));
                },
                Err(_) => {},
            }
        },
    }
}

/// A task that is not over has no result; one whose channel was closed failed.
pub proof fn law_closed_task_failed(poll: TaskPoll, r: Option<TransactionResult>)
    requires
        call_ensures(task_result, (poll,), r),
    ensures
        poll is Pending <==> r is None,
        poll matches TaskPoll::Finished(result) ==> r == Some(result),
        poll is Closed ==> r is Some && r->0 is Err && r->0->Err_0@ == ErrorModel::General(
            "Commit task cancelled before completion"@,
        ),
{
}

/// A commit is in flight unless the status says that none is.
pub proof fn law_commit_is_in_flight(status: &CommitStatus, b: bool)
    requires
        call_ensures(commit::commit_in_flight, (status,), b),
    ensures
        !b <==> *status is Idle,
{
}

/// Taking over a success in a given order: see [`remembers_success`]. The GUIDs
/// come in that order.
pub proof fn law_success_applied_in_order<C>(
    session: &mut PersistenceSession,
    meta: &CommitMeta<C>,
    order: &Vec<Entity>,
    guids: Vec<(Entity, String)>,
)
    requires
        call_ensures(commit::apply_commit_success_in_order::<C>, (session, meta, order), guids),
        has_room(*old(session), *meta),
        order@.no_duplicates(),
        order@.to_set() == meta.preassigned_keys@.dom(),
    ensures
        remembers_success(*old(session), *meta, *final(session)),
        guids_are_right(*meta, guids@),
        same_registries(*old(session), *final(session)),
        final(session).tracking == old(session).tracking,
        guids@.len() == order@.len(),
        forall|i: int| 0 <= i < order@.len() ==> (#[trigger] guids@[i]).0 == order@[i],
{
    lemma_room(*old(session), *meta);
    assert(commit::success_leads_to(old(session).cache@, *meta, final(session).cache@, guids@)) by {
        assert(final(session).cache@ == commit::applied(old(session).cache@, *meta, order@));
    }
    lemma_remembers(*old(session), *meta, *final(session), guids@);
}

} // verus!
