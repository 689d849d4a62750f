//! The commit life cycle: triggers, running commits and their completion.
use std::collections::{HashMap, HashSet};

use vstd::hash_map::StringHashMap;
use vstd::hash_set::StringHashSet;
use vstd::prelude::*;
use vstd::string::*;

use crate::collections;
use crate::collections::KeySet;
use crate::db::connection;
use crate::db::connection::{
    DocumentKind, EdgeModel, ErrorModel, OperationModel, PersistenceError, TransactionOperation,
};
use crate::session::cache;
use crate::session::cache::CacheModel;
use crate::session::edges;
use crate::session::prepare_commit;
use crate::session::prepare_commit::{CommitData, CommitModel, CommitOrder, WorldSnapshot};
use crate::session::state::PersistenceSession;
use crate::session::tracking;
use crate::session::tracking::{DirtyModel, DirtyState};
use crate::session::{Entity, TypeId};
use crate::value::Json;
use crate::versioning::{VersionKey, Versions};

verus! {

broadcast use {vstd::std_specs::hash::group_hash_axioms, vstd::hash_map::group_hash_map_axioms};

/// Message emitted when a background commit task is complete.
#[derive(Debug)]
pub struct CommitCompleted {
    pub result: Result<Vec<String>, PersistenceError>,
    pub dirty_entities: Vec<Entity>,
    pub correlation_id: Option<u64>,
}

impl CommitCompleted {
    /// Reports success, with nothing to tell.
    pub open spec fn succeeded(&self, correlation_id: Option<u64>) -> bool {
        &&& self.result is Ok
        &&& self.result->Ok_0@.len() == 0
        &&& self.dirty_entities@.len() == 0
        &&& self.correlation_id == correlation_id
    }

    /// Reports that error.
    pub open spec fn failed(&self, error: ErrorModel, correlation_id: Option<u64>) -> bool {
        &&& self.result is Err
        &&& self.result->Err_0@ == error
        &&& self.dirty_entities@.len() == 0
        &&& self.correlation_id == correlation_id
    }

    fn success(correlation_id: Option<u64>) -> (r: Self)
        ensures
            r.succeeded(correlation_id),
    {
        CommitCompleted { result: Ok(Vec::new()), dirty_entities: Vec::new(), correlation_id }
    }

    fn failure(error: PersistenceError, correlation_id: Option<u64>) -> (r: Self)
        ensures
            r.failed(error@, correlation_id),
    {
        CommitCompleted { result: Err(error), dirty_entities: Vec::new(), correlation_id }
    }
}

/// Message that users send to trigger a commit.
pub struct TriggerCommit<C> {
    /// An optional ID to correlate this trigger with a `CommitCompleted` event.
    pub correlation_id: Option<u64>,
    /// Connection to use directly for this commit.
    pub target_connection: C,
    /// Store to write into for this commit.
    pub store: String,
}

/// A state machine resource to track the commit lifecycle.
#[derive(Clone, Copy, Debug, PartialEq, Eq, Structural)]
pub enum CommitStatus {
    Idle,
    InProgress,
    InProgressAndDirty,
}

impl Default for CommitStatus {
    fn default() -> (r: Self)
        ensures
            r == CommitStatus::Idle,
    {
        CommitStatus::Idle
    }
}

/// Run-condition: `true` while a commit is in progress or queued.
///
/// Gate a commit-trigger system with `.run_if(not(commit_in_flight))` to avoid
/// preparing a redundant trigger while one is still running.
pub fn commit_in_flight(status: &CommitStatus) -> (b: bool)
    ensures
        b == (*status != CommitStatus::Idle),
{
    !matches!(*status, CommitStatus::Idle)
}

/// A commit that has been accepted and is to be prepared from the world.
pub struct PendingCommit<C> {
    pub correlation_id: Option<u64>,
    pub connection: C,
    pub store: String,
    /// Further triggers came with the one that started this commit.
    pub queue_follow_up: bool,
    /// What the commit works on, taken out of the session.
    pub dirty: DirtyState,
}

/// What becomes of the triggers of one frame.
pub enum TriggerDecision<C> {
    /// Nothing is to be done now.
    Wait,
    /// The trigger is answered with an error.
    Reject(CommitCompleted),
    /// A commit is to be prepared.
    Prepare(PendingCommit<C>),
}

/// The status after the triggers of one frame: a trigger that comes while a
/// commit runs queues another one.
pub open spec fn status_after_triggers(status: CommitStatus, triggers: nat) -> CommitStatus {
    if triggers > 0 && status == CommitStatus::InProgress {
        CommitStatus::InProgressAndDirty
    } else {
        status
    }
}

/// The trigger kept for the commit after the running one: the first that comes
/// while a commit runs.
pub open spec fn queued_after_triggers<C>(
    status: CommitStatus,
    queued: Option<TriggerCommit<C>>,
    triggers: Seq<TriggerCommit<C>>,
) -> Option<TriggerCommit<C>> {
    if triggers.len() > 0 && status != CommitStatus::Idle && queued is None {
        Some(triggers[0])
    } else {
        queued
    }
}

/// Handles the [`TriggerCommit`] messages of one frame.
///
/// Multiple triggers in one frame are coalesced: the first starts (or queues) a commit
/// using its connection/store/correlation id; any further messages only ensure a follow-up
/// commit is queued via [`CommitStatus::InProgressAndDirty`] (their correlation ids are not
/// retained — register at most one waiter per coalesced burst).
///
/// While a commit runs, `queued` keeps the first trigger that comes, for the
/// commit that follows.
pub fn accept_commit_triggers<C>(
    session: &mut PersistenceSession,
    status: &mut CommitStatus,
    queued: &mut Option<TriggerCommit<C>>,
    triggers: Vec<TriggerCommit<C>>,
) -> (decision: TriggerDecision<C>)
    ensures
        old(session).wf() ==> final(session).wf(),
        tracking::only_tracking_changed(*old(session), *final(session)),
        *final(status) == status_after_triggers(*old(status), triggers@.len()),
        *final(queued) == queued_after_triggers(*old(status), *old(queued), triggers@),
        match decision {
            TriggerDecision::Wait => {
                &&& triggers@.len() == 0 || *old(status) != CommitStatus::Idle
                &&& *final(session) == *old(session)
            },
            TriggerDecision::Reject(completed) => {
                &&& triggers@.len() > 0
                &&& *old(status) == CommitStatus::Idle
                &&& triggers@[0].store@.len() == 0
                &&& completed.failed(
                    ErrorModel::General("TriggerCommit store must be non-empty"@),
                    triggers@[0].correlation_id,
                )
                &&& *final(session) == *old(session)
            },
            TriggerDecision::Prepare(pending) => {
                &&& triggers@.len() > 0
                &&& *old(status) == CommitStatus::Idle
                &&& triggers@[0].store@.len() > 0
                &&& pending.correlation_id == triggers@[0].correlation_id
                &&& pending.connection == triggers@[0].target_connection
                &&& pending.store == triggers@[0].store
                &&& pending.queue_follow_up == (triggers@.len() > 1)
                &&& pending.dirty == old(session).tracking
                &&& final(session).tracking@ == DirtyModel::clean()
            },
        },
{
    let count: usize = triggers.len();
    if count == 0 {
        return TriggerDecision::Wait;
    }
    let mut triggers: Vec<TriggerCommit<C>> = triggers;
    let first: TriggerCommit<C> = triggers.swap_remove(0);
    match *status {
        CommitStatus::InProgress | CommitStatus::InProgressAndDirty => {
            *status = CommitStatus::InProgressAndDirty;
            if queued.is_none() {
                *queued = Some(first);
            }
            return TriggerDecision::Wait;
        },
        CommitStatus::Idle => {},
    }
    if first.store.as_str().is_empty() {
        return TriggerDecision::Reject(
            CommitCompleted::failure(
                PersistenceError::new("TriggerCommit store must be non-empty"),
                first.correlation_id,
            ),
        );
    }
    let dirty: DirtyState = session.take_dirty_state();
    TriggerDecision::Prepare(
        PendingCommit {
            correlation_id: first.correlation_id,
            connection: first.target_connection,
            store: first.store,
            queue_follow_up: count > 1,
            dirty,
        },
    )
}

/// Bundles all per-commit data for the task that runs the transaction.
pub struct CommitRequest<C> {
    pub correlation_id: Option<u64>,
    pub operations: Vec<TransactionOperation>,
    pub new_entities: Vec<Entity>,
    pub meta: CommitMeta<C>,
}

/// What is kept of a running commit until it completes.
pub struct CommitMeta<C> {
    /// Original dirty sets taken at trigger time — restored on failure.
    pub dirty_entity_components: HashMap<Entity, HashSet<TypeId>>,
    pub despawned_entities: HashSet<Entity>,
    pub dirty_resources: HashSet<TypeId>,
    pub despawned_resources: HashSet<TypeId>,
    /// Effective sets that produced DB operations — applied on success.
    pub committed_entity_components: HashMap<Entity, HashSet<TypeId>>,
    pub committed_despawned_entities: HashSet<Entity>,
    pub committed_dirty_resources: HashSet<TypeId>,
    pub committed_despawned_resources: HashSet<TypeId>,
    pub connection: C,
    pub store: String,
    /// Updated edge snapshot to apply on success.
    pub new_edge_snapshot: KeySet,
    /// Client-side preassigned keys for new entities.
    pub preassigned_keys: HashMap<Entity, String>,
}

impl<C> CommitMeta<C> {
    pub open spec fn wf(&self) -> bool {
        self.new_edge_snapshot.wf()
    }

    /// What is restored when the commit fails. Changed relationships are not
    /// kept: they are scanned again once they change again.
    pub open spec fn restorable(&self) -> DirtyModel {
        DirtyModel {
            components: tracking::component_sets(self.dirty_entity_components@),
            despawned_entities: self.despawned_entities@,
            resources: self.dirty_resources@,
            despawned_resources: self.despawned_resources@,
            relationships: Set::empty(),
        }
    }
}

impl<C> CommitRequest<C> {
    /// Carries a prepared commit: its operations, what it works on, and what
    /// its success means.
    pub open spec fn carries(&self, pending: PendingCommit<C>, data: CommitModel) -> bool {
        &&& self.correlation_id == pending.correlation_id
        &&& connection::operation_models(self.operations@) == data.operations
        &&& self.new_entities@ == data.new_entities
        &&& self.meta.wf()
        &&& self.meta.connection == pending.connection
        &&& self.meta.store == pending.store
        &&& self.meta.restorable() == (DirtyModel {
            relationships: Set::empty(),
            ..pending.dirty@
        })
        &&& tracking::component_sets(self.meta.committed_entity_components@)
            == data.committed_components
        &&& self.meta.committed_despawned_entities@ == data.committed_despawned_entities
        &&& self.meta.committed_dirty_resources@ == data.committed_resources
        &&& self.meta.committed_despawned_resources@ == data.committed_despawned_resources
        &&& self.meta.new_edge_snapshot@ == data.new_edge_snapshot
        &&& cache::key_texts(self.meta.preassigned_keys@) == data.preassigned_keys
    }
}

/// What becomes of an accepted commit.
pub enum CommitStart<C> {
    /// The commit is over before it started: nothing to write, or an error.
    Over(CommitCompleted),
    /// The transaction is to be run.
    Run(CommitRequest<C>),
}

/// Prepares an accepted commit from the world.
///
/// Where there is nothing to write, or the preparation fails, the commit is
/// answered at once, and what it took goes back to the session. Otherwise a
/// commit is in progress from now on.
pub fn prepare_accepted_commit<C>(
    session: &mut PersistenceSession,
    status: &mut CommitStatus,
    pending: PendingCommit<C>,
    world: &WorldSnapshot,
    order: &CommitOrder,
    keys: HashMap<Entity, String>,
    key_field: &str,
) -> (start: CommitStart<C>)
    requires
        old(session).wf(),
        order.enumerates(pending.dirty@),
        prepare_commit::versions_fit(*old(session), *world, pending.dirty@),
        forall|e: Entity| #[trigger]
            prepare_commit::committed_components(
                *old(session),
                *world,
                pending.dirty@.components,
            ).dom().contains(e) ==> old(session).cache.key_of(e) is Some || keys@.dom().contains(e),
    ensures
        final(session).wf(),
        tracking::only_tracking_changed(*old(session), *final(session)),
        match prepare_commit::prepared_commit(
            *old(session),
            *world,
            pending.dirty@,
            *order,
            keys@,
            key_field@,
            pending.store@,
        ) {
            Ok(data) => if data.operations.len() == 0 {
                &&& start is Over
                &&& start->Over_0.succeeded(pending.correlation_id)
                &&& final(session).tracking@ == old(session).tracking@.merge(pending.dirty@)
                &&& *final(status) == *old(status)
            } else {
                &&& start is Run
                &&& start->Run_0.carries(pending, data)
                &&& start->Run_0.meta.preassigned_keys == keys
                &&& *final(session) == *old(session)
                &&& *final(status) == if pending.queue_follow_up {
                    CommitStatus::InProgressAndDirty
                } else {
                    CommitStatus::InProgress
                }
            },
            Err(e) => {
                &&& start is Over
                &&& start->Over_0.failed(e, pending.correlation_id)
                &&& final(session).tracking@ == old(session).tracking@.merge(pending.dirty@)
                &&& *final(status) == *old(status)
            },
        },
{
    let prepared: Result<CommitData, PersistenceError> = session.prepare_commit_with_keys(
        world,
        &pending.dirty,
        order,
        keys,
        key_field,
        pending.store.as_str(),
    );
    match prepared {
        Err(e) => {
            session.restore_dirty_state(pending.dirty);
            CommitStart::Over(CommitCompleted::failure(e, pending.correlation_id))
        },
        Ok(data) => {
            if data.operations.len() == 0 {
                session.restore_dirty_state(pending.dirty);
                return CommitStart::Over(CommitCompleted::success(pending.correlation_id));
            }
            *status = if pending.queue_follow_up {
                CommitStatus::InProgressAndDirty
            } else {
                CommitStatus::InProgress
            };
            let dirty: DirtyState = pending.dirty;
            CommitStart::Run(
                CommitRequest {
                    correlation_id: pending.correlation_id,
                    operations: data.operations,
                    new_entities: data.new_entities,
                    meta: CommitMeta {
                        dirty_entity_components: dirty.dirty_entity_components,
                        despawned_entities: dirty.despawned_entities,
                        dirty_resources: dirty.dirty_resources,
                        despawned_resources: dirty.despawned_resources,
                        committed_entity_components: data.committed_entity_components,
                        committed_despawned_entities: data.committed_despawned_entities,
                        committed_dirty_resources: data.committed_dirty_resources,
                        committed_despawned_resources: data.committed_despawned_resources,
                        connection: pending.connection,
                        store: pending.store,
                        new_edge_snapshot: data.new_edge_snapshot,
                        preassigned_keys: data.preassigned_keys,
                    },
                },
            )
        },
    }
}

/// The cache after the preassigned keys have been taken over in that order:
/// each entity has its key, and its document has version 1.
pub open spec fn assigned(
    cache: CacheModel,
    keys: Map<Entity, Seq<char>>,
    order: Seq<Entity>,
) -> CacheModel
    decreases order.len(),
{
    if order.len() == 0 {
        cache
    } else {
        let before = assigned(cache, keys, order.drop_last());
        let key = keys[order.last()];
        CacheModel {
            versions: before.versions.set_entity(key, 1),
            ..before.with_key(order.last(), key)
        }
    }
}

impl<C> CommitMeta<C> {
    /// The preassigned keys.
    pub open spec fn keys(&self) -> Map<Entity, Seq<char>> {
        cache::key_texts(self.preassigned_keys@)
    }

    /// The entities whose stored documents were updated.
    pub open spec fn updated_entities(&self) -> Set<Entity> {
        self.committed_entity_components@.dom().difference(self.preassigned_keys@.dom())
    }
}

/// The cache after a commit has succeeded: new documents have version 1,
/// updated ones the next version, deleted ones none, and the edge snapshot is
/// the new one.
///
/// `order` is the order in which the preassigned keys are taken over. It makes
/// a difference only where two entities were assigned one key.
pub open spec fn applied<C>(
    cache: CacheModel,
    meta: CommitMeta<C>,
    order: Seq<Entity>,
) -> CacheModel {
    let base = assigned(cache, meta.keys(), order);
    CacheModel {
        versions: base.versions.count_up_resources(
            meta.committed_dirty_resources@,
        ).forget_resources(meta.committed_despawned_resources@).count_up_entities(
            base.keys,
            meta.updated_entities(),
        ).forget_entities(base.keys, meta.committed_despawned_entities@),
        snapshot: meta.new_edge_snapshot@,
        ..base
    }
}

/// The entity keys after the preassigned keys have been taken over.
pub open spec fn keys_after(
    keys: Map<Entity, Seq<char>>,
    preassigned: Map<Entity, Seq<char>>,
) -> Map<Entity, Seq<char>> {
    keys.union_prefer_right(preassigned)
}

/// The versions of documents after those of the preassigned keys have become 1.
pub open spec fn versions_after(
    versions: Map<Seq<char>, u64>,
    preassigned: Map<Entity, Seq<char>>,
) -> Map<Seq<char>, u64> {
    Map::new(
        |key: Seq<char>| versions.dom().contains(key) || preassigned.values().contains(key),
        |key: Seq<char>|
            if preassigned.values().contains(key) {
                1
            } else {
                versions[key]
            },
    )
}

/// Every version that the success of a commit counts up can be counted up.
pub open spec fn success_fits<C>(cache: CacheModel, meta: CommitMeta<C>) -> bool {
    &&& cache.versions.resources_fit(meta.committed_dirty_resources@)
    &&& (Versions {
        entities: versions_after(cache.versions.entities, meta.keys()),
        ..cache.versions
    }).entities_fit(keys_after(cache.keys, meta.keys()), meta.updated_entities())
}

/// The keys and versions after the takeover do not depend on its order.
proof fn lemma_assigned(cache: CacheModel, keys: Map<Entity, Seq<char>>, order: Seq<Entity>)
    requires
        forall|i: int| 0 <= i < order.len() ==> keys.dom().contains(#[trigger] order[i]),
    ensures
        assigned(cache, keys, order).keys == keys_after(
            cache.keys,
            keys.restrict(order.to_set()),
        ),
        assigned(cache, keys, order).versions == (Versions {
            entities: versions_after(cache.versions.entities, keys.restrict(order.to_set())),
            ..cache.versions
        }),
        assigned(cache, keys, order).snapshot == cache.snapshot,
    decreases order.len(),
{
    let part = keys.restrict(order.to_set());
    let after = assigned(cache, keys, order);
    if order.len() == 0 {
        assert(part =~= Map::empty());
        assert(part.values() =~= Set::empty());
    } else {
        let head = order.drop_last();
        let entity = order.last();
        let key = keys[entity];
        assert forall|i: int| 0 <= i < head.len() implies keys.dom().contains(
            #[trigger] head[i],
        ) by {
            assert(head[i] == order[i]);
        }
        lemma_assigned(cache, keys, head);
        assert(head.push(entity) =~= order);
        collections::lemma_push_to_set(head, entity);
        assert(keys.dom().contains(order[order.len() - 1]));
        let before = keys.restrict(head.to_set());
        assert(part =~= before.insert(entity, key));
        assert forall|k: Seq<char>| part.values().contains(k) == (before.values().contains(k) || k
            == key) by {
            if before.values().contains(k) {
                let e = choose|e: Entity| #[trigger] before.dom().contains(e) && before[e] == k;
                assert(part.dom().contains(e) && part[e] == k);
            }
            if k == key {
                assert(part.dom().contains(entity) && part[entity] == k);
            }
            if part.values().contains(k) {
                let e = choose|e: Entity| #[trigger] part.dom().contains(e) && part[e] == k;
                if e != entity {
                    assert(before.dom().contains(e) && before[e] == k);
                }
            }
        }
    }
    assert(after.keys =~= keys_after(cache.keys, part));
    assert(after.versions.entities =~= versions_after(cache.versions.entities, part));
}

/// The GUIDs are the preassigned keys, in that order.
pub open spec fn guids_in_order<C>(
    guids: Seq<(Entity, String)>,
    meta: CommitMeta<C>,
    order: Seq<Entity>,
) -> bool {
    &&& guids.len() == order.len()
    &&& forall|i: int|
        0 <= i < guids.len() ==> (#[trigger] guids[i]).0 == order[i] && guids[i].1@
            == meta.keys()[order[i]]
}

/// The success of a commit leads from one cache to the other and gives the
/// GUIDs: the preassigned keys are taken over once each, in some order.
pub open spec fn success_leads_to<C>(
    before: CacheModel,
    meta: CommitMeta<C>,
    after: CacheModel,
    guids: Seq<(Entity, String)>,
) -> bool {
    exists|order: Seq<Entity>|
        {
            &&& order.no_duplicates()
            &&& order.to_set() == meta.preassigned_keys@.dom()
            &&& after == #[trigger] applied(before, meta, order)
            &&& guids_in_order(guids, meta, order)
        }
}

/// Takes over the outcome of a successful commit, the preassigned keys in the
/// given order. Returns the GUIDs that the entities of the world are to carry.
pub fn apply_commit_success_in_order<C>(
    session: &mut PersistenceSession,
    meta: &CommitMeta<C>,
    order: &Vec<Entity>,
) -> (guids: Vec<(Entity, String)>)
    requires
        old(session).wf(),
        meta.wf(),
        order@.to_set() == meta.preassigned_keys@.dom(),
        success_fits(old(session).cache@, *meta),
    ensures
        final(session).wf(),
        *final(session) == (PersistenceSession { cache: final(session).cache, ..*old(session) }),
        final(session).cache@ == applied(old(session).cache@, *meta, order@),
        guids_in_order(guids@, *meta, order@),
{
    let ghost start = session.cache@;
    let mut guids: Vec<(Entity, String)> = Vec::new();
    let mut i: usize = 0;
    // The keys were embedded in the documents sent to the database, so the
    // database already has them.
    assert(order@.take(0) =~= Seq::empty());
    while i < order.len()
        invariant
            i <= order@.len(),
            session.wf(),
            *session == (PersistenceSession { cache: session.cache, ..*old(session) }),
            session.cache@ == assigned(start, meta.keys(), order@.take(i as int)),
            order@.to_set() == meta.preassigned_keys@.dom(),
            guids@.len() == i,
            forall|j: int|
                0 <= j < i ==> (#[trigger] guids@[j]).0 == order@[j] && guids@[j].1@
                    == meta.keys()[order@[j]],
        decreases order@.len() - i,
    {
        let entity: Entity = order[i];
        assert(order@.to_set().contains(entity));
        let key: &String = meta.preassigned_keys.get(&entity).unwrap();
        assert(meta.keys()[entity] == key@);
        session.insert_entity_key(entity, key.clone());
        session.cache.version_manager.set_version(VersionKey::Entity(key.clone()), 1);
        guids.push((entity, key.clone()));
        assert(order@.take(i + 1).drop_last() =~= order@.take(i as int));
        assert(session.cache@ =~= assigned(start, meta.keys(), order@.take(i + 1)));
        i = i + 1;
    }
    assert(order@.take(i as int) =~= order@);
    let ghost base = assigned(start, meta.keys(), order@);
    proof {
        assert forall|i: int| 0 <= i < order@.len() implies meta.keys().dom().contains(
            #[trigger] order@[i],
        ) by {
            assert(order@.to_set().contains(order@[i]));
        }
        lemma_assigned(start, meta.keys(), order@);
        assert(meta.keys().restrict(order@.to_set()) =~= meta.keys());
    }
    session.cache.version_manager.count_up_resources(&meta.committed_dirty_resources);
    session.cache.version_manager.forget_resources(&meta.committed_despawned_resources);
    let updated: Vec<Entity> = updated_entities(meta);
    session.cache.version_manager.count_up_entities(&session.cache.entity_keys, &updated);
    session.cache.version_manager.forget_entities(
        &session.cache.entity_keys,
        &meta.committed_despawned_entities,
    );
    session.set_edge_snapshot(meta.new_edge_snapshot.clone());
    guids
}

/// The entities whose stored documents were updated, each once.
fn updated_entities<C>(meta: &CommitMeta<C>) -> (list: Vec<Entity>)
    ensures
        list@.no_duplicates(),
        list@.to_set() == meta.updated_entities(),
{
    let committed: Vec<Entity> = collections::keys_of(&meta.committed_entity_components);
    let mut list: Vec<Entity> = Vec::new();
    let mut i: usize = 0;
    assert(list@.to_set() =~= committed@.take(0).to_set().difference(
        meta.preassigned_keys@.dom(),
    ));
    while i < committed.len()
        invariant
            i <= committed@.len(),
            committed@.no_duplicates(),
            list@.no_duplicates(),
            list@.to_set() == committed@.take(i as int).to_set().difference(
                meta.preassigned_keys@.dom(),
            ),
        decreases committed@.len() - i,
    {
        let entity: Entity = committed[i];
        let ghost before = list@;
        proof {
            collections::lemma_take_to_set(committed@, i as int);
            assert(!committed@.take(i as int).to_set().contains(entity));
            assert(!before.to_set().contains(entity));
        }
        if !meta.preassigned_keys.contains_key(&entity) {
            list.push(entity);
            proof {
                collections::lemma_push_to_set(before, entity);
            }
        }
        assert(list@.to_set() =~= committed@.take(i + 1).to_set().difference(
            meta.preassigned_keys@.dom(),
        ));
        i = i + 1;
    }
    assert(committed@.take(i as int) =~= committed@);
    list
}

/// Takes over the outcome of a successful commit. Returns the GUIDs that the
/// entities of the world are to carry.
pub fn apply_commit_success<C>(session: &mut PersistenceSession, meta: &CommitMeta<C>) -> (guids:
    Vec<(Entity, String)>)
    requires
        old(session).wf(),
        meta.wf(),
        success_fits(old(session).cache@, *meta),
    ensures
        final(session).wf(),
        *final(session) == (PersistenceSession { cache: final(session).cache, ..*old(session) }),
        success_leads_to(old(session).cache@, *meta, final(session).cache@, guids@),
{
    let order: Vec<Entity> = collections::keys_of(&meta.preassigned_keys);
    let ghost before = session.cache@;
    let guids: Vec<(Entity, String)> = apply_commit_success_in_order(session, meta, &order);
    assert(session.cache@ == applied(before, *meta, order@));
    guids
}

/// True where every version that the success of a commit counts up can be
/// counted up.
pub fn success_can_apply<C>(session: &PersistenceSession, meta: &CommitMeta<C>) -> (b: bool)
    ensures
        b == success_fits(session.cache@, *meta),
{
    let types: Vec<TypeId> = collections::members(&meta.committed_dirty_resources);
    let mut i: usize = 0;
    while i < types.len()
        invariant
            i <= types@.len(),
            types@.to_set() == meta.committed_dirty_resources@,
            forall|j: int|
                0 <= j < i ==> session.cache@.versions.resource(#[trigger] types@[j]) != Some(
                    u64::MAX,
                ),
        decreases types@.len() - i,
    {
        match session.resource_version(types[i]) {
            Some(version) => if version == u64::MAX {
                assert(types@.to_set().contains(types@[i as int]));
                return false;
            },
            None => {},
        }
        i = i + 1;
    }
    assert(session.cache@.versions.resources_fit(meta.committed_dirty_resources@)) by {
        assert forall|t: TypeId| #[trigger]
            meta.committed_dirty_resources@.contains(t) implies session.cache@.versions.resource(t)
            != Some(u64::MAX) by {
            assert(types@.to_set().contains(t));
            let j = choose|j: int| 0 <= j < types@.len() && types@[j] == t;
            assert(session.cache@.versions.resource(types@[j]) != Some(u64::MAX));
        }
    }
    let ghost keys = session.cache@.keys;
    let ghost all = meta.updated_entities();
    let ghost later = keys_after(keys, meta.keys());
    let ghost versions = Versions {
        entities: versions_after(session.cache@.versions.entities, meta.keys()),
        ..session.cache@.versions
    };
    let updated: Vec<Entity> = updated_entities(meta);
    let fresh: StringHashSet = preassigned_texts(meta);
    let mut counts: StringHashMap<usize> = StringHashMap::new();
    let mut n: usize = 0;
    proof {
        assert(updated@.take(0).to_set() =~= Set::empty());
        assert forall|key: Seq<char>| #[trigger] counted_as(counts@, key)
            == crate::versioning::entities_with_key(
            later,
            updated@.take(0).to_set(),
            key,
        ).len() by {
            assert(crate::versioning::entities_with_key(later, Set::empty(), key) =~= Set::empty());
        }
    }
    while n < updated.len()
        invariant
            n <= updated@.len(),
            updated@.no_duplicates(),
            updated@.to_set() == meta.updated_entities(),
            keys == session.cache@.keys,
            later == keys_after(keys, meta.keys()),
            forall|key: Seq<char>| #[trigger]
                counted_as(counts@, key) == crate::versioning::entities_with_key(
                    later,
                    updated@.take(n as int).to_set(),
                    key,
                ).len(),
            forall|key: Seq<char>| #[trigger] counted_as(counts@, key) <= n,
        decreases updated@.len() - n,
    {
        let entity: Entity = updated[n];
        let ghost before = counts@;
        let ghost done = updated@.take(n as int).to_set();
        proof {
            collections::lemma_take_to_set(updated@, n as int);
            vstd::seq_lib::seq_to_set_is_finite(updated@.take(n as int));
            assert(!done.contains(entity));
            assert(updated@.to_set().contains(entity));
        }
        match session.cache.entity_key(entity) {
            Some(key) => {
                let count: usize = match counts.get(key.as_str()) {
                    Some(count) => *count,
                    None => 0,
                };
                assert(counted_as(counts@, key@) == count);
                counts.insert(key.clone(), count + 1);
            },
            None => {},
        }
        proof {
            assert forall|key: Seq<char>| #[trigger]
                counted_as(counts@, key) == crate::versioning::entities_with_key(
                later,
                updated@.take(n + 1).to_set(),
                key,
            ).len() && counted_as(counts@, key) <= n + 1 by {
                crate::versioning::lemma_entities_with_key(later, done, entity, key);
                assert(counted_as(before, key) <= n);
                assert(later.dom().contains(entity) == keys.dom().contains(entity));
            }
        }
        n = n + 1;
    }
    assert(updated@.take(n as int) =~= updated@);
    let mut m: usize = 0;
    while m < updated.len()
        invariant
            m <= updated@.len(),
            updated@.to_set() == all,
            all == meta.updated_entities(),
            keys == session.cache@.keys,
            later == keys_after(keys, meta.keys()),
            versions == (Versions {
                entities: versions_after(session.cache@.versions.entities, meta.keys()),
                ..session.cache@.versions
            }),
            fresh@ == meta.keys().values(),
            forall|key: Seq<char>| #[trigger]
                counted_as(counts@, key) == crate::versioning::entities_with_key(
                    later,
                    all,
                    key,
                ).len(),
            forall|j: int, key: Seq<char>|
                #![trigger updated@[j], versions.entities.dom().contains(key)]
                0 <= j < m && later.dom().contains(updated@[j]) && later[updated@[j]] == key
                    && versions.entities.dom().contains(key) ==> versions.entities[key]
                    + counted_as(counts@, key) <= u64::MAX,
        decreases updated@.len() - m,
    {
        let entity: Entity = updated[m];
        assert(updated@.to_set().contains(entity));
        assert(later.dom().contains(entity) == keys.dom().contains(entity));
        match session.cache.entity_key(entity) {
            Some(key) => {
                assert(later[entity] == key@);
                let version: Option<u64> = if fresh.contains(key.as_str()) {
                    Some(1)
                } else {
                    session.cache.version_manager.entity_version(key.as_str())
                };
                let count: usize = match counts.get(key.as_str()) {
                    Some(count) => *count,
                    None => 0,
                };
                assert(counted_as(counts@, key@) == count);
                match version {
                    Some(version) => if count as u64 > u64::MAX - version {
                        assert(versions.entities.dom().contains(key@));
                        return false;
                    },
                    None => {},
                }
            },
            None => {},
        }
        m = m + 1;
    }
    proof {
        assert forall|key: Seq<char>| #[trigger]
            versions.entities.dom().contains(key) implies versions.entities[key]
            + crate::versioning::entities_with_key(later, all, key).len() <= u64::MAX by {
            let here = crate::versioning::entities_with_key(later, all, key);
            vstd::seq_lib::seq_to_set_is_finite(updated@);
            vstd::set_lib::lemma_set_subset_finite(all, here);
            if here.len() > 0 {
                let e = here.choose();
                assert(here.contains(e));
                assert(updated@.to_set().contains(e));
                let j = choose|j: int| 0 <= j < updated@.len() && updated@[j] == e;
                assert(later.dom().contains(updated@[j]));
                assert(counted_as(counts@, key) == here.len());
            }
        }
    }
    true
}

/// The number noted for a key; none is zero.
spec fn counted_as(counts: Map<Seq<char>, usize>, key: Seq<char>) -> nat {
    if counts.dom().contains(key) {
        counts[key] as nat
    } else {
        0
    }
}

/// The preassigned keys, without the entities.
fn preassigned_texts<C>(meta: &CommitMeta<C>) -> (texts: StringHashSet)
    ensures
        texts@ == meta.keys().values(),
{
    let entities: Vec<Entity> = collections::keys_of(&meta.preassigned_keys);
    let mut texts: StringHashSet = StringHashSet::new();
    let mut i: usize = 0;
    assert(meta.keys().restrict(entities@.take(0).to_set()).values() =~= Set::empty());
    while i < entities.len()
        invariant
            i <= entities@.len(),
            entities@.to_set() == meta.preassigned_keys@.dom(),
            texts@ == meta.keys().restrict(entities@.take(i as int).to_set()).values(),
        decreases entities@.len() - i,
    {
        let entity: Entity = entities[i];
        assert(entities@.to_set().contains(entity));
        let ghost before = meta.keys().restrict(entities@.take(i as int).to_set());
        let ghost after = meta.keys().restrict(entities@.take(i + 1).to_set());
        texts.insert(meta.preassigned_keys.get(&entity).unwrap().clone());
        proof {
            collections::lemma_take_to_set(entities@, i as int);
            let key = meta.keys()[entity];
            assert(after =~= before.insert(entity, key));
            assert forall|k: Seq<char>| after.values().contains(k) == (before.values().contains(k)
                || k == key) by {
                if before.values().contains(k) {
                    let e = choose|e: Entity| #[trigger]
                        before.dom().contains(e) && before[e] == k;
                    assert(after.dom().contains(e) && after[e] == k);
                }
                if k == key {
                    assert(after.dom().contains(entity) && after[entity] == k);
                }
                if after.values().contains(k) {
                    let e = choose|e: Entity| #[trigger] after.dom().contains(e) && after[e] == k;
                    if e != entity {
                        assert(before.dom().contains(e) && before[e] == k);
                    }
                }
            }
            assert(texts@ =~= after.values());
        }
        i = i + 1;
    }
    assert(entities@.take(i as int) =~= entities@);
    assert(meta.keys().restrict(entities@.to_set()) =~= meta.keys());
    texts
}

/// Puts back what a failed commit had taken.
pub fn restore_dirty_state_on_failure<C>(session: &mut PersistenceSession, meta: CommitMeta<C>)
    ensures
        old(session).wf() ==> final(session).wf(),
        tracking::only_tracking_changed(*old(session), *final(session)),
        final(session).tracking@ == old(session).tracking@.merge(meta.restorable()),
{
    session.restore_dirty_state(
        DirtyState::from_parts(
            meta.dirty_entity_components,
            meta.despawned_entities,
            meta.dirty_resources,
            meta.despawned_resources,
            HashSet::new(),
        ),
    );
}

/// What a commit transaction gives: the keys of the documents and the entities
/// that were created.
pub type TransactionResult = Result<(Vec<String>, Vec<Entity>), PersistenceError>;

/// What a look at a running commit task finds.
pub enum TaskPoll {
    /// The task is still running.
    Pending,
    /// The task ended without a result.
    Closed,
    /// The task gave its result.
    Finished(TransactionResult),
}

/// The result of a task that is over; `None` while it is running. A task that
/// ended without a result counts as failed.
pub fn task_result(poll: TaskPoll) -> (r: Option<TransactionResult>)
    ensures
        match poll {
            TaskPoll::Pending => r is None,
            TaskPoll::Closed => {
                &&& r is Some
                &&& r->0 is Err
                &&& r->0->Err_0@ == ErrorModel::General("Commit task cancelled before completion"@)
            },
            TaskPoll::Finished(result) => r == Some(result),
        },
{
    match poll {
        TaskPoll::Pending => None,
        TaskPoll::Closed => Some(
            Err(PersistenceError::new("Commit task cancelled before completion")),
        ),
        TaskPoll::Finished(result) => Some(result),
    }
}

/// What the completion of one task asks for.
pub struct TaskEffects<C> {
    /// The answer to the trigger of the commit.
    pub completed: Option<CommitCompleted>,
    /// The commit that was queued while this one ran.
    pub follow_up: Option<TriggerCommit<C>>,
    /// The GUIDs that entities of the world are to carry.
    pub guids: Vec<(Entity, String)>,
}

/// A commit task that is over.
pub struct FinishedTask<C> {
    pub correlation_id: Option<u64>,
    pub meta: Option<CommitMeta<C>>,
    pub result: TransactionResult,
}

impl<C> FinishedTask<C> {
    pub open spec fn wf(&self) -> bool {
        self.meta matches Some(meta) ==> meta.wf()
    }

    /// The session can take over what the task did, where it has to.
    pub open spec fn can_complete(&self, cache: CacheModel) -> bool {
        match (self.meta, self.result) {
            (Some(meta), Ok(_)) => success_fits(cache, meta),
            _ => true,
        }
    }
}

/// What a pass over the commit tasks that are over works on.
#[verifier::ext_equal]
pub struct PassState<C> {
    pub cache: CacheModel,
    pub tracking: DirtyModel,
    pub status: CommitStatus,
    /// The trigger kept for the next commit.
    pub queued: Option<TriggerCommit<C>>,
    /// A task of this pass failed.
    pub had_error: bool,
}

/// What a pass works on, as the session and the status have it.
pub open spec fn pass_state<C>(
    session: PersistenceSession,
    status: CommitStatus,
    queued: Option<TriggerCommit<C>>,
    had_error: bool,
) -> PassState<C> {
    PassState { cache: session.cache@, tracking: session.tracking@, status, queued, had_error }
}

/// The commit that completing a task triggers, if one was queued meanwhile and no
/// task of the pass failed: the trigger that was kept for it. Where only further
/// triggers of the starting frame queued it, it goes over the connection of the
/// finished commit into the same store, without a correlation id.
pub open spec fn next_trigger<C>(
    before: PassState<C>,
    task: FinishedTask<C>,
    follow_up: Option<TriggerCommit<C>>,
) -> bool {
    if before.had_error || task.result is Err || before.status
        != CommitStatus::InProgressAndDirty {
        follow_up is None
    } else {
        match (before.queued, task.meta) {
            (Some(trigger), _) => follow_up == Some(trigger),
            (None, Some(meta)) => {
                &&& follow_up is Some
                &&& follow_up->0.correlation_id is None
                &&& follow_up->0.target_connection == meta.connection
                &&& follow_up->0.store == meta.store
            },
            (None, None) => follow_up is None,
        }
    }
}

/// What completing one task does.
///
/// On success the session takes over what was committed; on failure it gets
/// back what the commit had taken. In both cases no commit is in progress or
/// queued any more. A commit that was queued meanwhile is triggered, unless a
/// task of the pass failed.
pub open spec fn completes<C>(
    before: PassState<C>,
    task: FinishedTask<C>,
    after: PassState<C>,
    effects: TaskEffects<C>,
) -> bool {
    &&& after.had_error == (before.had_error || task.result is Err)
    &&& after.status == CommitStatus::Idle
    &&& after.queued is None
    &&& match (task.meta, task.result) {
        (Some(meta), Ok(_)) => {
            &&& after.tracking == before.tracking
            &&& success_leads_to(before.cache, meta, after.cache, effects.guids@)
            &&& effects.completed is Some
            &&& effects.completed->0.succeeded(task.correlation_id)
        },
        (Some(meta), Err(e)) => {
            &&& after.cache == before.cache
            &&& after.tracking == before.tracking.merge(meta.restorable())
            &&& effects.guids@.len() == 0
            &&& effects.completed is Some
            &&& effects.completed->0.failed(e@, task.correlation_id)
        },
        (None, Ok(_)) => {
            &&& after.cache == before.cache
            &&& after.tracking == before.tracking
            &&& effects.guids@.len() == 0
            &&& effects.completed is None
        },
        (None, Err(e)) => {
            &&& after.cache == before.cache
            &&& after.tracking == before.tracking
            &&& effects.guids@.len() == 0
            &&& effects.completed is Some
            &&& effects.completed->0.failed(e@, task.correlation_id)
        },
    }
    &&& next_trigger(before, task, effects.follow_up)
}

/// Completes one task. `had_error` tells whether a task of this pass failed
/// before, and is `true` from the first failure on.
pub fn complete_task<C>(
    session: &mut PersistenceSession,
    status: &mut CommitStatus,
    queued: &mut Option<TriggerCommit<C>>,
    had_error: &mut bool,
    task: FinishedTask<C>,
) -> (effects: TaskEffects<C>)
    requires
        old(session).wf(),
        task.wf(),
        task.can_complete(old(session).cache@),
    ensures
        final(session).wf(),
        *final(session) == (PersistenceSession {
            cache: final(session).cache,
            tracking: final(session).tracking,
            ..*old(session)
        }),
        completes(
            pass_state(*old(session), *old(status), *old(queued), *old(had_error)),
            task,
            pass_state(*final(session), *final(status), *final(queued), *final(had_error)),
            effects,
        ),
{
    if task.result.is_err() {
        *had_error = true;
    }
    let trigger_next: bool = !*had_error && *status == CommitStatus::InProgressAndDirty;
    *status = CommitStatus::Idle;
    let kept: Option<TriggerCommit<C>> = if trigger_next {
        queued.take()
    } else {
        *queued = None;
        None
    };
    match (task.meta, task.result) {
        (Some(meta), Ok(_)) => {
            let guids: Vec<(Entity, String)> = apply_commit_success(session, &meta);
            let follow_up: Option<TriggerCommit<C>> = match kept {
                Some(trigger) => Some(trigger),
                None => if trigger_next {
                    Some(
                        TriggerCommit {
                            correlation_id: None,
                            target_connection: meta.connection,
                            store: meta.store,
                        },
                    )
                } else {
                    None
                },
            };
            TaskEffects {
                completed: Some(CommitCompleted::success(task.correlation_id)),
                follow_up,
                guids,
            }
        },
        (Some(meta), Err(e)) => {
            restore_dirty_state_on_failure(session, meta);
            TaskEffects {
                completed: Some(CommitCompleted::failure(e, task.correlation_id)),
                follow_up: None,
                guids: Vec::new(),
            }
        },
        (None, Ok(_)) => TaskEffects { completed: None, follow_up: kept, guids: Vec::new() },
        (None, Err(e)) => TaskEffects {
            completed: Some(CommitCompleted::failure(e, task.correlation_id)),
            follow_up: None,
            guids: Vec::new(),
        },
    }
}

/// What a pass over the commit tasks that are over asks for, task by task.
pub struct CompletionReport<C> {
    pub effects: Vec<TaskEffects<C>>,
    /// The pass ended early: a version that the next task would count up cannot
    /// be counted up.
    pub overflow: bool,
}

/// The states of a pass from `start` on, one more than the tasks that it completed.
pub open spec fn is_pass<C>(
    trace: Seq<PassState<C>>,
    start: PassState<C>,
    tasks: Seq<FinishedTask<C>>,
    effects: Seq<TaskEffects<C>>,
) -> bool {
    &&& trace.len() == effects.len() + 1
    &&& effects.len() <= tasks.len()
    &&& trace[0] == start
    &&& forall|i: int|
        0 <= i < effects.len() ==> completes(
            trace[i],
            tasks[i],
            #[trigger] trace[i + 1],
            effects[i],
        )
}

/// A pass with these states ends with this report and leaves the session and the
/// status in this state: all tasks are completed, or all before the first one
/// that cannot be.
pub open spec fn pass_leads_to<C>(
    trace: Seq<PassState<C>>,
    start: PassState<C>,
    tasks: Seq<FinishedTask<C>>,
    report: CompletionReport<C>,
    session: PersistenceSession,
    status: CommitStatus,
    queued: Option<TriggerCommit<C>>,
) -> bool {
    let completed = report.effects@.len() as int;
    &&& is_pass(trace, start, tasks, report.effects@)
    &&& session.cache@ == trace.last().cache
    &&& session.tracking@ == trace.last().tracking
    &&& status == if trace.last().had_error {
        CommitStatus::Idle
    } else {
        trace.last().status
    }
    &&& queued == trace.last().queued
    &&& report.overflow == (completed < tasks.len())
    &&& report.overflow ==> !tasks[completed].can_complete(trace.last().cache)
}

/// Completes the commit tasks that are over, one after the other.
///
/// After a failure no commit is in progress, and no further commit is triggered
/// in the same pass. The pass ends early at a task whose outcome cannot be
/// taken over because a version is at its limit.
pub fn handle_commit_completed<C>(
    session: &mut PersistenceSession,
    status: &mut CommitStatus,
    queued: &mut Option<TriggerCommit<C>>,
    tasks: Vec<FinishedTask<C>>,
) -> (report: CompletionReport<C>)
    requires
        old(session).wf(),
        forall|i: int| 0 <= i < tasks@.len() ==> (#[trigger] tasks@[i]).wf(),
    ensures
        final(session).wf(),
        *final(session) == (PersistenceSession {
            cache: final(session).cache,
            tracking: final(session).tracking,
            ..*old(session)
        }),
        exists|trace: Seq<PassState<C>>| #[trigger]
            pass_leads_to(
                trace,
                pass_state(*old(session), *old(status), *old(queued), false),
                tasks@,
                report,
                *final(session),
                *final(status),
                *final(queued),
            ),
{
    let ghost start = pass_state(*session, *status, *queued, false);
    let ghost mut trace: Seq<PassState<C>> = seq![start];
    let mut effects: Vec<TaskEffects<C>> = Vec::new();
    let mut had_error: bool = false;
    let mut overflow: bool = false;
    for task in it: tasks
        invariant
            it.seq() == tasks@,
            forall|i: int| 0 <= i < tasks@.len() ==> (#[trigger] tasks@[i]).wf(),
            session.wf(),
            *session == (PersistenceSession {
                cache: session.cache,
                tracking: session.tracking,
                ..*old(session)
            }),
            is_pass(trace, start, tasks@, effects@),
            trace.last() == pass_state(*session, *status, *queued, had_error),
            !overflow ==> effects@.len() == it.index(),
            overflow ==> effects@.len() < it.index() && !tasks@[effects@.len() as int].can_complete(
                trace.last().cache,
            ),
    {
        if !overflow {
            let fits: bool = match (&task.meta, &task.result) {
                (Some(meta), Ok(_)) => success_can_apply(session, meta),
                _ => true,
            };
            assert(task == tasks@[it.index()]);
            assert(fits == task.can_complete(session.cache@));
            if fits {
                let ghost before = trace;
                let ghost done = effects@;
                effects.push(complete_task(session, status, queued, &mut had_error, task));
                proof {
                    trace = trace.push(pass_state(*session, *status, *queued, had_error));
                    assert forall|i: int| 0 <= i < effects@.len() implies completes(
                        trace[i],
                        tasks@[i],
                        #[trigger] trace[i + 1],
                        effects@[i],
                    ) by {
                        if i < done.len() {
                            assert(completes(before[i], tasks@[i], before[i + 1], done[i]));
                        }
                    }
                }
            } else {
                overflow = true;
            }
        }
    }
    if had_error {
        *status = CommitStatus::Idle;
    }
    let report: CompletionReport<C> = CompletionReport { effects, overflow };
    assert(pass_leads_to(trace, start, tasks@, report, *session, *status, *queued));
    report
}

/// A pass triggers at most one commit, and only by its first task.
pub proof fn law_pass_triggers_at_most_once<C>(
    trace: Seq<PassState<C>>,
    start: PassState<C>,
    tasks: Seq<FinishedTask<C>>,
    effects: Seq<TaskEffects<C>>,
    i: int,
)
    requires
        is_pass(trace, start, tasks, effects),
        0 < i < effects.len(),
    ensures
        effects[i].follow_up is None,
{
    assert(completes(trace[i - 1], tasks[i - 1], trace[i - 1 + 1], effects[i - 1]));
    assert(completes(trace[i], tasks[i], trace[i + 1], effects[i]));
}

/// A pass that completed a task leaves no commit in progress.
pub proof fn law_pass_leaves_no_commit_in_progress<C>(
    trace: Seq<PassState<C>>,
    start: PassState<C>,
    tasks: Seq<FinishedTask<C>>,
    effects: Seq<TaskEffects<C>>,
)
    requires
        is_pass(trace, start, tasks, effects),
        effects.len() > 0,
    ensures
        trace.last().status == CommitStatus::Idle,
{
    let i = effects.len() - 1;
    assert(completes(trace[i], tasks[i], trace[i + 1], effects[i]));
}

/// A trigger that comes while a commit runs is not lost: where it is the first
/// to come, the success of that commit triggers it as it came, with its own
/// connection, store and correlation id. A failure in the same pass drops it.
pub proof fn law_trigger_while_running_is_followed_up<C>(
    status: CommitStatus,
    triggers: Seq<TriggerCommit<C>>,
    before: PassState<C>,
    task: FinishedTask<C>,
    after: PassState<C>,
    effects: TaskEffects<C>,
)
    requires
        status != CommitStatus::Idle,
        triggers.len() > 0,
        before.status == status_after_triggers(status, triggers.len()),
        before.queued == queued_after_triggers(status, None, triggers),
        completes(before, task, after, effects),
        !before.had_error,
        task.result is Ok,
    ensures
        effects.follow_up == Some(triggers[0]),
{
}

/// Later triggers do not take the place of the one that was kept.
pub proof fn law_first_queued_trigger_is_kept<C>(
    status: CommitStatus,
    first: Seq<TriggerCommit<C>>,
    later: Seq<TriggerCommit<C>>,
)
    requires
        status != CommitStatus::Idle,
        first.len() > 0,
    ensures
        queued_after_triggers(
            status_after_triggers(status, first.len()),
            queued_after_triggers(status, None, first),
            later,
        ) == Some(first[0]),
{
}

/// Further triggers of the frame in which a commit started are followed up by a
/// commit over the same connection into the same store, where no trigger came
/// while the commit ran, and unless a task of the pass failed.
pub proof fn law_coalesced_triggers_are_followed_up<C>(
    before: PassState<C>,
    task: FinishedTask<C>,
    after: PassState<C>,
    effects: TaskEffects<C>,
)
    requires
        before.status == CommitStatus::InProgressAndDirty,
        before.queued is None,
        completes(before, task, after, effects),
        !before.had_error,
        task.result is Ok,
        task.meta is Some,
    ensures
        effects.follow_up is Some,
        effects.follow_up->0.correlation_id is None,
        effects.follow_up->0.target_connection == task.meta->0.connection,
        effects.follow_up->0.store == task.meta->0.store,
{
}

/// No entity gets a GUID from a commit that failed, and the cache stays as it
/// was: a failed transaction leaves nothing behind.
pub proof fn law_failed_task_leaves_nothing_behind<C>(
    before: PassState<C>,
    task: FinishedTask<C>,
    after: PassState<C>,
    effects: TaskEffects<C>,
)
    requires
        completes(before, task, after, effects),
        task.result is Err,
    ensures
        effects.guids@.len() == 0,
        after.cache == before.cache,
        effects.follow_up is None,
{
}

/// After the success of a commit the cached edge snapshot is the one that the
/// commit leads to, even where that is empty: looking at the same edges again
/// finds none to write and none to delete.
pub proof fn law_success_settles_edges<C>(
    cache: CacheModel,
    meta: CommitMeta<C>,
    order: Seq<Entity>,
    stored: Seq<Seq<char>>,
    guids: Set<Seq<char>>,
    found: Seq<EdgeModel>,
    next: Seq<Seq<char>>,
)
    requires
        meta.new_edge_snapshot@ == edges::edge_diff(stored, guids, found).snapshot,
        next.to_set() == applied(cache, meta, order).snapshot,
    ensures
        applied(cache, meta, order).snapshot == meta.new_edge_snapshot@,
        edges::edge_diff(next, guids, found).upserts == Seq::<EdgeModel>::empty(),
        edges::edge_diff(next, guids, found).deletes == Seq::<Seq<char>>::empty(),
{
    edges::law_diff_is_settled(stored, guids, found, next);
}

/// After the success of a commit an updated document has the version after the
/// one it had, which is the version that the commit wrote into it. Where two
/// entities share a key, or the document is created or deleted by the same
/// commit, its version counts otherwise.
pub proof fn law_success_counts_up_updated<C>(
    cache: CacheModel,
    meta: CommitMeta<C>,
    order: Seq<Entity>,
    entity: Entity,
    key: Seq<char>,
    version: u64,
)
    requires
        order.to_set() == meta.preassigned_keys@.dom(),
        success_fits(cache, meta),
        meta.updated_entities().contains(entity),
        cache.key_of(entity) == Some(key),
        cache.versions.entity(key) == Some(version),
        forall|e: Entity| #[trigger]
            meta.updated_entities().contains(e) && e != entity ==> cache.key_of(e) != Some(key),
        !meta.keys().values().contains(key),
        !crate::versioning::keys_of_entities(
            keys_after(cache.keys, meta.keys()),
            meta.committed_despawned_entities@,
        ).contains(key),
    ensures
        version < u64::MAX,
        applied(cache, meta, order).versions.entity(key) == Some((version + 1) as u64),
{
    lemma_assigned_all(cache, meta, order);
    let base = assigned(cache, meta.keys(), order);
    let here = crate::versioning::entities_with_key(base.keys, meta.updated_entities(), key);
    assert(here =~= Set::empty().insert(entity)) by {
        assert forall|e: Entity| here.contains(e) implies e == entity by {
            assert(!meta.keys().dom().contains(e));
        }
    }
    let versions = Versions {
        entities: versions_after(cache.versions.entities, meta.keys()),
        ..cache.versions
    };
    assert(versions.entities.dom().contains(key));
    assert(here.len() == 1);
}

/// After the success of a commit an entity with a preassigned key has that key,
/// and its document has version 1. Where another entity has the same key, or
/// the document is deleted by the same commit, its version counts otherwise.
pub proof fn law_success_creates_version_one<C>(
    cache: CacheModel,
    meta: CommitMeta<C>,
    order: Seq<Entity>,
    entity: Entity,
)
    requires
        order.to_set() == meta.preassigned_keys@.dom(),
        meta.preassigned_keys@.dom().contains(entity),
        forall|e: Entity| #[trigger]
            meta.updated_entities().contains(e) ==> cache.key_of(e) != Some(meta.keys()[entity]),
        !crate::versioning::keys_of_entities(
            keys_after(cache.keys, meta.keys()),
            meta.committed_despawned_entities@,
        ).contains(meta.keys()[entity]),
    ensures
        applied(cache, meta, order).key_of(entity) == Some(meta.keys()[entity]),
        applied(cache, meta, order).versions.entity(meta.keys()[entity]) == Some(1u64),
{
    lemma_assigned_all(cache, meta, order);
    let base = assigned(cache, meta.keys(), order);
    let key = meta.keys()[entity];
    let here = crate::versioning::entities_with_key(base.keys, meta.updated_entities(), key);
    assert(here =~= Set::empty()) by {
        assert forall|e: Entity| !here.contains(e) by {
            if here.contains(e) {
                assert(!meta.keys().dom().contains(e));
            }
        }
    }
    assert(meta.keys().dom().contains(entity));
    assert(meta.keys().values().contains(key));
}

/// After the success of a commit nothing is known any more of the version of a
/// document that it deleted.
pub proof fn law_success_forgets_deleted<C>(
    cache: CacheModel,
    meta: CommitMeta<C>,
    order: Seq<Entity>,
    entity: Entity,
    type_id: TypeId,
)
    requires
        order.to_set() == meta.preassigned_keys@.dom(),
    ensures
        meta.committed_despawned_entities@.contains(entity) ==> match applied(
            cache,
            meta,
            order,
        ).key_of(entity) {
            Some(key) => applied(cache, meta, order).versions.entity(key) is None,
            None => true,
        },
        meta.committed_despawned_resources@.contains(type_id) ==> applied(
            cache,
            meta,
            order,
        ).versions.resource(type_id) is None,
{
    let base = assigned(cache, meta.keys(), order);
    if meta.committed_despawned_entities@.contains(entity) && base.keys.dom().contains(entity) {
        assert(crate::versioning::keys_of_entities(
            base.keys,
            meta.committed_despawned_entities@,
        ).contains(base.keys[entity]));
    }
}

/// After the success of a commit a written resource has the next version, the
/// first one being 1, unless it was removed at the same time.
pub proof fn law_success_counts_up_resources<C>(
    cache: CacheModel,
    meta: CommitMeta<C>,
    order: Seq<Entity>,
    type_id: TypeId,
)
    requires
        order.to_set() == meta.preassigned_keys@.dom(),
        success_fits(cache, meta),
        meta.committed_dirty_resources@.contains(type_id),
        !meta.committed_despawned_resources@.contains(type_id),
    ensures
        applied(cache, meta, order).versions.resource(type_id) == Some(
            match cache.versions.resource(type_id) {
                Some(version) => (version + 1) as u64,
                None => 1u64,
            },
        ),
{
    lemma_assigned_all(cache, meta, order);
}

/// The keys and versions after all preassigned keys have been taken over.
pub proof fn lemma_assigned_all<C>(cache: CacheModel, meta: CommitMeta<C>, order: Seq<Entity>)
    requires
        order.to_set() == meta.preassigned_keys@.dom(),
    ensures
        assigned(cache, meta.keys(), order).keys == keys_after(cache.keys, meta.keys()),
        assigned(cache, meta.keys(), order).versions == (Versions {
            entities: versions_after(cache.versions.entities, meta.keys()),
            ..cache.versions
        }),
{
    assert forall|i: int| 0 <= i < order.len() implies meta.keys().dom().contains(
        #[trigger] order[i],
    ) by {
        assert(order.to_set().contains(order[i]));
    }
    lemma_assigned(cache, meta.keys(), order);
    assert(meta.keys().restrict(order.to_set()) =~= meta.keys());
}

/// After the success of a commit the version cached of an updated document is
/// the one that the commit wrote into it, so that the next commit expects what
/// is stored. The exceptions are those of [`law_success_counts_up_updated`].
pub proof fn law_cached_version_matches_update<C>(
    session: PersistenceSession,
    world: WorldSnapshot,
    keys: Map<Entity, String>,
    types: Seq<TypeId>,
    key_field: Seq<char>,
    store: Seq<char>,
    meta: CommitMeta<C>,
    order: Seq<Entity>,
    entity: Entity,
    key: Seq<char>,
    expected: u64,
    patch: Json,
)
    requires
        prepare_commit::entity_operation(
            session,
            world,
            keys,
            entity,
            types,
            key_field,
            store,
        ) == Ok::<_, ErrorModel>(
            Some(
                OperationModel::Update {
                    store,
                    kind: DocumentKind::Entity,
                    key,
                    expected,
                    patch,
                },
            ),
        ),
        order.to_set() == meta.preassigned_keys@.dom(),
        success_fits(session.cache@, meta),
        meta.updated_entities().contains(entity),
        forall|e: Entity| #[trigger]
            meta.updated_entities().contains(e) && e != entity ==> session.cache@.key_of(e) != Some(
                key,
            ),
        !meta.keys().values().contains(key),
        !crate::versioning::keys_of_entities(
            keys_after(session.cache@.keys, meta.keys()),
            meta.committed_despawned_entities@,
        ).contains(key),
    ensures
        applied(session.cache@, meta, order).versions.entity(key) == connection::version_of(patch),
        connection::version_of(patch) is Some,
{
    let fields = prepare_commit::entity_fields(session, world, entity, types)->Ok_0;
    assert(session.cache@.key_of(entity) == Some(key));
    law_success_counts_up_updated(session.cache@, meta, order, entity, key, expected);
    connection::law_metadata_reads_back(fields, DocumentKind::Entity, (expected + 1) as u64);
}

/// After the success of a commit the version cached of a created document is the
/// one that the commit wrote into it. The exceptions are those of
/// [`law_success_creates_version_one`].
pub proof fn law_cached_version_matches_creation<C>(
    session: PersistenceSession,
    world: WorldSnapshot,
    keys: Map<Entity, String>,
    types: Seq<TypeId>,
    key_field: Seq<char>,
    store: Seq<char>,
    meta: CommitMeta<C>,
    order: Seq<Entity>,
    entity: Entity,
    data: Json,
)
    requires
        prepare_commit::entity_operation(
            session,
            world,
            keys,
            entity,
            types,
            key_field,
            store,
        ) == Ok::<_, ErrorModel>(
            Some(OperationModel::Create { store, kind: DocumentKind::Entity, data }),
        ),
        meta.preassigned_keys@ == keys,
        order.to_set() == keys.dom(),
        keys.dom().contains(entity),
        forall|e: Entity| #[trigger]
            meta.updated_entities().contains(e) ==> session.cache@.key_of(e) != Some(
                meta.keys()[entity],
            ),
        !crate::versioning::keys_of_entities(
            keys_after(session.cache@.keys, meta.keys()),
            meta.committed_despawned_entities@,
        ).contains(meta.keys()[entity]),
    ensures
        applied(session.cache@, meta, order).key_of(entity) == Some(keys[entity]@),
        applied(session.cache@, meta, order).versions.entity(keys[entity]@)
            == connection::version_of(data),
        connection::version_of(data) is Some,
{
    let fields = prepare_commit::entity_fields(session, world, entity, types)->Ok_0;
    law_success_creates_version_one(session.cache@, meta, order, entity);
    connection::law_metadata_reads_back(
        fields.insert(key_field, Json::String(keys[entity]@)),
        DocumentKind::Entity,
        1,
    );
}

/// After the success of a commit the version cached of a resource is the one
/// that the commit wrote into its document, unless the resource was removed at
/// the same time. A document that is no object carries no version.
pub proof fn law_cached_version_matches_resource<C>(
    session: PersistenceSession,
    type_id: TypeId,
    name: Seq<char>,
    fields: Map<Seq<char>, Json>,
    key_field: Seq<char>,
    store: Seq<char>,
    meta: CommitMeta<C>,
    order: Seq<Entity>,
)
    requires
        order.to_set() == meta.preassigned_keys@.dom(),
        success_fits(session.cache@, meta),
        meta.committed_dirty_resources@.contains(type_id),
        !meta.committed_despawned_resources@.contains(type_id),
    ensures
        ({
            let op = prepare_commit::resource_operation(
                session,
                type_id,
                name,
                Json::Object(fields),
                key_field,
                store,
            );
            match prepare_commit::written_document(op) {
                Some(doc) => connection::version_of(doc) is Some && applied(
                    session.cache@,
                    meta,
                    order,
                ).versions.resource(type_id) == connection::version_of(doc),
                None => false,
            }
        }),
{
    law_success_counts_up_resources(session.cache@, meta, order, type_id);
    match session.cache@.versions.resource(type_id) {
        Some(version) => {
            connection::law_metadata_reads_back(
                fields,
                DocumentKind::Resource,
                (version + 1) as u64,
            );
        },
        None => {
            connection::law_metadata_reads_back(
                fields.insert(key_field, Json::String(name)),
                DocumentKind::Resource,
                1,
            );
        },
    }
}

/// A commit that fails gives back all that it took but the changed
/// relationships: where nothing changed meanwhile, the session tracks the same
/// components, resources and despawned entities as before the trigger.
pub proof fn law_failed_commit_gives_changes_back<C>(
    pending: PendingCommit<C>,
    data: CommitModel,
    request: CommitRequest<C>,
)
    requires
        request.carries(pending, data),
    ensures
        DirtyModel::clean().merge(request.meta.restorable()) == (DirtyModel {
            relationships: Set::empty(),
            ..pending.dirty@
        }),
{
    tracking::law_restore_undoes_take(request.meta.restorable());
}

} // verus!
