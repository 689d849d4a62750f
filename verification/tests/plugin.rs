//! The plugin: configuration, change detection and the commit life cycle.
use std::collections::{HashMap, HashSet};
use std::time::{Duration, Instant};

use bevy_persistence_database::compact::DEFAULT_COMPACT_THRESHOLD_BYTES;
use bevy_persistence_database::db::shared::{
    check_operation_success, extract_keys, GroupedOperations, OperationType,
};
use bevy_persistence_database::db::{read_version, PersistenceError, TransactionOperation};
use bevy_persistence_database::plugin::commit::{
    accept_commit_triggers, handle_commit_completed, prepare_accepted_commit, success_can_apply,
    task_result, CommitMeta, CommitRequest, CommitStart, FinishedTask, TaskEffects, TaskPoll,
    TransactionResult, TriggerDecision,
};
use bevy_persistence_database::plugin::tracking::{
    auto_despawn_tracking_resource_system, auto_despawn_tracking_system,
    auto_dirty_tracking_entity_system, auto_dirty_tracking_relationship_system,
    auto_dirty_tracking_resource_system, finish_hydration,
};
use bevy_persistence_database::plugin::{
    commit_in_flight, CommitCompleted, CommitStatus, PersistencePluginConfig,
    PersistencePluginCore, PersistencePlugins, PersistenceSystemSet, RegisteredPersistTypes,
    TriggerCommit,
};
use bevy_persistence_database::session::edges::{Link, RelationshipScan};
use bevy_persistence_database::session::prepare_commit::{serialized_field, WorldSnapshot};
use bevy_persistence_database::session::{Entity, PersistenceSession, TypeId};
use bevy_persistence_database::value::{Number, Value};
use bevy_persistence_database::versioning::VersionKey;

const HEALTH: TypeId = 1;
const SETTINGS: TypeId = 2;
const TEST_REL: TypeId = 3;
const TEST_STORE: &str = "test_store";

type Backend<'a> = &'a mut dyn FnMut(Vec<TransactionOperation>) -> TransactionResult;

/// A world with one component and one resource type, and its session.
struct TestApp {
    session: PersistenceSession,
    status: CommitStatus,
    queued: Option<TriggerCommit<u8>>,
    health: HashMap<Entity, u64>,
    relationships: Vec<(TypeId, Vec<Link>)>,
    guids: HashMap<Entity, String>,
    next: Entity,
}

impl TestApp {
    fn new() -> Self {
        let mut session = PersistencePluginConfig::default().initial_session();
        session.register_component_named(HEALTH, "Health");
        session.register_resource_named(SETTINGS, "Settings");
        TestApp {
            session,
            status: CommitStatus::default(),
            queued: None,
            health: HashMap::new(),
            relationships: Vec::new(),
            guids: HashMap::new(),
            next: 1,
        }
    }

    fn spawn(&mut self, value: u64) -> Entity {
        let entity = self.next;
        self.next += 1;
        self.health.insert(entity, value);
        let added: HashSet<Entity> = [entity].into_iter().collect();
        auto_dirty_tracking_entity_system(&mut self.session, HEALTH, &vec![entity], &added);
        entity
    }

    fn change(&mut self, entity: Entity, value: u64) {
        self.health.insert(entity, value);
        auto_dirty_tracking_entity_system(
            &mut self.session,
            HEALTH,
            &vec![entity],
            &HashSet::new(),
        );
    }

    fn snapshot(&self) -> WorldSnapshot {
        let mut components = HashMap::new();
        for (entity, value) in &self.health {
            let mut of_entity = HashMap::new();
            let value = Value::Number(Number::PosInt(*value));
            of_entity.insert(HEALTH, serialized_field("Health", Some(Ok(value))));
            components.insert(*entity, of_entity);
        }
        WorldSnapshot {
            guids: self.guids.clone(),
            components,
            resources: HashMap::new(),
            relationships: self
                .relationships
                .iter()
                .map(|(type_id, links)| {
                    let links = links.iter().map(|l| Link { payload: None, ..*l }).collect();
                    (*type_id, RelationshipScan::Links(links))
                })
                .collect(),
        }
    }

    fn accept(&mut self, triggers: Vec<TriggerCommit<u8>>) -> TriggerDecision<u8> {
        accept_commit_triggers(&mut self.session, &mut self.status, &mut self.queued, triggers)
    }

    /// Triggers a commit and prepares it.
    fn start(&mut self, triggers: Vec<TriggerCommit<u8>>) -> Option<CommitStart<u8>> {
        match self.accept(triggers) {
            TriggerDecision::Wait => None,
            TriggerDecision::Reject(completed) => Some(CommitStart::Over(completed)),
            TriggerDecision::Prepare(pending) => {
                let world = self.snapshot();
                let order = pending.dirty.walk();
                let keys = self.session.preassign_keys(&world, &pending.dirty);
                assert!(self.session.versions_can_advance(&world, &order, &pending.dirty));
                Some(prepare_accepted_commit(
                    &mut self.session,
                    &mut self.status,
                    pending,
                    &world,
                    &order,
                    keys,
                    "_key",
                ))
            }
        }
    }

    /// Completes tasks and carries out what that asks of the world.
    fn complete(&mut self, tasks: Vec<FinishedTask<u8>>) -> Vec<TaskEffects<u8>> {
        let report = handle_commit_completed(
            &mut self.session,
            &mut self.status,
            &mut self.queued,
            tasks,
        );
        assert!(!report.overflow);
        for effects in &report.effects {
            for (entity, guid) in &effects.guids {
                self.guids.insert(*entity, guid.clone());
            }
        }
        report.effects
    }

    /// Completes one task in a pass of its own.
    fn complete_one(&mut self, task: FinishedTask<u8>) -> TaskEffects<u8> {
        self.complete(vec![task]).pop().expect("completed")
    }

    fn commit_sync(&mut self, db: Backend) -> Result<Vec<String>, PersistenceError> {
        let started = self.start(vec![trigger(Some(7), TEST_STORE)]).expect("accepted");
        match started {
            CommitStart::Over(completed) => completed.result,
            CommitStart::Run(request) => {
                assert!(commit_in_flight(&self.status));
                let CommitRequest { correlation_id, operations, meta, .. } = request;
                let result = task_result(TaskPoll::Finished(db(operations))).expect("over");
                let effects = self.complete_one(finished(correlation_id, Some(meta), result));
                assert!(effects.follow_up.is_none());
                let completed = effects.completed.expect("answered");
                assert_eq!(completed.correlation_id, Some(7));
                completed.result
            }
        }
    }
}

fn trigger(correlation_id: Option<u64>, store: &str) -> TriggerCommit<u8> {
    TriggerCommit { correlation_id, target_connection: 5, store: store.to_string() }
}

fn finished(
    correlation_id: Option<u64>,
    meta: Option<CommitMeta<u8>>,
    result: TransactionResult,
) -> FinishedTask<u8> {
    FinishedTask { correlation_id, meta, result }
}

/// A store of documents with versions.
#[derive(Default)]
struct MemoryStore {
    versions: HashMap<String, u64>,
}

impl MemoryStore {
    fn execute(&mut self, ops: Vec<TransactionOperation>) -> TransactionResult {
        let grouped = GroupedOperations::from_operations(ops, "_key");
        let requested = extract_keys(&grouped.entities.updates, "_key");
        let mut processed = Vec::new();
        for update in &grouped.entities.updates {
            let key = update.get("_key").and_then(|v| v.as_str()).unwrap();
            let expected = update.get("expected").and_then(|v| v.as_u64()).unwrap();
            if self.versions.get(key) == Some(&expected) {
                processed.push(key.to_string());
            }
        }
        check_operation_success(requested, processed, &OperationType::Update, TEST_STORE)?;
        for update in &grouped.entities.updates {
            let key = update.get("_key").and_then(|v| v.as_str()).unwrap();
            let version = read_version(update.get("patch").unwrap()).unwrap();
            self.versions.insert(key.to_string(), version);
        }
        for doc in &grouped.entities.creates {
            let key = doc.get("_key").and_then(|v| v.as_str()).unwrap();
            self.versions.insert(key.to_string(), read_version(doc).unwrap());
        }
        Ok((Vec::new(), Vec::new()))
    }
}

#[test]
fn test_batch_commit_failure_propagates() {
    let mut app = TestApp::new();
    let mut store = MemoryStore::default();
    let ids: Vec<Entity> = (0..5).map(|i| app.spawn(i)).collect();
    app.commit_sync(&mut |ops| store.execute(ops)).unwrap();

    // Another writer bumps the version of the third entity.
    let guid = app.guids.get(&ids[2]).unwrap().clone();
    let version = *store.versions.get(&guid).unwrap();
    store.versions.insert(guid.clone(), version + 1);

    for id in &ids {
        let value = *app.health.get(id).unwrap();
        app.change(*id, value + 10);
    }
    let res = app.commit_sync(&mut |ops| store.execute(ops));
    assert!(matches!(res, Err(PersistenceError::Conflict { key }) if key == guid));
    assert_eq!(app.status, CommitStatus::Idle);
    // What failed is still to be committed.
    assert!(ids.iter().all(|id| app.session.is_entity_dirty(*id)));
}

#[test]
fn test_atomic_commit_single_transaction() {
    let batch_delay = Duration::from_millis(50);
    let entity_count = 10;
    let mut app = TestApp::new();
    for i in 0..entity_count {
        app.spawn(i);
    }
    let mut transactions = 0;
    let start_time = Instant::now();
    let res = app.commit_sync(&mut |_ops| {
        transactions += 1;
        let begun = Instant::now();
        while begun.elapsed() < batch_delay {}
        Ok((vec![], vec![]))
    });
    let elapsed = start_time.elapsed();
    assert!(res.is_ok());
    assert_eq!(transactions, 1);
    assert!(
        elapsed >= batch_delay,
        "Elapsed time should be at least one transaction delay."
    );
    assert!(
        elapsed < batch_delay * 3,
        "Atomic commit should not wait for multiple sequential transaction delays."
    );
}

#[test]
fn test_atomic_commit_failure_rolls_back_all() {
    let mut app = TestApp::new();
    for i in 0..9 {
        app.spawn(i);
    }
    let result = app
        .commit_sync(&mut |_| Err(PersistenceError::new("Simulated failure in transaction")));
    assert!(result.is_err());
    assert!(
        matches!(result, Err(PersistenceError::General(msg)) if msg.contains("Simulated failure"))
    );
    assert_eq!(app.status, CommitStatus::Idle);
    let guid_count = app.guids.len();
    assert_eq!(guid_count, 0, "No entity should have a Guid after atomic failure");
}

#[test]
fn test_atomic_commit_includes_all_operations() {
    let entity_count = 25usize;
    let mut app = TestApp::new();
    for i in 0..entity_count {
        app.spawn(i as u64);
    }
    let mut seen = 0;
    let res = app.commit_sync(&mut |ops| {
        seen = ops.len();
        Ok((vec![], vec![]))
    });
    assert!(res.is_ok(), "Commit should succeed with mocked DB");
    assert_eq!(seen, entity_count, "expected all entity creates in one atomic transaction");
    assert_eq!(app.guids.len(), entity_count);
}

#[test]
fn mock_db_receives_no_transaction_when_nothing_dirty() {
    let mut app = TestApp::new();
    let mut transactions = 0;
    let result = app.commit_sync(&mut |_| {
        transactions += 1;
        Ok((vec![], vec![]))
    });
    assert!(result.is_ok());
    assert_eq!(transactions, 0);
    assert_eq!(app.status, CommitStatus::Idle);
}

#[test]
fn read_only_access_does_not_mark_dirty() {
    let mut app = TestApp::new();
    let entity = app.spawn(100);
    app.session.clear_dirty_entity_components();

    assert_eq!(app.health.get(&entity), Some(&100));
    // Nothing is reported as changed.
    auto_dirty_tracking_entity_system(&mut app.session, HEALTH, &vec![], &HashSet::new());
    assert!(
        !app.session.is_entity_dirty(entity),
        "Entity was incorrectly marked dirty after read-only access"
    );

    app.change(entity, 200);
    assert!(
        app.session.is_entity_dirty(entity),
        "Entity should be marked dirty after modification"
    );
}

#[test]
fn hydration_scope_suppresses_added_dirt() {
    let mut session = PersistenceSession::new();
    session.register_component_named(HEALTH, "TestHealth");
    let entity: Entity = 1;
    assert!(session.hydrate_entity_component("TestHealth"), "hydrate should succeed");

    // The systems of the frame: change detection, then the end of hydration.
    let added: HashSet<Entity> = [entity].into_iter().collect();
    auto_dirty_tracking_entity_system(&mut session, HEALTH, &vec![entity], &added);
    assert!(finish_hydration(&mut session));

    assert!(
        !session.is_entity_dirty(entity),
        "components inserted under hydration scope must not mark dirty"
    );
    assert!(
        !session.is_hydrating(),
        "hydration scope should end after finish_hydration"
    );
    assert!(!finish_hydration(&mut session));
}

#[test]
fn post_load_mutation_marks_dirty() {
    let mut app = TestApp::new();
    let entity = app.spawn(100);
    app.change(entity, 200);
    assert!(
        app.session.is_entity_dirty(entity),
        "post-load user mutation must mark dirty"
    );
}

#[test]
fn changes_of_existing_components_are_marked_while_loading() {
    let mut session = PersistenceSession::new();
    session.ensure_hydrating();
    let added: HashSet<Entity> = [1].into_iter().collect();
    auto_dirty_tracking_entity_system(&mut session, HEALTH, &vec![1, 2], &added);
    assert!(!session.is_entity_dirty(1));
    assert!(session.is_entity_dirty(2));
    session.track_component_added(3, HEALTH);
    assert!(!session.is_entity_dirty(3));
    session.finish_all_hydration();
    session.track_component_added(3, HEALTH);
    assert!(session.is_entity_dirty(3));
}

#[test]
fn resources_and_relationships_are_not_marked_while_loading() {
    let mut session = PersistenceSession::new();
    session.ensure_hydrating();
    auto_dirty_tracking_resource_system(&mut session, SETTINGS, Some(true));
    auto_dirty_tracking_relationship_system(&mut session, &vec![1], &vec![2]);
    assert!(!session.is_resource_dirty(SETTINGS));
    assert!(session.tracking.dirty_relationship_entities.is_empty());
    finish_hydration(&mut session);
    auto_dirty_tracking_resource_system(&mut session, SETTINGS, None);
    auto_dirty_tracking_resource_system(&mut session, SETTINGS, Some(false));
    assert!(!session.is_resource_dirty(SETTINGS));
    auto_dirty_tracking_resource_system(&mut session, SETTINGS, Some(true));
    auto_dirty_tracking_relationship_system(&mut session, &vec![1], &vec![2]);
    assert!(session.is_resource_dirty(SETTINGS));
    assert_eq!(session.tracking.dirty_relationship_entities, [1, 2].into_iter().collect());
}

#[test]
fn removed_resources_and_entities_are_marked() {
    let mut session = PersistenceSession::new();
    session.register_resource_named(SETTINGS, "Settings");
    let none = HashSet::new();
    let present: HashSet<TypeId> = [SETTINGS].into_iter().collect();
    // Never seen before: nothing is removed.
    let snapshot = session.resource_presence_snapshot(&none);
    assert_eq!(snapshot, vec![(SETTINGS, false)]);
    auto_despawn_tracking_resource_system(&mut session, &snapshot);
    assert!(session.tracking.despawned_resources.is_empty());
    let snapshot = session.resource_presence_snapshot(&present);
    auto_despawn_tracking_resource_system(&mut session, &snapshot);
    assert!(session.tracking.despawned_resources.is_empty());
    let snapshot = session.resource_presence_snapshot(&none);
    auto_despawn_tracking_resource_system(&mut session, &snapshot);
    assert!(session.tracking.despawned_resources.contains(&SETTINGS));
    auto_despawn_tracking_system(&mut session, &vec![4, 5]);
    assert_eq!(session.tracking.despawned_entities, [4, 5].into_iter().collect());
}

#[test]
fn successful_commit_advances_versions() {
    let mut app = TestApp::new();
    let mut store = MemoryStore::default();
    let entity = app.spawn(1);
    app.commit_sync(&mut |ops| store.execute(ops)).unwrap();
    let guid = app.guids.get(&entity).unwrap().clone();
    let key = VersionKey::Entity(guid.clone());
    assert_eq!(app.session.version_manager().get_version(&key), Some(1));
    assert_eq!(app.session.entity_key(entity), Some(&guid));
    assert_eq!(app.session.entity_by_key(&guid), Some(entity));
    assert!(!app.session.is_entity_dirty(entity));

    app.change(entity, 2);
    app.commit_sync(&mut |ops| store.execute(ops)).unwrap();
    assert_eq!(app.session.version_manager().get_version(&key), Some(2));
    assert_eq!(store.versions.get(&guid), Some(&2));

    auto_despawn_tracking_system(&mut app.session, &vec![entity]);
    app.health.remove(&entity);
    app.commit_sync(&mut |ops| {
        assert_eq!(ops.len(), 1);
        Ok((vec![], vec![]))
    })
    .unwrap();
    assert_eq!(app.session.version_manager().get_version(&key), None);
}

#[test]
fn triggers_of_one_frame_are_coalesced() {
    let mut app = TestApp::new();
    app.spawn(1);
    let triggers = vec![trigger(Some(1), TEST_STORE), trigger(Some(2), "other")];
    let request = match app.start(triggers) {
        Some(CommitStart::Run(request)) => request,
        _ => panic!("expected a running commit"),
    };
    assert_eq!(request.correlation_id, Some(1));
    assert_eq!(request.meta.store, TEST_STORE);
    assert_eq!(app.status, CommitStatus::InProgressAndDirty);

    let effects = app.complete_one(finished(
        request.correlation_id,
        Some(request.meta),
        Ok((vec![], vec![])),
    ));
    assert!(effects.completed.unwrap().result.is_ok());
    // Only further triggers of the same frame were queued.
    let follow_up = effects.follow_up.expect("follow-up commit");
    assert_eq!(follow_up.correlation_id, None);
    assert_eq!(follow_up.target_connection, 5);
    assert_eq!(follow_up.store, TEST_STORE);
    assert_eq!(app.status, CommitStatus::Idle);
}

#[test]
fn trigger_while_running_is_followed_up_as_it_came() {
    // Whether or not further triggers came with the one that started the commit.
    for extra in [false, true] {
        let mut app = TestApp::new();
        app.spawn(1);
        let mut triggers = vec![trigger(Some(1), TEST_STORE)];
        if extra {
            triggers.push(trigger(Some(2), TEST_STORE));
        }
        let request = match app.start(triggers) {
            Some(CommitStart::Run(request)) => request,
            _ => panic!("expected a running commit"),
        };
        let queued =
            TriggerCommit { correlation_id: Some(7), target_connection: 6, store: "s2".to_string() };
        app.spawn(2);
        assert!(app.start(vec![queued, trigger(Some(8), TEST_STORE)]).is_none());
        assert!(app.start(vec![trigger(Some(9), TEST_STORE)]).is_none());
        assert_eq!(app.status, CommitStatus::InProgressAndDirty);

        let effects =
            app.complete_one(finished(Some(1), Some(request.meta), Ok((vec![], vec![]))));
        let follow_up = effects.follow_up.expect("follow-up commit");
        assert_eq!(follow_up.correlation_id, Some(7));
        assert_eq!(follow_up.target_connection, 6);
        assert_eq!(follow_up.store, "s2");
        assert!(app.queued.is_none());

        match app.start(vec![follow_up]) {
            Some(CommitStart::Run(request)) => {
                assert_eq!(request.correlation_id, Some(7));
                assert_eq!(request.meta.connection, 6);
                assert_eq!(request.meta.store, "s2");
            }
            _ => panic!("expected a running commit"),
        }
    }
}

#[test]
fn queued_trigger_without_store_is_answered_with_its_id() {
    let mut app = TestApp::new();
    app.spawn(1);
    let request = running_with_queue(&mut app);
    assert!(app.start(vec![trigger(Some(7), "")]).is_none());
    let effects = app.complete_one(finished(Some(1), Some(request.meta), Ok((vec![], vec![]))));
    match app.start(vec![effects.follow_up.expect("follow-up commit")]) {
        Some(CommitStart::Over(completed)) => {
            assert_eq!(completed.correlation_id, Some(7));
            assert!(completed.result.is_err());
        }
        _ => panic!("expected an answer"),
    }
}

#[test]
fn trigger_while_running_queues_a_follow_up() {
    let mut app = TestApp::new();
    app.status = CommitStatus::InProgress;
    assert!(matches!(app.accept(vec![]), TriggerDecision::Wait));
    assert_eq!(app.status, CommitStatus::InProgress);
    assert!(app.queued.is_none());
    assert!(matches!(app.accept(vec![trigger(None, TEST_STORE)]), TriggerDecision::Wait));
    assert_eq!(app.status, CommitStatus::InProgressAndDirty);
    assert!(app.queued.is_some());
    assert!(commit_in_flight(&app.status));
    assert!(!commit_in_flight(&CommitStatus::Idle));
}

#[test]
fn trigger_without_store_is_answered_with_an_error() {
    let mut app = TestApp::new();
    let entity = app.spawn(1);
    match app.start(vec![trigger(Some(9), "")]) {
        Some(CommitStart::Over(completed)) => {
            assert_eq!(completed.correlation_id, Some(9));
            match completed.result {
                Err(PersistenceError::General(m)) => {
                    assert_eq!(m, "TriggerCommit store must be non-empty")
                }
                other => panic!("expected an error, got {other:?}"),
            }
        }
        _ => panic!("expected an answer"),
    }
    assert!(app.session.is_entity_dirty(entity));
    assert_eq!(app.status, CommitStatus::Idle);
}

#[test]
fn failed_preparation_gives_the_changes_back() {
    let mut app = TestApp::new();
    let entity = app.spawn(1);
    app.session.insert_entity_key(entity, "k".to_string());
    let err = app.commit_sync(&mut |_| panic!("no transaction expected")).unwrap_err();
    assert!(matches!(err, PersistenceError::General(m) if m == "Missing version for update"));
    assert!(app.session.is_entity_dirty(entity));
    assert_eq!(app.status, CommitStatus::Idle);
}

#[test]
fn failure_drops_the_queued_commit() {
    let mut app = TestApp::new();
    app.spawn(1);
    let triggers = vec![trigger(Some(1), TEST_STORE), trigger(Some(2), TEST_STORE)];
    let request = match app.start(triggers) {
        Some(CommitStart::Run(request)) => request,
        _ => panic!("expected a running commit"),
    };
    assert!(app.start(vec![trigger(Some(3), "other")]).is_none());
    let closed = task_result(TaskPoll::Closed).unwrap();
    let effects = app.complete_one(finished(Some(1), Some(request.meta), closed));
    match effects.completed.unwrap().result {
        Err(PersistenceError::General(m)) => {
            assert_eq!(m, "Commit task cancelled before completion")
        }
        other => panic!("expected an error, got {other:?}"),
    }
    assert!(effects.follow_up.is_none());
    assert!(app.queued.is_none());
    assert!(effects.guids.is_empty());
    assert_eq!(app.status, CommitStatus::Idle);
    assert!(task_result(TaskPoll::Pending).is_none());
}

#[test]
fn tasks_without_meta_only_report_errors() {
    let mut app = TestApp::new();
    let effects = app.complete(vec![
        finished(None, None, Ok((vec![], vec![]))),
        finished(Some(3), None, Err(PersistenceError::new("x"))),
    ]);
    assert_eq!(effects.len(), 2);
    assert!(effects[0].completed.is_none());
    assert!(effects[0].follow_up.is_none());
    let completed = effects[1].completed.as_ref().unwrap();
    assert!(completed.result.is_err());
    assert_eq!(completed.correlation_id, Some(3));
    assert_eq!(app.status, CommitStatus::Idle);
}

/// A commit that is running while another one is queued.
fn running_with_queue(app: &mut TestApp) -> CommitRequest<u8> {
    let triggers = vec![trigger(Some(1), TEST_STORE), trigger(Some(2), TEST_STORE)];
    match app.start(triggers) {
        Some(CommitStart::Run(request)) => request,
        _ => panic!("expected a running commit"),
    }
}

#[test]
fn an_error_in_a_pass_drops_the_queued_commit() {
    let mut app = TestApp::new();
    let entity = app.spawn(1);
    let request = running_with_queue(&mut app);
    let effects = app.complete(vec![
        finished(None, None, Err(PersistenceError::new("x"))),
        finished(Some(1), Some(request.meta), Ok((vec![], vec![]))),
    ]);
    assert!(effects[1].completed.as_ref().unwrap().result.is_ok());
    assert!(effects[1].follow_up.is_none());
    assert_eq!(effects[1].guids.len(), 1);
    assert!(app.guids.contains_key(&entity));
    assert_eq!(app.status, CommitStatus::Idle);
}

#[test]
fn a_pass_triggers_at_most_one_commit() {
    let mut app = TestApp::new();
    app.spawn(1);
    let first = running_with_queue(&mut app);
    let mut other = TestApp::new();
    other.spawn(1);
    let second = running_with_queue(&mut other);
    let effects = app.complete(vec![
        finished(Some(1), Some(first.meta), Ok((vec![], vec![]))),
        finished(Some(2), Some(second.meta), Ok((vec![], vec![]))),
    ]);
    assert!(effects[0].follow_up.is_some());
    assert!(effects[1].follow_up.is_none());
    assert_eq!(app.status, CommitStatus::Idle);
}

#[test]
fn a_pass_without_tasks_changes_nothing() {
    let mut app = TestApp::new();
    app.status = CommitStatus::InProgressAndDirty;
    assert!(app.complete(vec![]).is_empty());
    assert_eq!(app.status, CommitStatus::InProgressAndDirty);
}

#[test]
fn a_pass_ends_before_a_version_overflows() {
    let mut app = TestApp::new();
    let entity = app.spawn(1);
    app.session.insert_entity_key(entity, "k".to_string());
    let key = || VersionKey::Entity("k".to_string());
    app.session.version_manager_mut().set_version(key(), 3);
    let request = running_with_queue(&mut app);
    app.session.version_manager_mut().set_version(key(), u64::MAX);
    let tasks = vec![
        finished(None, None, Err(PersistenceError::new("x"))),
        finished(Some(1), Some(request.meta), Ok((vec![], vec![]))),
    ];
    let report =
        handle_commit_completed(&mut app.session, &mut app.status, &mut app.queued, tasks);
    assert!(report.overflow);
    assert_eq!(report.effects.len(), 1);
    assert_eq!(app.session.version_manager().get_version(&key()), Some(u64::MAX));
}

#[test]
fn deleted_edges_are_not_deleted_again() {
    let mut app = TestApp::new();
    app.session.register_relationship(TEST_REL, "TestRel");
    app.session.insert_entity_key(1, "guid_a".to_string());
    app.session.insert_entity_key(2, "guid_b".to_string());
    let mut set = bevy_persistence_database::collections::KeySet::new();
    set.insert("TestRel:guid_a:guid_b".to_string());
    app.session.set_edge_snapshot(set);

    // The link from 1 to 2 is gone: its edge is deleted, and none is left.
    app.session.mark_relationship_entity_dirty(1);
    let request = match app.start(vec![trigger(None, TEST_STORE)]) {
        Some(CommitStart::Run(request)) => request,
        _ => panic!("expected a running commit"),
    };
    match &request.operations[..] {
        [TransactionOperation::DeleteEdges { keys, .. }] => {
            assert_eq!(keys, &vec!["TestRel:guid_a:guid_b".to_string()])
        }
        other => panic!("expected deleted edges, got {other:?}"),
    }
    assert!(request.meta.new_edge_snapshot.is_empty());
    app.complete_one(finished(None, Some(request.meta), Ok((vec![], vec![]))));
    assert!(app.session.cache.edge_snapshot.is_empty());

    // Looking again finds nothing to do ...
    app.session.mark_relationship_entity_dirty(1);
    match app.start(vec![trigger(None, TEST_STORE)]) {
        Some(CommitStart::Over(completed)) => assert!(completed.result.is_ok()),
        _ => panic!("expected nothing to write"),
    }

    // ... and an edge that comes back is written again.
    let links = vec![Link { from: 1, to: 2, payload: None }];
    app.relationships = vec![(TEST_REL, links)];
    match app.start(vec![trigger(None, TEST_STORE)]) {
        Some(CommitStart::Run(request)) => {
            assert!(matches!(
                &request.operations[..],
                [TransactionOperation::UpsertEdges { edges, .. }] if edges.len() == 1
            ));
        }
        _ => panic!("expected a running commit"),
    }
}

#[test]
fn versions_that_cannot_be_counted_up_are_noticed() {
    let mut app = TestApp::new();
    let entity = app.spawn(1);
    app.session.insert_entity_key(entity, "k".to_string());
    let key = || VersionKey::Entity("k".to_string());
    app.session.version_manager_mut().set_version(key(), 3);
    let request = match app.start(vec![trigger(None, TEST_STORE)]) {
        Some(CommitStart::Run(request)) => request,
        _ => panic!("expected a running commit"),
    };
    assert!(success_can_apply(&app.session, &request.meta));
    app.session.version_manager_mut().set_version(key(), u64::MAX);
    assert!(!success_can_apply(&app.session, &request.meta));
}

#[test]
fn plugin_configuration_defaults() {
    let config = PersistencePluginConfig::default();
    assert_eq!(config.thread_count, 4);
    assert_eq!(config.default_store, "default_store");
    assert_eq!(config.compact_threshold_bytes, DEFAULT_COMPACT_THRESHOLD_BYTES);
    assert_eq!(DEFAULT_COMPACT_THRESHOLD_BYTES, 262144);
    assert_eq!(config.pool_threads(), Some(4));
    let serial = PersistencePluginConfig { thread_count: 1, ..config.clone() };
    assert_eq!(serial.pool_threads(), None);

    let core = PersistencePluginCore::new(3u8).with_config(PersistencePluginConfig {
        thread_count: 2,
        default_store: "s".to_string(),
        compact_threshold_bytes: 10,
    });
    assert_eq!(core.db, 3);
    assert_eq!(core.config.initial_session().compact_threshold_bytes(), 10);
    let built = PersistencePlugins::new(4u8).with_config(serial).build();
    assert_eq!(built.db, 4);
    assert_eq!(built.config.thread_count, 1);
    assert!(RegisteredPersistTypes::default().types.is_empty());
    let phases = PersistenceSystemSet::chain();
    assert_eq!(phases[0], PersistenceSystemSet::LoadApply);
    assert_eq!(phases[4], PersistenceSystemSet::Commit);
}

/// The document that the only operation of a commit writes.
fn only_document(operations: &[TransactionOperation]) -> &Value {
    assert_eq!(operations.len(), 1);
    match &operations[0] {
        TransactionOperation::CreateDocument { data, .. } => data,
        TransactionOperation::UpdateDocument { patch, .. } => patch,
        other => panic!("expected a written document, got {other:?}"),
    }
}

#[test]
fn cached_resource_version_is_the_written_one() {
    let mut app = TestApp::new();
    for expected in 1..4u64 {
        app.session.mark_resource_dirty(SETTINGS);
        let pending = match app.accept(vec![trigger(None, TEST_STORE)]) {
            TriggerDecision::Prepare(pending) => pending,
            _ => panic!("expected an accepted commit"),
        };
        let mut fields = bevy_persistence_database::value::Object::new();
        fields.insert("volume".to_string(), Value::Number(Number::PosInt(expected + 10)));
        let mut world = app.snapshot();
        world
            .resources
            .insert(SETTINGS, serialized_field("Settings", Some(Ok(Value::Object(fields)))));
        let order = pending.dirty.walk();
        assert!(app.session.versions_can_advance(&world, &order, &pending.dirty));
        let start = prepare_accepted_commit(
            &mut app.session,
            &mut app.status,
            pending,
            &world,
            &order,
            HashMap::new(),
            "_key",
        );
        let request = match start {
            CommitStart::Run(request) => request,
            CommitStart::Over(_) => panic!("expected a running commit"),
        };
        let doc = only_document(&request.operations);
        assert_eq!(read_version(doc), Some(expected));
        assert_eq!(doc.get("volume").and_then(|v| v.as_u64()), Some(expected + 10));
        app.complete_one(finished(None, Some(request.meta), Ok((vec![], vec![]))));
        assert_eq!(app.session.resource_version(SETTINGS), Some(expected));
    }
}
