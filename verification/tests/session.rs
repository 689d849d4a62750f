//! Sessions: registration, loading and the preparation of commits.
use std::collections::{HashMap, HashSet};

use bevy::ecs::component::{Mutable, StorageType};
use bevy::prelude::{Component, Resource, World};
use bevy_persistence_database::collections::KeySet;
use bevy_persistence_database::compact::from_persist_value;
use bevy_persistence_database::db::connection::{
    DocumentKind, EdgeDocument, PersistenceError, TransactionOperation,
    BEVY_PERSISTENCE_DATABASE_BEVY_TYPE_FIELD, BEVY_PERSISTENCE_DATABASE_METADATA_FIELD,
    BEVY_PERSISTENCE_DATABASE_VERSION_FIELD,
};
use bevy_persistence_database::db::read_version;
use bevy_persistence_database::derive::persist::{
    expand, read_single_field, write_single_field, Fields, ItemShape, PersistKind, SerdeDerive,
};
use bevy_persistence_database::session::edges::{required_payload, Link, RelationshipScan};
use bevy_persistence_database::session::hydrate::{
    document_key, document_with_key, ResourceLoad,
};
use bevy_persistence_database::session::prepare_commit::{
    serialized_field, CommitData, Serialized, WorldSnapshot,
};
use bevy_persistence_database::session::{DirtyState, Entity, PersistenceSession, TypeId};
use bevy_persistence_database::value::{Number, Object, Value};
use bevy_persistence_database::versioning::VersionKey;
use serde::Deserialize;

const MY_COMP: TypeId = 1;
const MY_RES: TypeId = 2;
const TEST_REL: TypeId = 3;

fn empty_world() -> WorldSnapshot {
    WorldSnapshot {
        guids: HashMap::new(),
        components: HashMap::new(),
        resources: HashMap::new(),
        relationships: Vec::new(),
    }
}

fn object(fields: Vec<(&str, Value)>) -> Value {
    let mut o = Object::new();
    for (name, value) in fields {
        o.insert(name.to_string(), value);
    }
    Value::Object(o)
}

fn uint(n: u64) -> Value {
    Value::Number(Number::PosInt(n))
}

fn number(value: Option<&Value>) -> u64 {
    value.and_then(|v| v.as_u64()).expect("a number")
}

fn field(name: &str, value: Value) -> Serialized {
    serialized_field(name, Some(Ok(value)))
}

fn add_component(world: &mut WorldSnapshot, entity: Entity, type_id: TypeId, s: Serialized) {
    world.components.entry(entity).or_default().insert(type_id, s);
}

fn nothing_dirty() -> DirtyState {
    DirtyState::default()
}

fn dirty_component(entity: Entity, type_id: TypeId) -> DirtyState {
    let mut dirty = DirtyState::default();
    dirty.mark_component(entity, type_id);
    dirty
}

fn dirty_relationship(entity: Entity) -> DirtyState {
    DirtyState::from_parts(
        HashMap::new(),
        HashSet::new(),
        HashSet::new(),
        HashSet::new(),
        [entity].into_iter().collect(),
    )
}

fn prepare(session: &PersistenceSession, world: &WorldSnapshot, dirty: &DirtyState) -> CommitData {
    session.prepare_commit(world, dirty, "_key", "store").unwrap()
}

fn prepare_error(
    session: &PersistenceSession,
    world: &WorldSnapshot,
    dirty: &DirtyState,
    store: &str,
) -> PersistenceError {
    match session.prepare_commit(world, dirty, "_key", store) {
        Ok(_) => panic!("expected an error"),
        Err(e) => e,
    }
}

fn assert_general(error: PersistenceError, message: &str) {
    match error {
        PersistenceError::General(m) => assert_eq!(m, message),
        other => panic!("expected a general error, got {other:?}"),
    }
}

fn edge(name: &str, from: &str, to: &str) -> EdgeDocument {
    EdgeDocument {
        key: EdgeDocument::make_key(name, from, to),
        relationship_type: name.to_string(),
        from_guid: from.to_string(),
        to_guid: to.to_string(),
        payload: None,
    }
}

fn key_set(keys: &[&str]) -> KeySet {
    let mut set = KeySet::new();
    for key in keys {
        set.insert(key.to_string());
    }
    set
}

fn check_new_session_is_empty() {
    let session = PersistenceSession::new();
    assert!(session.is_dirty_entity_components_empty());
    assert!(session.is_despawned_entities_empty());
}

#[test]
fn tests_new_session_is_empty() {
    check_new_session_is_empty();
}

#[test]
fn persistence_session_new_session_is_empty() {
    check_new_session_is_empty();
}

/// The `serde_json` form of a value without floating-point numbers.
fn to_serde(value: &Value) -> serde_json::Value {
    match value {
        Value::Null => serde_json::Value::Null,
        Value::Bool(b) => serde_json::Value::Bool(*b),
        Value::Number(Number::PosInt(n)) => serde_json::Value::from(*n),
        Value::Number(Number::NegInt(n)) => serde_json::Value::from(*n),
        Value::Number(Number::Float(_)) => panic!("no floating-point numbers here"),
        Value::String(s) => serde_json::Value::String(s.clone()),
        Value::Array(items) => serde_json::Value::Array(items.iter().map(to_serde).collect()),
        Value::Object(o) => serde_json::Value::Object(
            o.entries.iter().map(|(k, v)| (k.clone(), to_serde(v))).collect(),
        ),
    }
}

/// What a registered deserializer makes of a stored value.
fn deserialized<T: serde::de::DeserializeOwned>(value: Value) -> T {
    from_persist_value(
        value,
        |raw: Vec<u8>| postcard::from_bytes(&raw).map_err(|e| e.to_string()),
        |json: Value| serde_json::from_value(to_serde(&json)).map_err(|e| e.to_string()),
    )
    .expect("a value of the type")
}

/// The field `value` of a JSON object.
fn value_field<'de, D: serde::Deserializer<'de>>(deserializer: D) -> Result<i32, D::Error> {
    let fields: HashMap<String, i32> = serde::Deserialize::deserialize(deserializer)?;
    fields.get("value").copied().ok_or_else(|| serde::de::Error::missing_field("value"))
}

struct MyComp {
    value: i32,
}

impl Component for MyComp {
    const STORAGE_TYPE: StorageType = StorageType::Table;
    type Mutability = Mutable;
}

impl<'de> serde::Deserialize<'de> for MyComp {
    fn deserialize<D: serde::Deserializer<'de>>(deserializer: D) -> Result<Self, D::Error> {
        Ok(MyComp { value: value_field(deserializer)? })
    }
}

struct MyRes {
    value: i32,
}

impl Resource for MyRes {}

impl<'de> serde::Deserialize<'de> for MyRes {
    fn deserialize<D: serde::Deserializer<'de>>(deserializer: D) -> Result<Self, D::Error> {
        Ok(MyRes { value: value_field(deserializer)? })
    }
}

fn check_deserializer_inserts_component() {
    let mut world = World::new();
    let entity = world.spawn_empty().id();
    let mut session = PersistenceSession::new();
    session.register_component_named(MY_COMP, "MyComp");

    let value = object(vec![("value", uint(42))]);
    if session.hydrate_entity_component("MyComp") {
        world.entity_mut(entity).insert(deserialized::<MyComp>(value));
    }
    assert_eq!(world.get::<MyComp>(entity).unwrap().value, 42);
    assert!(!session.hydrate_entity_component("Unknown"));
}

#[test]
fn tests_deserializer_inserts_component() {
    check_deserializer_inserts_component();
}

#[test]
fn persistence_session_deserializer_inserts_component() {
    check_deserializer_inserts_component();
}

fn check_deserializer_inserts_resource() {
    let mut world = World::new();
    let mut session = PersistenceSession::new();
    session.register_resource_named(MY_RES, "MyRes");

    let value = object(vec![("value", uint(5))]);
    if session.hydrate_resource("MyRes") {
        world.insert_resource(deserialized::<MyRes>(value));
    }
    assert_eq!(world.resource::<MyRes>().value, 5);
    assert!(!session.hydrate_resource("Unknown"));
}

#[test]
fn tests_deserializer_inserts_resource() {
    check_deserializer_inserts_resource();
}

#[test]
fn persistence_session_deserializer_inserts_resource() {
    check_deserializer_inserts_resource();
}

fn check_resource_delete_when_marked_despawned() {
    let mut session = PersistenceSession::new();
    session.register_resource_named(MY_RES, "MyRes");
    session.version_manager_mut().set_version(VersionKey::Resource(MY_RES), 3);

    let dirty = DirtyState::from_parts(
        HashMap::new(),
        HashSet::new(),
        HashSet::new(),
        [MY_RES].into_iter().collect(),
        HashSet::new(),
    );
    let data = prepare(&session, &empty_world(), &dirty);

    assert_eq!(data.operations.len(), 1);
    match &data.operations[0] {
        TransactionOperation::DeleteDocument { store, kind, key, expected_current_version } => {
            assert_eq!(store, "store");
            assert!(matches!(kind, DocumentKind::Resource));
            assert_eq!(key, "MyRes");
            assert_eq!(*expected_current_version, 3);
        }
        other => panic!("expected resource delete operation, got {other:?}"),
    }
}

#[test]
fn tests_prepare_commit_emits_resource_delete_when_marked_despawned() {
    check_resource_delete_when_marked_despawned();
}

#[test]
fn persistence_session_prepare_commit_emits_resource_delete_when_marked_despawned() {
    check_resource_delete_when_marked_despawned();
}

fn check_preassigns_guid_for_new_entity() {
    let entity: Entity = 4;
    let mut session = PersistenceSession::new();
    session.register_component_named(MY_COMP, "MyComp");
    let mut world = empty_world();
    add_component(&mut world, entity, MY_COMP, field("MyComp", object(vec![("value", uint(7))])));

    let data = prepare(&session, &world, &dirty_component(entity, MY_COMP));

    assert_eq!(data.operations.len(), 1);
    assert!(matches!(&data.operations[0], TransactionOperation::CreateDocument { .. }));
    if let TransactionOperation::CreateDocument { data: doc, .. } = &data.operations[0] {
        let key = doc
            .get("_key")
            .and_then(|v| v.as_str())
            .expect("document should contain a preassigned _key");
        assert!(!key.is_empty(), "preassigned key should be non-empty UUID");
        assert_eq!(data.preassigned_keys.get(&entity).map(|s| s.as_str()), Some(key));
    }
}

#[test]
fn tests_prepare_commit_preassigns_guid_for_new_entity() {
    check_preassigns_guid_for_new_entity();
}

#[test]
fn persistence_session_prepare_commit_preassigns_guid_for_new_entity() {
    check_preassigns_guid_for_new_entity();
}

fn check_uses_existing_guid_component() {
    let entity: Entity = 4;
    let mut session = PersistenceSession::new();
    session.register_component_named(MY_COMP, "MyComp");
    let mut world = empty_world();
    world.guids.insert(entity, "my-custom-guid".to_string());
    add_component(&mut world, entity, MY_COMP, field("MyComp", object(vec![("value", uint(7))])));

    let data = prepare(&session, &world, &dirty_component(entity, MY_COMP));

    if let TransactionOperation::CreateDocument { data: doc, .. } = &data.operations[0] {
        assert_eq!(
            doc.get("_key").and_then(|v| v.as_str()),
            Some("my-custom-guid"),
            "document should use the pre-existing Guid component value"
        );
        assert_eq!(
            data.preassigned_keys.get(&entity).map(|s| s.as_str()),
            Some("my-custom-guid")
        );
    } else {
        panic!("expected CreateDocument operation");
    }
}

#[test]
fn tests_prepare_commit_uses_existing_guid_component_for_new_entity() {
    check_uses_existing_guid_component();
}

#[test]
fn persistence_session_prepare_commit_uses_existing_guid_component_for_new_entity() {
    check_uses_existing_guid_component();
}

fn check_edge_diff_adds_new_edges() {
    let mut session = PersistenceSession::new();
    session.register_relationship(TEST_REL, "TestRel");
    let mut world = empty_world();
    world.relationships.push((
        TEST_REL,
        RelationshipScan::Edges(Ok(vec![
            edge("TestRel", "guid_a", "guid_b"),
            edge("TestRel", "guid_c", "guid_d"),
        ])),
    ));
    let dummy: Entity = 1;
    session.insert_entity_key(dummy, "guid_a".to_string());

    let data = prepare(&session, &world, &dirty_relationship(dummy));

    let upsert_ops: Vec<_> = data
        .operations
        .iter()
        .filter(|op| matches!(op, TransactionOperation::UpsertEdges { .. }))
        .collect();
    assert_eq!(upsert_ops.len(), 1);
    if let TransactionOperation::UpsertEdges { edges, .. } = upsert_ops[0] {
        assert_eq!(edges.len(), 2);
    }
    assert_eq!(data.new_edge_snapshot.len(), 2);
    assert!(data
        .new_edge_snapshot
        .contains(&EdgeDocument::make_key("TestRel", "guid_a", "guid_b")));
    assert!(data
        .new_edge_snapshot
        .contains(&EdgeDocument::make_key("TestRel", "guid_c", "guid_d")));
}

#[test]
fn tests_prepare_commit_edge_diff_adds_new_edges() {
    check_edge_diff_adds_new_edges();
}

#[test]
fn persistence_session_prepare_commit_edge_diff_adds_new_edges() {
    check_edge_diff_adds_new_edges();
}

fn check_edge_diff_deletes_removed_edges() {
    let mut session = PersistenceSession::new();
    session.register_relationship(TEST_REL, "TestRel");
    let mut world = empty_world();
    world.relationships.push((TEST_REL, RelationshipScan::Edges(Ok(vec![]))));

    let old_key = EdgeDocument::make_key("TestRel", "guid_a", "guid_b");
    session.set_edge_snapshot(key_set(&[&old_key]));
    let dummy: Entity = 1;
    session.insert_entity_key(dummy, "guid_a".to_string());

    let data = prepare(&session, &world, &dirty_relationship(dummy));

    let delete_ops: Vec<_> = data
        .operations
        .iter()
        .filter(|op| matches!(op, TransactionOperation::DeleteEdges { .. }))
        .collect();
    assert_eq!(delete_ops.len(), 1);
    if let TransactionOperation::DeleteEdges { keys, .. } = delete_ops[0] {
        assert_eq!(keys.len(), 1);
        assert_eq!(keys[0], old_key);
    }
    assert!(data.new_edge_snapshot.is_empty());
}

#[test]
fn tests_prepare_commit_edge_diff_deletes_removed_edges() {
    check_edge_diff_deletes_removed_edges();
}

#[test]
fn persistence_session_prepare_commit_edge_diff_deletes_removed_edges() {
    check_edge_diff_deletes_removed_edges();
}

#[test]
fn tests_edge_document_make_key_is_deterministic() {
    let k1 = EdgeDocument::make_key("ChildOf", "aaa", "bbb");
    let k2 = EdgeDocument::make_key("ChildOf", "aaa", "bbb");
    assert_eq!(k1, k2);
    assert_eq!(k1, "ChildOf:aaa:bbb");
}

#[test]
fn persistence_session_edge_document_make_key_is_deterministic() {
    let k1 = EdgeDocument::make_key("ChildOf", "aaa", "bbb");
    let k2 = EdgeDocument::make_key("ChildOf", "aaa", "bbb");
    assert_eq!(k1, k2);
    assert_eq!(k1, "ChildOf:aaa:bbb");
}

fn check_no_edge_ops_when_relationships_not_dirty() {
    let mut session = PersistenceSession::new();
    session.register_relationship(TEST_REL, "TestRel");
    let mut world = empty_world();
    world
        .relationships
        .push((TEST_REL, RelationshipScan::Edges(Ok(vec![edge("TestRel", "a", "b")]))));

    let data = prepare(&session, &world, &nothing_dirty());

    assert!(data.operations.iter().all(|op| !matches!(
        op,
        TransactionOperation::UpsertEdges { .. } | TransactionOperation::DeleteEdges { .. }
    )));
}

#[test]
fn tests_no_edge_ops_when_relationships_not_dirty() {
    check_no_edge_ops_when_relationships_not_dirty();
}

#[test]
fn persistence_session_no_edge_ops_when_relationships_not_dirty() {
    check_no_edge_ops_when_relationships_not_dirty();
}

#[derive(Debug, Clone, PartialEq)]
struct MarkerComponent;

impl Component for MarkerComponent {
    const STORAGE_TYPE: StorageType = StorageType::Table;
    type Mutability = Mutable;
}

impl serde::Serialize for MarkerComponent {
    fn serialize<S: serde::Serializer>(&self, serializer: S) -> Result<S::Ok, S::Error> {
        serializer.serialize_unit_struct("MarkerComponent")
    }
}

impl<'de> serde::Deserialize<'de> for MarkerComponent {
    fn deserialize<D: serde::Deserializer<'de>>(deserializer: D) -> Result<Self, D::Error> {
        <()>::deserialize(deserializer).map(|()| MarkerComponent)
    }
}

fn check_unit_struct_serde_roundtrip() {
    let item = ItemShape::Struct { name: "MarkerComponent".to_string(), fields: Fields::Unit };
    let expansion = expand(PersistKind::Component, &item, false).unwrap();
    assert_eq!(expansion.serde, SerdeDerive::Always);
    assert!(expansion.single_field_serde.is_none());

    let serialized = serde_json::to_value(&MarkerComponent).unwrap();
    assert_eq!(serialized, serde_json::Value::Null, "unit struct should serialize to null");
    let deserialized: MarkerComponent = serde_json::from_value(serialized).unwrap();
    assert_eq!(deserialized, MarkerComponent);
}

#[test]
fn tests_unit_struct_persist_serde_roundtrip() {
    check_unit_struct_serde_roundtrip();
}

#[test]
fn persistence_session_unit_struct_persist_serde_roundtrip() {
    check_unit_struct_serde_roundtrip();
}

fn check_unit_struct_component_deserializer_works() {
    let mut world = World::new();
    let entity = world.spawn_empty().id();
    let mut session = PersistenceSession::new();
    session.register_component_named(MY_COMP, "MarkerComponent");

    if session.hydrate_entity_component("MarkerComponent") {
        world.entity_mut(entity).insert(deserialized::<MarkerComponent>(Value::Null));
    }
    assert!(
        world.get::<MarkerComponent>(entity).is_some(),
        "MarkerComp should be present after deserialization"
    );
}

#[test]
fn tests_unit_struct_component_deserializer_works() {
    check_unit_struct_component_deserializer_works();
}

#[test]
fn persistence_session_unit_struct_component_deserializer_works() {
    check_unit_struct_component_deserializer_works();
}

#[test]
fn single_field_persist_accepts_short_imported_field_type() {
    let item = ItemShape::Struct { name: "Wrapped".to_string(), fields: Fields::Unnamed(1) };
    let expansion = expand(PersistKind::Resource, &item, false).unwrap();
    let name = expansion.single_field_serde.expect("one field");
    assert_eq!(name, "0");

    let payload = object(vec![("n", uint(7))]);
    let json = write_single_field(&name, payload);
    assert_eq!(number(json.get("0").unwrap().get("n")), 7);

    let back = read_single_field(json, &name);
    assert_eq!(number(back.get("n")), 7);

    let legacy = read_single_field(object(vec![("n", uint(7))]), &name);
    assert_eq!(number(legacy.get("n")), 7);
}

#[test]
fn new_entity_document_has_components_key_and_metadata() {
    let entity: Entity = 9;
    let mut session = PersistenceSession::new();
    session.register_component_named(MY_COMP, "MyComp");
    let mut world = empty_world();
    add_component(&mut world, entity, MY_COMP, field("MyComp", object(vec![("value", uint(7))])));
    let data = prepare(&session, &world, &dirty_component(entity, MY_COMP));
    match &data.operations[0] {
        TransactionOperation::CreateDocument { store, kind, data: doc } => {
            assert_eq!(store, "store");
            assert_eq!(*kind, DocumentKind::Entity);
            assert_eq!(number(doc.get("MyComp").unwrap().get("value")), 7);
            let meta = doc.get(BEVY_PERSISTENCE_DATABASE_METADATA_FIELD).unwrap();
            assert_eq!(number(meta.get(BEVY_PERSISTENCE_DATABASE_VERSION_FIELD)), 1);
            assert_eq!(
                meta.get(BEVY_PERSISTENCE_DATABASE_BEVY_TYPE_FIELD).and_then(|v| v.as_str()),
                Some("entity")
            );
            assert_eq!(read_version(doc), Some(1));
            // A random UUID in its usual form.
            let key = doc.get("_key").and_then(|v| v.as_str()).unwrap();
            assert_eq!(key.len(), 36);
            assert_eq!(key.as_bytes()[8], b'-');
            assert_eq!(key.as_bytes()[14], b'4');
            assert!(b"89ab".contains(&key.as_bytes()[19]));
            assert!(!key.contains(':'));
        }
        other => panic!("expected create, got {other:?}"),
    }
    assert_eq!(data.new_entities, vec![entity]);
    assert!(data.committed_entity_components.get(&entity).unwrap().contains(&MY_COMP));
}

#[test]
fn two_new_entities_get_different_keys() {
    let mut session = PersistenceSession::new();
    session.register_component_named(MY_COMP, "MyComp");
    let mut dirty = DirtyState::default();
    dirty.mark_component(1, MY_COMP);
    dirty.mark_component(2, MY_COMP);
    let keys = session.preassign_keys(&empty_world(), &dirty);
    assert_eq!(keys.len(), 2);
    assert_ne!(keys.get(&1), keys.get(&2));
}

#[test]
fn known_entity_is_updated_to_the_next_version() {
    let entity: Entity = 9;
    let mut session = PersistenceSession::new();
    session.register_component_named(MY_COMP, "MyComp");
    session.insert_entity_key(entity, "k".to_string());
    session.version_manager_mut().set_version(VersionKey::Entity("k".to_string()), 6);
    let mut world = empty_world();
    add_component(&mut world, entity, MY_COMP, field("MyComp", uint(1)));
    let data = prepare(&session, &world, &dirty_component(entity, MY_COMP));
    match &data.operations[0] {
        TransactionOperation::UpdateDocument {
            key, expected_current_version, patch, kind, ..
        } => {
            assert_eq!(key, "k");
            assert_eq!(*kind, DocumentKind::Entity);
            assert_eq!(*expected_current_version, 6);
            assert_eq!(read_version(patch), Some(7));
            assert!(patch.get("_key").is_none());
        }
        other => panic!("expected update, got {other:?}"),
    }
    assert!(data.new_entities.is_empty());
    assert!(data.preassigned_keys.is_empty());
}

#[test]
fn commit_errors_are_reported() {
    let entity: Entity = 9;
    let mut session = PersistenceSession::new();
    session.register_component_named(MY_COMP, "MyComp");
    session.register_resource_named(MY_RES, "MyRes");
    let world = empty_world();
    assert_general(
        prepare_error(&session, &world, &nothing_dirty(), ""),
        "store must be provided for commit",
    );

    session.insert_entity_key(entity, "k".to_string());
    let mut despawned = DirtyState::default();
    despawned.despawned_entities.insert(entity);
    assert_general(
        prepare_error(&session, &world, &despawned, "store"),
        "Missing version for deletion",
    );

    let mut world = empty_world();
    add_component(&mut world, entity, MY_COMP, field("MyComp", uint(1)));
    assert_general(
        prepare_error(&session, &world, &dirty_component(entity, MY_COMP), "store"),
        "Missing version for update",
    );

    let mut world = empty_world();
    add_component(&mut world, 5, MY_COMP, Err(PersistenceError::new("broken component")));
    assert_general(
        prepare_error(&session, &world, &dirty_component(5, MY_COMP), "store"),
        "broken component",
    );

    let mut world = empty_world();
    world.resources.insert(MY_RES, Err(PersistenceError::Conflict { key: "x".to_string() }));
    let mut dirty = DirtyState::default();
    dirty.dirty_resources.insert(MY_RES);
    match prepare_error(&session, &world, &dirty, "store") {
        PersistenceError::Conflict { key } => assert_eq!(key, "x"),
        other => panic!("expected conflict, got {other:?}"),
    }

    session.register_relationship(TEST_REL, "TestRel");
    let mut world = empty_world();
    world.relationships.push((
        TEST_REL,
        RelationshipScan::Edges(Err(PersistenceError::new("broken edges"))),
    ));
    assert_general(
        prepare_error(&session, &world, &dirty_relationship(1), "store"),
        "broken edges",
    );
}

#[test]
fn unregistered_or_absent_components_write_nothing() {
    let session = PersistenceSession::new();
    let mut world = empty_world();
    add_component(&mut world, 1, MY_COMP, field("MyComp", uint(1)));
    let data = prepare(&session, &world, &dirty_component(1, MY_COMP));
    assert!(data.operations.is_empty());
    // The entity still gets a key for this commit.
    assert!(data.preassigned_keys.contains_key(&1));

    let mut session = PersistenceSession::new();
    session.register_component_named(MY_COMP, "MyComp");
    let mut world = empty_world();
    add_component(&mut world, 1, MY_COMP, serialized_field("MyComp", None));
    let data = prepare(&session, &world, &dirty_component(1, MY_COMP));
    assert!(data.operations.is_empty());
    assert!(data.new_entities.is_empty());
    assert!(data.committed_entity_components.is_empty());
}

#[test]
fn resources_are_created_updated_and_skipped_when_removed() {
    let mut session = PersistenceSession::new();
    session.register_resource_named(MY_RES, "MyRes");
    let mut world = empty_world();
    world.resources.insert(MY_RES, field("MyRes", object(vec![("a", uint(1))])));
    let mut dirty = DirtyState::default();
    dirty.dirty_resources.insert(MY_RES);

    let data = prepare(&session, &world, &dirty);
    match &data.operations[0] {
        TransactionOperation::CreateDocument { kind, data: doc, .. } => {
            assert_eq!(*kind, DocumentKind::Resource);
            assert_eq!(doc.get("_key").and_then(|v| v.as_str()), Some("MyRes"));
            assert_eq!(read_version(doc), Some(1));
        }
        other => panic!("expected create, got {other:?}"),
    }
    assert!(data.committed_dirty_resources.contains(&MY_RES));

    session.version_manager_mut().set_version(VersionKey::Resource(MY_RES), 1);
    let data = prepare(&session, &world, &dirty);
    match &data.operations[0] {
        TransactionOperation::UpdateDocument { key, expected_current_version, patch, .. } => {
            assert_eq!(key, "MyRes");
            assert_eq!(*expected_current_version, 1);
            assert_eq!(read_version(patch), Some(2));
        }
        other => panic!("expected update, got {other:?}"),
    }

    dirty.despawned_resources.insert(MY_RES);
    let data = prepare(&session, &world, &dirty);
    assert_eq!(data.operations.len(), 1);
    assert!(matches!(&data.operations[0], TransactionOperation::DeleteDocument { .. }));
    assert!(data.committed_dirty_resources.is_empty());
    assert!(data.committed_despawned_resources.contains(&MY_RES));
}

#[test]
fn scalar_resource_document_carries_no_metadata() {
    let mut session = PersistenceSession::new();
    session.register_resource_named(MY_RES, "MyRes");
    let mut world = empty_world();
    world.resources.insert(MY_RES, field("MyRes", uint(5)));
    let mut dirty = DirtyState::default();
    dirty.dirty_resources.insert(MY_RES);
    let data = prepare(&session, &world, &dirty);
    match &data.operations[0] {
        TransactionOperation::CreateDocument { data: doc, .. } => assert_eq!(doc.as_u64(), Some(5)),
        other => panic!("expected create, got {other:?}"),
    }
}

#[test]
fn links_become_edges_only_between_known_entities() {
    let mut session = PersistenceSession::new();
    session.insert_entity_key(1, "a".to_string());
    session.insert_entity_key(2, "b".to_string());
    let mut keys = HashMap::new();
    keys.insert(3, "c".to_string());
    let scan: HashSet<Entity> = [1, 3].into_iter().collect();
    let links = vec![
        Link { from: 1, to: 2, payload: None },
        Link { from: 1, to: 3, payload: Some(uint(8)) },
        Link { from: 3, to: 1, payload: None },
        Link { from: 2, to: 1, payload: None },
        Link { from: 1, to: 99, payload: None },
    ];
    let edges = session.relationship_edges("Likes", &keys, &scan, &links);
    let found: Vec<&str> = edges.iter().map(|e| e.key.as_str()).collect();
    assert_eq!(found, vec!["Likes:a:b", "Likes:a:c", "Likes:c:a"]);
    assert_eq!(edges[1].payload.as_ref().and_then(|v| v.as_u64()), Some(8));
    assert_eq!(edges[1].from_guid, "a");
    assert_eq!(edges[1].to_guid, "c");
    assert_eq!(edges[1].relationship_type, "Likes");
}

#[test]
fn edge_diff_keeps_untouched_sources_and_settles() {
    let mut session = PersistenceSession::new();
    session.register_relationship(TEST_REL, "TestRel");
    session.insert_entity_key(1, "a".to_string());
    session.insert_entity_key(2, "b".to_string());
    session.set_edge_snapshot(key_set(&["TestRel:a:b", "TestRel:z:b", "odd"]));
    let mut world = empty_world();
    world.relationships.push((
        TEST_REL,
        RelationshipScan::Links(vec![Link { from: 1, to: 1, payload: None }]),
    ));

    let data = prepare(&session, &world, &dirty_relationship(1));
    assert_eq!(data.operations.len(), 2);
    match &data.operations[0] {
        TransactionOperation::UpsertEdges { edges, .. } => {
            assert_eq!(edges.len(), 1);
            assert_eq!(edges[0].key, "TestRel:a:a");
        }
        other => panic!("expected upserts, got {other:?}"),
    }
    match &data.operations[1] {
        TransactionOperation::DeleteEdges { keys, .. } => {
            assert_eq!(keys, &vec!["TestRel:a:b".to_string(), "odd".to_string()]);
        }
        other => panic!("expected deletes, got {other:?}"),
    }
    assert_eq!(data.new_edge_snapshot.len(), 2);
    assert!(data.new_edge_snapshot.contains("TestRel:z:b"));
    assert!(data.new_edge_snapshot.contains("TestRel:a:a"));

    session.set_edge_snapshot(data.new_edge_snapshot);
    let data = prepare(&session, &world, &dirty_relationship(1));
    assert!(data.operations.is_empty());
}

#[test]
fn later_edge_with_the_same_key_wins() {
    let mut session = PersistenceSession::new();
    session.register_relationship(TEST_REL, "TestRel");
    let mut second = edge("TestRel", "a", "b");
    second.payload = Some(uint(2));
    let mut world = empty_world();
    world.relationships.push((
        TEST_REL,
        RelationshipScan::Edges(Ok(vec![edge("TestRel", "a", "b"), second])),
    ));
    let data = prepare(&session, &world, &dirty_relationship(1));
    match &data.operations[0] {
        TransactionOperation::UpsertEdges { edges, .. } => {
            assert_eq!(edges.len(), 1);
            assert_eq!(edges[0].payload.as_ref().and_then(|v| v.as_u64()), Some(2));
        }
        other => panic!("expected upserts, got {other:?}"),
    }
}

#[test]
fn missing_relationship_payload_is_an_error() {
    assert_eq!(required_payload(Some(uint(4))).unwrap().as_u64(), Some(4));
    assert_general(required_payload(None).unwrap_err(), "Missing relationship payload");
}

#[test]
fn taking_and_restoring_keeps_every_change() {
    let mut session = PersistenceSession::new();
    session.mark_entity_component_dirty(1, 10);
    session.mark_entity_component_dirty(1, 11);
    session.mark_resource_dirty(20);
    session.mark_resource_despawned(21);
    session.mark_despawned(2);
    session.mark_relationship_entity_dirty(3);
    let taken = session.take_dirty_state();
    assert!(session.is_dirty_entity_components_empty());
    assert!(session.is_despawned_entities_empty());
    assert!(!session.is_resource_dirty(20));

    session.mark_entity_component_dirty(1, 12);
    session.mark_entity_component_dirty(5, 10);
    session.restore_dirty_state(taken);
    let (components, despawned, resources, despawned_resources, relationships) =
        session.take_dirty_state().into_parts();
    let of_one: HashSet<TypeId> = [10, 11, 12].into_iter().collect();
    assert_eq!(components.get(&1), Some(&of_one));
    assert_eq!(components.len(), 2);
    assert!(despawned.contains(&2));
    assert!(resources.contains(&20));
    assert!(despawned_resources.contains(&21));
    assert!(relationships.contains(&3));
}

#[test]
fn replaced_key_no_longer_leads_to_the_entity() {
    let mut session = PersistenceSession::new();
    session.insert_entity_key(1, "a".to_string());
    assert_eq!(session.entity_by_key("a"), Some(1));
    session.insert_entity_key(1, "b".to_string());
    assert_eq!(session.entity_by_key("a"), None);
    assert_eq!(session.entity_by_key("b"), Some(1));
    assert_eq!(session.entity_key(1).map(|s| s.as_str()), Some("b"));
}

#[test]
fn loading_resolves_entities_by_cache_guid_or_spawn() {
    let mut session = PersistenceSession::new();
    session.insert_entity_key(1, "a".to_string());
    let none: Vec<(Entity, String)> = Vec::new();
    assert_eq!(session.resolve_entity_for_key("a", true, &none), Some(1));
    // The cached entity is gone: the first carrier takes its place.
    let carriers = vec![(5, "x".to_string()), (6, "a".to_string()), (7, "a".to_string())];
    assert_eq!(session.resolve_entity_for_key("a", false, &carriers), Some(6));
    assert_eq!(session.entity_by_key("a"), Some(6));
    assert_eq!(session.resolve_entity_for_key("new", false, &carriers), None);
    session.adopt_spawned_entity(8, "new");
    assert_eq!(session.resolve_entity_for_key("new", true, &none), Some(8));
}

#[test]
fn loading_a_document_caches_its_version_and_picks_fields() {
    let mut session = PersistenceSession::new();
    session.register_component_named(MY_COMP, "MyComp");
    session.register_component_named(4, "Other");
    let doc = object(vec![
        ("_key", Value::String("k".to_string())),
        ("MyComp", uint(1)),
        ("Unknown", uint(2)),
        (
            BEVY_PERSISTENCE_DATABASE_METADATA_FIELD,
            object(vec![(BEVY_PERSISTENCE_DATABASE_VERSION_FIELD, uint(12))]),
        ),
    ]);
    assert_eq!(document_key(&doc, "_key"), Some("k".to_string()));
    assert_eq!(document_key(&doc, "MyComp"), None);

    let untouched = session.materialize_entity_document("k", true, &doc, &[], false);
    assert!(untouched.is_empty());
    assert!(!session.is_hydrating());

    let fields = session.materialize_entity_document("k", true, &doc, &[], true);
    assert_eq!(fields.len(), 1);
    assert_eq!(fields[0].0, "MyComp");
    assert!(session.is_hydrating());
    let key = VersionKey::Entity("k".to_string());
    assert_eq!(session.version_manager().get_version(&key), Some(12));

    let named = session.materialize_entity_document(
        "k",
        false,
        &doc,
        &["Other", "MyComp", "Unknown"],
        false,
    );
    let names: Vec<&str> = named.iter().map(|f| f.0.as_str()).collect();
    assert_eq!(names, vec!["MyComp"]);

    let bare = object(vec![("MyComp", uint(1))]);
    session.materialize_entity_document("k", false, &bare, &[], false);
    assert_eq!(session.version_manager().get_version(&key), Some(1));
}

#[test]
fn fetched_documents_without_content_change_nothing() {
    let mut session = PersistenceSession::new();
    session.register_component_named(MY_COMP, "MyComp");
    assert!(session.insert_fetched_document("k", None, &[]).is_empty());
    assert!(!session.is_hydrating());
    let doc = object(vec![("MyComp", uint(1))]);
    let fields = session.insert_fetched_document("k", Some((doc, 4)), &[]);
    assert_eq!(fields.len(), 1);
    let key = VersionKey::Entity("k".to_string());
    assert_eq!(session.version_manager().get_version(&key), Some(4));
}

#[test]
fn document_gets_its_key_only_where_it_has_none() {
    let doc = document_with_key(object(vec![("a", uint(1))]), "_key", "k");
    assert_eq!(document_key(&doc, "_key"), Some("k".to_string()));
    let doc = document_with_key(doc, "_key", "other");
    assert_eq!(document_key(&doc, "_key"), Some("k".to_string()));
    let scalar = document_with_key(uint(3), "_key", "k");
    assert_eq!(scalar.as_u64(), Some(3));
}

#[test]
fn resource_loads_cache_versions() {
    let mut session = PersistenceSession::new();
    session.register_resource_named(MY_RES, "MyRes");
    assert!(matches!(session.materialize_resource("MyRes", None), ResourceLoad::Absent));
    assert!(!session.is_hydrating());
    match session.materialize_resource("MyRes", Some((uint(1), 9))) {
        ResourceLoad::Apply(value) => assert_eq!(value.as_u64(), Some(1)),
        _ => panic!("expected a value"),
    }
    assert_eq!(session.resource_version(MY_RES), Some(9));
    assert!(session.is_hydrating());
    assert!(matches!(
        session.materialize_resource("Unknown", Some((uint(1), 9))),
        ResourceLoad::Unreadable
    ));
    assert_eq!(session.begin_resource_load(), vec!["MyRes".to_string()]);
}

#[test]
fn registries_know_names_and_types() {
    let mut session = PersistenceSession::new();
    session.register_resource_named(MY_RES, "MyRes");
    session.register_resource_named(8, "Second");
    session.register_relationship(TEST_REL, "TestRel");
    assert_eq!(session.resource_type_id("MyRes"), Some(MY_RES));
    assert_eq!(session.resource_type_id("None"), None);
    assert_eq!(session.resource_name_for_type(8).map(|s| s.as_str()), Some("Second"));
    assert_eq!(session.persisted_resource_count(), 2);
    let types: HashSet<TypeId> = session.persisted_resource_types().into_iter().collect();
    assert_eq!(types, [MY_RES, 8].into_iter().collect());
    assert_eq!(session.removable_resource_types().len(), 2);
    assert_eq!(session.relationship_type_name(TEST_REL).map(|s| s.as_str()), Some("TestRel"));
    assert_eq!(session.relationship_type_entries(), vec![(TEST_REL, "TestRel".to_string())]);
    assert!(!session.apply_relationship_targets(TEST_REL));
    session.register_relationship_loader(TEST_REL);
    assert!(session.apply_relationship_targets(TEST_REL));
}

#[test]
fn versions_at_the_limit_are_noticed() {
    let mut session = PersistenceSession::new();
    session.register_component_named(MY_COMP, "MyComp");
    session.register_resource_named(MY_RES, "MyRes");
    session.insert_entity_key(1, "k".to_string());
    let key = || VersionKey::Entity("k".to_string());
    session.version_manager_mut().set_version(key(), u64::MAX);
    session.version_manager_mut().set_version(VersionKey::Resource(MY_RES), u64::MAX);
    let mut dirty = dirty_component(1, MY_COMP);
    dirty.dirty_resources.insert(MY_RES);
    let order = dirty.walk();

    // Nothing is written, so nothing is counted up.
    let mut world = empty_world();
    assert!(session.versions_can_advance(&world, &order, &dirty));
    assert!(prepare(&session, &world, &dirty).operations.is_empty());

    add_component(&mut world, 1, MY_COMP, field("MyComp", uint(7)));
    assert!(!session.versions_can_advance(&world, &order, &dirty));
    session.version_manager_mut().set_version(key(), u64::MAX - 1);
    assert!(session.versions_can_advance(&world, &order, &dirty));

    world.resources.insert(MY_RES, field("MyRes", uint(7)));
    assert!(!session.versions_can_advance(&world, &order, &dirty));
    session.version_manager_mut().set_version(VersionKey::Resource(MY_RES), 4);
    assert!(session.versions_can_advance(&world, &order, &dirty));
}

#[test]
fn versions_are_set_and_removed_one_by_one() {
    let mut session = PersistenceSession::new();
    let entity = VersionKey::Entity("k".to_string());
    let resource = VersionKey::Resource(MY_RES);
    let versions = session.version_manager_mut();
    versions.set_version(VersionKey::Entity("k".to_string()), 3);
    versions.set_version(VersionKey::Resource(MY_RES), 5);
    versions.remove_version(&entity);
    assert_eq!(versions.get_version(&entity), None);
    assert_eq!(versions.get_version(&resource), Some(5));
    versions.remove_version(&resource);
    assert_eq!(versions.get_version(&resource), None);
}
