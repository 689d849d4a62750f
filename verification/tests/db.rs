//! Documents, edges and what database backends share.
use bevy_persistence_database::db::connection::{
    insert_meta, DocumentKind, EdgeDocument, PersistenceError, TransactionOperation,
};
use bevy_persistence_database::db::read_version;
use bevy_persistence_database::db::shared::{
    build_arango_edge_bfs_aql, check_operation_success, edge_source_guid, escape_sql_literal,
    extract_keys, EnsuredStores, GroupedOperations, OperationType,
};
use bevy_persistence_database::value::{Number, Object, Value};

fn text(s: &str) -> Value {
    Value::String(s.to_string())
}

fn uint(n: u64) -> Value {
    Value::Number(Number::PosInt(n))
}

fn strings(items: &[&str]) -> Vec<String> {
    items.iter().map(|s| s.to_string()).collect()
}

fn edge(key: &str) -> EdgeDocument {
    EdgeDocument {
        key: key.to_string(),
        relationship_type: "R".to_string(),
        from_guid: "a".to_string(),
        to_guid: "b".to_string(),
        payload: None,
    }
}

#[test]
fn ensured_stores_remember_names() {
    let mut stores = EnsuredStores::default();
    assert!(!stores.is_ensured("a"));
    stores.mark_ensured("a".to_string());
    assert!(stores.is_ensured("a"));
    assert!(!stores.is_ensured("b"));
}

#[test]
fn quotes_are_doubled() {
    assert_eq!(escape_sql_literal("plain"), "plain");
    assert_eq!(escape_sql_literal("it's"), "it''s");
    assert_eq!(escape_sql_literal("''"), "''''");
    assert_eq!(escape_sql_literal("'ä'"), "''ä''");
    assert_eq!(escape_sql_literal(""), "");
}

#[test]
fn bfs_query_unrolls_levels() {
    assert_eq!(build_arango_edge_bfs_aql(0), "");
    let level = |i: usize, frontier: &str| {
        format!(
            "LET l{i} = (FOR e IN @@col\n  FILTER LENGTH(@types) == 0 OR e.relationship_type IN @types\n  FILTER e.from_guid IN {frontier}\n  FILTER LENGTH(@to_guids) == 0 OR e.to_guid IN @to_guids\n  RETURN {{ key: e._key, relationship_type: e.relationship_type, from_guid: e.from_guid, to_guid: e.to_guid, payload: e.payload }})"
        )
    };
    assert_eq!(
        build_arango_edge_bfs_aql(1),
        format!("{}\nFOR edge IN FLATTEN([l0]) RETURN edge", level(0, "@from_guids"))
    );
    assert_eq!(
        build_arango_edge_bfs_aql(3),
        format!(
            "{}\n{}\n{}\nFOR edge IN FLATTEN([l0, l1, l2]) RETURN edge",
            level(0, "@from_guids"),
            level(1, "UNIQUE(l0[*].to_guid)"),
            level(2, "UNIQUE(l1[*].to_guid)")
        )
    );
    let twelve = build_arango_edge_bfs_aql(12);
    assert!(twelve.contains("LET l11 = "));
    assert!(twelve.ends_with("l9, l10, l11]) RETURN edge"));
}

#[test]
fn edge_source_is_the_middle_part() {
    assert_eq!(edge_source_guid("R:from:to"), Some("from"));
    assert_eq!(edge_source_guid("R:from:to:more"), Some("from"));
    assert_eq!(edge_source_guid("R:from"), Some("from"));
    assert_eq!(edge_source_guid("R::to"), Some(""));
    assert_eq!(edge_source_guid(":"), Some(""));
    assert_eq!(edge_source_guid("plain"), None);
    assert_eq!(edge_source_guid(""), None);
    assert_eq!(edge_source_guid("Ü:ö:ä"), Some("ö"));
    let key = EdgeDocument::make_key("Likes", "a-1", "b-2");
    assert_eq!(edge_source_guid(&key), Some("a-1"));
}

#[test]
fn operations_are_grouped_by_kind_in_order() {
    let store = || "s".to_string();
    let ops = vec![
        TransactionOperation::CreateDocument {
            store: store(),
            kind: DocumentKind::Entity,
            data: text("e1"),
        },
        TransactionOperation::UpdateDocument {
            store: store(),
            kind: DocumentKind::Resource,
            key: "r1".to_string(),
            expected_current_version: 4,
            patch: text("p"),
        },
        TransactionOperation::UpsertEdges { store: store(), edges: vec![edge("x"), edge("y")] },
        TransactionOperation::CreateDocument {
            store: store(),
            kind: DocumentKind::Resource,
            data: text("r2"),
        },
        TransactionOperation::DeleteDocument {
            store: store(),
            kind: DocumentKind::Entity,
            key: "e2".to_string(),
            expected_current_version: 5,
        },
        TransactionOperation::UpdateDocument {
            store: store(),
            kind: DocumentKind::Entity,
            key: "e3".to_string(),
            expected_current_version: 6,
            patch: text("q"),
        },
        TransactionOperation::DeleteDocument {
            store: store(),
            kind: DocumentKind::Resource,
            key: "r3".to_string(),
            expected_current_version: 7,
        },
        TransactionOperation::CreateDocument {
            store: store(),
            kind: DocumentKind::Entity,
            data: text("e4"),
        },
        TransactionOperation::DeleteEdges { store: store(), keys: strings(&["k1"]) },
        TransactionOperation::UpsertEdges { store: store(), edges: vec![edge("z")] },
        TransactionOperation::DeleteEdges { store: store(), keys: strings(&["k2", "k3"]) },
    ];
    let grouped = GroupedOperations::from_operations(ops, "_key");
    let creates: Vec<_> = grouped.entities.creates.iter().filter_map(|v| v.as_str()).collect();
    assert_eq!(creates, vec!["e1", "e4"]);
    assert_eq!(grouped.resources.creates.len(), 1);
    assert_eq!(extract_keys(&grouped.entities.updates, "_key"), strings(&["e3"]));
    assert_eq!(extract_keys(&grouped.entities.deletes, "_key"), strings(&["e2"]));
    assert_eq!(extract_keys(&grouped.resources.updates, "_key"), strings(&["r1"]));
    assert_eq!(extract_keys(&grouped.resources.deletes, "_key"), strings(&["r3"]));
    let update = &grouped.resources.updates[0];
    assert_eq!(update.get("expected").and_then(|v| v.as_u64()), Some(4));
    assert_eq!(update.get("patch").and_then(|v| v.as_str()), Some("p"));
    let delete = &grouped.entities.deletes[0];
    assert_eq!(delete.get("expected").and_then(|v| v.as_u64()), Some(5));
    assert!(delete.get("patch").is_none());
    let upserts: Vec<_> = grouped.edges.upserts.iter().map(|e| e.key.as_str()).collect();
    assert_eq!(upserts, vec!["x", "y", "z"]);
    assert_eq!(grouped.edges.deletes, strings(&["k1", "k2", "k3"]));
}

#[test]
fn key_field_named_like_another_field_is_overwritten() {
    let ops = vec![TransactionOperation::DeleteDocument {
        store: "s".to_string(),
        kind: DocumentKind::Entity,
        key: "k".to_string(),
        expected_current_version: 5,
    }];
    let grouped = GroupedOperations::from_operations(ops, "expected");
    assert_eq!(grouped.entities.deletes[0].get("expected").and_then(|v| v.as_u64()), Some(5));
}

#[test]
fn keys_are_extracted_where_they_are_strings() {
    let mut with_key = Object::new();
    with_key.insert("_key".to_string(), text("a"));
    let mut with_number = Object::new();
    with_number.insert("_key".to_string(), uint(1));
    let values = vec![
        Value::Object(with_key),
        Value::Object(with_number),
        Value::Object(Object::new()),
        text("no object"),
    ];
    assert_eq!(extract_keys(&values, "_key"), strings(&["a"]));
}

#[test]
fn batch_outcome_is_checked() {
    let check = |requested: &[&str], processed: &[&str], op: OperationType| {
        check_operation_success(strings(requested), strings(processed), &op, "col")
    };
    assert!(check(&[], &[], OperationType::Update).is_ok());
    assert!(check(&["a", "b"], &["b", "a"], OperationType::Update).is_ok());
    // As many processed as requested, but not the requested one.
    match check(&["a"], &["b"], OperationType::Update) {
        Err(PersistenceError::Conflict { key }) => assert_eq!(key, "a"),
        other => panic!("expected conflict, got {other:?}"),
    }
    match check(&["a", "b", "c"], &["a"], OperationType::Update) {
        Err(PersistenceError::Conflict { key }) => assert_eq!(key, "b"),
        other => panic!("expected conflict, got {other:?}"),
    }
    match check(&["a", "a"], &["a"], OperationType::Delete) {
        Err(PersistenceError::General(m)) => assert_eq!(m, "Delete conflict (col)"),
        other => panic!("expected general error, got {other:?}"),
    }
    match check(&[], &["a"], OperationType::Update) {
        Err(PersistenceError::General(m)) => assert_eq!(m, "Update conflict (col)"),
        other => panic!("expected general error, got {other:?}"),
    }
}

#[test]
fn metadata_is_written_and_read_back() {
    let mut doc = Object::new();
    insert_meta(&mut doc, DocumentKind::Resource, 17);
    assert_eq!(read_version(&Value::Object(doc.clone())), Some(17));
    insert_meta(&mut doc, DocumentKind::Resource, 18);
    assert_eq!(read_version(&Value::Object(doc)), Some(18));
    assert_eq!(read_version(&Value::Object(Object::new())), None);
    assert_eq!(read_version(&Value::Null), None);
    assert_eq!(DocumentKind::Entity.as_str(), "entity");
    assert_eq!(DocumentKind::Resource.as_str(), "resource");
}

#[test]
fn objects_hold_one_value_per_name() {
    let mut o = Object::new();
    assert!(o.is_empty());
    o.insert("a".to_string(), uint(1));
    o.insert("b".to_string(), uint(2));
    o.insert("a".to_string(), uint(3));
    assert!(!o.is_empty());
    assert_eq!(o.get("a").and_then(|v| v.as_u64()), Some(3));
    assert_eq!(o.get("b").and_then(|v| v.as_u64()), Some(2));
    assert!(o.get("c").is_none());
    assert_eq!(o.entries.len(), 2);
    let nested = Value::Array(vec![Value::Object(o), Value::Bool(true)]);
    match nested.clone() {
        Value::Array(items) => {
            assert_eq!(items[0].get("a").and_then(|v| v.as_u64()), Some(3));
            assert!(matches!(items[1], Value::Bool(true)));
        }
        other => panic!("expected an array, got {other:?}"),
    }
}

#[test]
fn literals_are_escaped_piece_by_piece() {
    let (a, b) = ("it's", "'quoted''");
    let whole = escape_sql_literal(&format!("{a}{b}"));
    assert_eq!(whole, format!("{}{}", escape_sql_literal(a), escape_sql_literal(b)));
    assert_eq!(whole, "it''s''quoted''''");
    assert_eq!(whole.len(), a.len() + b.len() + 4);
    assert!(whole.split(|c| c != '\'').all(|run| run.len() % 2 == 0));
}

#[test]
fn operations_are_grouped_list_by_list() {
    let create = |key: &str| {
        let mut doc = Object::new();
        doc.insert("_key".to_string(), text(key));
        TransactionOperation::CreateDocument {
            store: "s".to_string(),
            kind: DocumentKind::Entity,
            data: Value::Object(doc),
        }
    };
    let delete_edges = |key: &str| TransactionOperation::DeleteEdges {
        store: "s".to_string(),
        keys: strings(&[key]),
    };
    let group = |ops: Vec<TransactionOperation>| {
        let grouped = GroupedOperations::from_operations(ops, "_key");
        (extract_keys(&grouped.entities.creates, "_key"), grouped.edges.deletes)
    };
    let (mut creates, mut deletes) = group(vec![create("a"), delete_edges("x")]);
    let (more_creates, more_deletes) = group(vec![delete_edges("y"), create("b"), create("c")]);
    creates.extend(more_creates);
    deletes.extend(more_deletes);
    let whole = group(vec![
        create("a"),
        delete_edges("x"),
        delete_edges("y"),
        create("b"),
        create("c"),
    ]);
    assert_eq!(whole, (creates, deletes));
    assert_eq!(whole.0, strings(&["a", "b", "c"]));
}
