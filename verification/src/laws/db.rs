//! Documents, edge keys, query text and batches of operations.
use vstd::prelude::*;
use vstd::string::*;

use crate::collections;
use crate::db::connection;
use crate::db::connection::{
    insert_meta, read_version, DocumentKind, EdgeDocument, EdgeModel, OperationModel,
    PersistenceError, TransactionOperation,
};
use crate::db::shared;
use crate::db::shared::{
    build_arango_edge_bfs_aql, check_operation_success, edge_source_guid, escape_sql_literal,
    extract_keys, DocumentOperations, EnsuredStores, GroupedOperations, OperationType,
};
use crate::laws::edges;
use crate::laws::load;
use crate::value::{Json, Number, Object, Value};

verus! {

/// The key of an edge is its type, source and target, with colons between them.
pub proof fn law_edge_key_names_its_ends(
    relationship_type: &str,
    from: &str,
    to: &str,
    key: String,
)
    requires
        call_ensures(EdgeDocument::make_key, (relationship_type, from, to), key),
    ensures
        key@ == relationship_type@ + ":"@ + from@ + ":"@ + to@,
{
}

/// Metadata are written in one field and leave all others alone.
pub proof fn law_metadata_is_written(data: &mut Object, kind: DocumentKind, version: u64)
    requires
        call_ensures(insert_meta, (data, kind, version), ()),
    ensures
        final(data)@ == old(data)@.insert(
            "bevy_persistence_database_metadata"@,
            Json::Object(
                Map::<Seq<char>, Json>::empty().insert(
                    "version"@,
                    Json::Number(Number::PosInt(version)),
                ).insert(
                    "bevy_type"@,
                    Json::String(
                        match kind {
                            DocumentKind::Entity => "entity"@,
                            DocumentKind::Resource => "resource"@,
                        },
                    ),
                ),
            ),
        ),
{
}

/// The version read is the one in the metadata, and none where they give none.
pub proof fn law_version_is_read(doc: &Value, r: Option<u64>)
    requires
        call_ensures(read_version, (doc,), r),
    ensures
        forall|version: u64| #[trigger] load::stored_version(doc@, version) <==> r == Some(version),
{
    load::lemma_stored_version(doc@);
}

/// Escaping leaves a text without quotes as it is, doubles a quote, and goes piece
/// by piece.
pub proof fn law_escaping_doubles_quotes(
    a: &str,
    escaped_a: String,
    b: &str,
    escaped_b: String,
    whole: &str,
    escaped_whole: String,
)
    requires
        call_ensures(escape_sql_literal, (a,), escaped_a),
        call_ensures(escape_sql_literal, (b,), escaped_b),
        call_ensures(escape_sql_literal, (whole,), escaped_whole),
        whole@ == a@ + b@,
    ensures
        escaped_whole@ == escaped_a@ + escaped_b@,
        !a@.contains('\'') ==> escaped_a@ == a@,
        a@ == seq!['\''] ==> escaped_a@ == seq!['\'', '\''],
{
    shared::law_escaped_concatenation(a@, b@);
    if !a@.contains('\'') {
        lemma_escaped_plain(a@);
    }
    if a@ == seq!['\''] {
        assert(a@.drop_last() =~= Seq::empty());
        reveal_with_fuel(shared::escaped, 2);
        assert(escaped_a@ =~= seq!['\'', '\'']);
    }
}

proof fn lemma_escaped_plain(value: Seq<char>)
    requires
        !value.contains('\''),
    ensures
        shared::escaped(value) == value,
    decreases value.len(),
{
    if value.len() > 0 {
        let head = value.drop_last();
        assert(value[value.len() - 1] != '\'');
        assert(!head.contains('\'')) by {
            if head.contains('\'') {
                let i = choose|i: int| 0 <= i < head.len() && head[i] == '\'';
                assert(value[i] == '\'');
            }
        }
        lemma_escaped_plain(head);
        assert(head.push(value.last()) =~= value);
    }
}

/// The source in an edge key is its second part, and there is one exactly where
/// the key has a colon.
pub proof fn law_source_is_the_second_part(key: &str, r: Option<&str>)
    requires
        call_ensures(edge_source_guid, (key,), r),
    ensures
        r matches Some(guid) ==> edges::starts_at(key@, guid@),
        r is Some <==> key@.contains(':'),
        forall|guid: Seq<char>| #[trigger] edges::starts_at(key@, guid) ==> r is Some && r->0@ == guid,
{
    match r {
        Some(guid) => {
            edges::lemma_starts_at(key@, guid@);
        },
        None => {},
    }
    assert forall|guid: Seq<char>| #[trigger] edges::starts_at(key@, guid) implies r is Some
        && r->0@ == guid by {
        edges::lemma_starts_at(key@, guid);
    }
    shared::lemma_cut(key@, ':');
    if key@.contains(':') {
        let i = choose|i: int| 0 <= i < key@.len() && key@[i] == ':';
        assert(shared::cut(key@, ':') <= i);
    }
}

/// Level `i` of the traversal: it starts from the given GUIDs, or from the targets
/// of the level just before.
pub open spec fn level(i: nat) -> Seq<char> {
    "LET l"@ + crate::text::decimal(i)
        + " = (FOR e IN @@col\n  FILTER LENGTH(@types) == 0 OR e.relationship_type IN @types\n  FILTER e.from_guid IN "@
        + (if i == 0 {
        "@from_guids"@
    } else {
        "UNIQUE(l"@ + crate::text::decimal((i - 1) as nat) + "[*].to_guid)"@
    })
        + "\n  FILTER LENGTH(@to_guids) == 0 OR e.to_guid IN @to_guids\n  RETURN { key: e._key, relationship_type: e.relationship_type, from_guid: e.from_guid, to_guid: e.to_guid, payload: e.payload })"@
}

/// Levels from `i` to before `n`, a line break after each.
pub open spec fn levels_from(i: nat, n: nat) -> Seq<char>
    decreases n - i,
{
    if i >= n {
        Seq::empty()
    } else {
        level(i) + "\n"@ + levels_from(i + 1, n)
    }
}

/// The names of the levels from `i` to before `n`, a comma before each but the
/// very first.
pub open spec fn names_from(i: nat, n: nat) -> Seq<char>
    decreases n - i,
{
    if i >= n {
        Seq::empty()
    } else {
        (if i == 0 {
            "l"@
        } else {
            ", l"@
        }) + crate::text::decimal(i) + names_from(i + 1, n)
    }
}

proof fn lemma_levels(i: nat, n: nat)
    requires
        i <= n,
    ensures
        shared::bfs_levels(n) == shared::bfs_levels(i) + levels_from(i, n),
        shared::bfs_level_names(n) == shared::bfs_level_names(i) + names_from(i, n),
    decreases n - i,
{
    if i < n {
        lemma_levels(i + 1, n);
        assert(shared::bfs_level(i) == level(i));
        assert(shared::bfs_levels(i + 1) == shared::bfs_levels(i) + level(i) + "\n"@);
        assert(shared::bfs_levels(n) =~= shared::bfs_levels(i) + (level(i) + "\n"@ + levels_from(
            i + 1,
            n,
        )));
        if i == 0 {
            assert(shared::bfs_level_names(1) == "l"@ + crate::text::decimal(0));
            assert(shared::bfs_level_names(n) =~= Seq::empty() + ("l"@ + crate::text::decimal(0)
                + names_from(1, n)));
        } else {
            assert(shared::bfs_level_names(i + 1) == shared::bfs_level_names(i) + ", l"@
                + crate::text::decimal(i));
            assert(shared::bfs_level_names(n) =~= shared::bfs_level_names(i) + (", l"@
                + crate::text::decimal(i) + names_from(i + 1, n)));
        }
    } else {
        assert(shared::bfs_levels(n) + levels_from(i, n) =~= shared::bfs_levels(n));
        assert(shared::bfs_level_names(n) + names_from(i, n) =~= shared::bfs_level_names(n));
    }
}

/// The traversal query holds every level in turn, each starting where the one
/// before ends, and returns the edges of all of them; depth zero asks nothing.
pub proof fn law_traversal_visits_every_level(depth: usize, query: String)
    requires
        call_ensures(build_arango_edge_bfs_aql, (depth,), query),
    ensures
        depth == 0 ==> query@.len() == 0,
        depth > 0 ==> query@ == levels_from(0, depth as nat) + "FOR edge IN FLATTEN(["@
            + names_from(0, depth as nat) + "]) RETURN edge"@,
{
    lemma_levels(0, depth as nat);
    assert(Seq::<char>::empty() + levels_from(0, depth as nat) =~= levels_from(0, depth as nat));
    assert(Seq::<char>::empty() + names_from(0, depth as nat) =~= names_from(0, depth as nat));
}

/// The lists of grouped operations, one after the other.
pub open spec fn is_concatenation(
    a: GroupedOperations,
    b: GroupedOperations,
    whole: GroupedOperations,
) -> bool {
    &&& documents_concatenate(a.entities, b.entities, whole.entities)
    &&& documents_concatenate(a.resources, b.resources, whole.resources)
    &&& connection::edge_models(whole.edges.upserts@) == connection::edge_models(a.edges.upserts@)
        + connection::edge_models(b.edges.upserts@)
    &&& collections::texts(whole.edges.deletes@) == collections::texts(a.edges.deletes@)
        + collections::texts(b.edges.deletes@)
}

/// The lists of documents, one after the other.
pub open spec fn documents_concatenate(
    a: DocumentOperations,
    b: DocumentOperations,
    whole: DocumentOperations,
) -> bool {
    &&& crate::value::array_of(whole.creates@) == crate::value::array_of(a.creates@)
        + crate::value::array_of(b.creates@)
    &&& crate::value::array_of(whole.updates@) == crate::value::array_of(a.updates@)
        + crate::value::array_of(b.updates@)
    &&& crate::value::array_of(whole.deletes@) == crate::value::array_of(a.deletes@)
        + crate::value::array_of(b.deletes@)
}

/// Grouping goes list by list.
pub proof fn law_grouping_goes_list_by_list(
    a: Vec<TransactionOperation>,
    grouped_a: GroupedOperations,
    b: Vec<TransactionOperation>,
    grouped_b: GroupedOperations,
    whole: Vec<TransactionOperation>,
    grouped: GroupedOperations,
    key_field: &str,
)
    requires
        call_ensures(GroupedOperations::from_operations, (a, key_field), grouped_a),
        call_ensures(GroupedOperations::from_operations, (b, key_field), grouped_b),
        call_ensures(GroupedOperations::from_operations, (whole, key_field), grouped),
        connection::operation_models(whole@) == connection::operation_models(a@)
            + connection::operation_models(b@),
    ensures
        is_concatenation(grouped_a, grouped_b, grouped),
{
    let (x, y) = (connection::operation_models(a@), connection::operation_models(b@));
    shared::law_grouping_of_concatenation(x, y, DocumentKind::Entity, key_field@);
    shared::law_grouping_of_concatenation(x, y, DocumentKind::Resource, key_field@);
}

/// No document is in these groups.
pub open spec fn no_documents(group: DocumentOperations) -> bool {
    &&& group.creates@.len() == 0
    &&& group.updates@.len() == 0
    &&& group.deletes@.len() == 0
}

/// The object has a field with that name and content.
pub open spec fn names_key(doc: Json, key_field: Seq<char>, key: Seq<char>) -> bool {
    load::has_field(doc, key_field, Json::String(key))
}

/// One operation goes to exactly one group: a document to that of its kind, with
/// its key and the version it expects; edges to theirs. A key field named like
/// one of the other two fields is overwritten by it.
pub proof fn law_one_operation_goes_to_its_group(
    ops: Vec<TransactionOperation>,
    grouped: GroupedOperations,
    key_field: &str,
)
    requires
        ops@.len() == 1,
        key_field@ != "expected"@,
        key_field@ != "patch"@,
        call_ensures(GroupedOperations::from_operations, (ops, key_field), grouped),
    ensures
        ({
            let (own, other, kind) = match ops@[0]@ {
                OperationModel::Create { kind: DocumentKind::Resource, .. } => (
                    grouped.resources,
                    grouped.entities,
                    0int,
                ),
                OperationModel::Update { kind: DocumentKind::Resource, .. } => (
                    grouped.resources,
                    grouped.entities,
                    1,
                ),
                OperationModel::Delete { kind: DocumentKind::Resource, .. } => (
                    grouped.resources,
                    grouped.entities,
                    2,
                ),
                OperationModel::Create { .. } => (grouped.entities, grouped.resources, 0),
                OperationModel::Update { .. } => (grouped.entities, grouped.resources, 1),
                OperationModel::Delete { .. } => (grouped.entities, grouped.resources, 2),
                _ => (grouped.entities, grouped.resources, 3),
            };
            &&& no_documents(other)
            &&& kind != 0 ==> own.creates@.len() == 0
            &&& kind != 1 ==> own.updates@.len() == 0
            &&& kind != 2 ==> own.deletes@.len() == 0
            &&& match ops@[0]@ {
                OperationModel::Create { data, .. } => own.creates@.len() == 1 && own.creates@[0]@
                    == data,
                OperationModel::Update { key, expected, patch, .. } => own.updates@.len() == 1 && {
                    let doc = own.updates@[0]@;
                    &&& names_key(doc, key_field@, key)
                    &&& load::has_field(doc, "expected"@, Json::Number(Number::PosInt(expected)))
                    &&& load::has_field(doc, "patch"@, patch)
                    &&& forall|name: Seq<char>, value: Json| #[trigger]
                        load::has_field(doc, name, value) ==> name == key_field@ || name
                            == "expected"@ || name == "patch"@
                },
                OperationModel::Delete { key, expected, .. } => own.deletes@.len() == 1 && {
                    let doc = own.deletes@[0]@;
                    &&& names_key(doc, key_field@, key)
                    &&& load::has_field(doc, "expected"@, Json::Number(Number::PosInt(expected)))
                    &&& forall|name: Seq<char>, value: Json| #[trigger]
                        load::has_field(doc, name, value) ==> name == key_field@ || name
                            == "expected"@
                },
                _ => true,
            }
            &&& connection::edge_models(grouped.edges.upserts@) == match ops@[0]@ {
                OperationModel::UpsertEdges { edges, .. } => edges,
                _ => Seq::empty(),
            }
            &&& collections::texts(grouped.edges.deletes@) == match ops@[0]@ {
                OperationModel::DeleteEdges { keys, .. } => keys,
                _ => Seq::empty(),
            }
        }),
{
    reveal_strlit("expected");
    reveal_strlit("patch");
    assert("expected"@.len() != "patch"@.len());
    let models = connection::operation_models(ops@);
    assert(models.drop_last() =~= Seq::empty());
    assert(models.last() == ops@[0]@);
    reveal_with_fuel(shared::creates_of, 2);
    reveal_with_fuel(shared::updates_of, 2);
    reveal_with_fuel(shared::deletes_of, 2);
    reveal_with_fuel(shared::upserts_of, 2);
    reveal_with_fuel(shared::edge_deletes_of, 2);
    lemma_lengths(grouped.entities);
    lemma_lengths(grouped.resources);
    match ops@[0]@ {
        OperationModel::UpsertEdges { edges, .. } => {
            assert(Seq::<EdgeModel>::empty() + edges =~= edges);
        },
        OperationModel::DeleteEdges { keys, .. } => {
            assert(Seq::<Seq<char>>::empty() + keys =~= keys);
        },
        _ => {},
    }
}

proof fn lemma_lengths(group: DocumentOperations)
    ensures
        crate::value::array_of(group.creates@).len() == group.creates@.len(),
        crate::value::array_of(group.updates@).len() == group.updates@.len(),
        crate::value::array_of(group.deletes@).len() == group.deletes@.len(),
        group.creates@.len() > 0 ==> crate::value::array_of(group.creates@)[0]
            == group.creates@[0]@,
        group.updates@.len() > 0 ==> crate::value::array_of(group.updates@)[0]
            == group.updates@[0]@,
        group.deletes@.len() > 0 ==> crate::value::array_of(group.deletes@)[0]
            == group.deletes@[0]@,
{
}

/// The keys extracted from documents: one for each document that has its key field
/// as a string, in order, and no other.
pub proof fn law_every_key_is_extracted(values: &[Value], key_field: &str, keys: Vec<String>)
    requires
        call_ensures(extract_keys, (values, key_field), keys),
    ensures
        exists|at: Seq<int>| #[trigger] extracted_at(values@, key_field@, keys@, at),
{
    let at = lemma_extracted(crate::value::array_of(values@), key_field@);
    let found = collections::texts(keys@);
    assert forall|i: int| 0 <= i < at.len() implies 0 <= #[trigger] at[i] < values@.len()
        && names_key(values@[at[i]]@, key_field@, keys@[i]@) by {
        assert(found[i] == keys@[i]@);
        assert(crate::value::array_of(values@)[at[i]] == values@[at[i]]@);
    }
    assert forall|n: int, key: Seq<char>|
        0 <= n < values@.len() && #[trigger] names_key(
            values@[n]@,
            key_field@,
            key,
        ) implies exists|i: int| 0 <= i < at.len() && #[trigger] at[i] == n by {
        assert(crate::value::array_of(values@)[n] == values@[n]@);
    }
    assert(extracted_at(values@, key_field@, keys@, at));
}

/// Key `i` is that of the document at `at[i]`; the places go up, and every document
/// with a key has one.
pub open spec fn extracted_at(
    values: Seq<Value>,
    key_field: Seq<char>,
    keys: Seq<String>,
    at: Seq<int>,
) -> bool {
    &&& at.len() == keys.len()
    &&& forall|i: int|
        0 <= i < at.len() ==> 0 <= #[trigger] at[i] < values.len() && names_key(
            values[at[i]]@,
            key_field,
            keys[i]@,
        )
    &&& forall|i: int, j: int| 0 <= i < j < at.len() ==> #[trigger] at[i] < #[trigger] at[j]
    &&& forall|n: int, key: Seq<char>|
        0 <= n < values.len() && #[trigger] names_key(values[n]@, key_field, key) ==> exists|i: int|
            0 <= i < at.len() && #[trigger] at[i] == n
}

proof fn lemma_extracted(docs: Seq<Json>, key_field: Seq<char>) -> (at: Seq<int>)
    ensures
        at.len() == shared::keys_in(docs, key_field).len(),
        forall|i: int|
            0 <= i < at.len() ==> 0 <= #[trigger] at[i] < docs.len() && names_key(
                docs[at[i]],
                key_field,
                shared::keys_in(docs, key_field)[i],
            ),
        forall|i: int, j: int| 0 <= i < j < at.len() ==> #[trigger] at[i] < #[trigger] at[j],
        forall|n: int, key: Seq<char>|
            0 <= n < docs.len() && #[trigger] names_key(docs[n], key_field, key) ==> exists|i: int|
                0 <= i < at.len() && #[trigger] at[i] == n,
    decreases docs.len(),
{
    if docs.len() == 0 {
        Seq::empty()
    } else {
        let head = docs.drop_last();
        let rest = lemma_extracted(head, key_field);
        let n = docs.len() - 1;
        let before = shared::keys_in(head, key_field);
        let all = shared::keys_in(docs, key_field);
        let at = if crate::value::text_field_of(docs.last(), key_field) is Some {
            rest.push(n)
        } else {
            rest
        };
        assert forall|i: int| 0 <= i < at.len() implies 0 <= #[trigger] at[i] < docs.len()
            && names_key(docs[at[i]], key_field, all[i]) by {
            if i < rest.len() {
                assert(at[i] == rest[i]);
                assert(head[rest[i]] == docs[rest[i]]);
                assert(all[i] == before[i]);
            }
        }
        assert forall|i: int, j: int| 0 <= i < j < at.len() implies #[trigger] at[i]
            < #[trigger] at[j] by {
            if j < rest.len() {
                assert(rest[i] < rest[j]);
            } else {
                assert(rest[i] < head.len());
            }
        }
        assert forall|m: int, key: Seq<char>|
            0 <= m < docs.len() && #[trigger] names_key(docs[m], key_field, key) implies exists|
            i: int,
        |
            0 <= i < at.len() && #[trigger] at[i] == m by {
            if m < head.len() {
                assert(head[m] == docs[m]);
                assert(names_key(head[m], key_field, key));
                let i = choose|i: int| 0 <= i < rest.len() && #[trigger] rest[i] == m;
                assert(at[i] == m);
            } else {
                assert(at[rest.len() as int] == m);
            }
        }
        at
    }
}

/// A batch succeeded exactly where as many keys were processed as requested and
/// every requested key was processed. Otherwise the first requested key that was
/// not processed is named as a conflict, and the batch where there is none.
pub proof fn law_batch_outcome_is_checked(
    requested: Vec<String>,
    processed: Vec<String>,
    operation: &OperationType,
    collection: &str,
    r: Result<(), PersistenceError>,
)
    requires
        call_ensures(
            check_operation_success,
            (requested, processed, operation, collection),
            r,
        ),
    ensures
        r is Ok <==> requested@.len() == processed@.len() && forall|i: int|
            0 <= i < requested@.len() ==> #[trigger] was_processed(requested@[i], processed@),
        r matches Err(PersistenceError::Conflict { key }) ==> exists|i: int|
            0 <= i < requested@.len() && (#[trigger] requested@[i])@ == key@ && !was_processed(
                requested@[i],
                processed@,
            ) && forall|j: int|
                0 <= j < i ==> #[trigger] was_processed(requested@[j], processed@),
        r matches Err(PersistenceError::General(message)) ==> {
            &&& forall|i: int|
                0 <= i < requested@.len() ==> #[trigger] was_processed(requested@[i], processed@)
            &&& message@ == (match *operation {
                OperationType::Update => "Update"@,
                OperationType::Delete => "Delete"@,
            }) + " conflict ("@ + collection@ + ")"@
        },
{
    let req = collections::texts(requested@);
    let done = collections::texts(processed@);
    assert forall|i: int| 0 <= i < requested@.len() implies done.contains(#[trigger] req[i])
        == was_processed(requested@[i], processed@) by {
        if done.contains(req[i]) {
            let k = choose|k: int| 0 <= k < done.len() && done[k] == req[i];
            assert(processed@[k]@ == requested@[i]@);
        }
        if was_processed(requested@[i], processed@) {
            let k = choose|k: int|
                0 <= k < processed@.len() && (#[trigger] processed@[k])@ == requested@[i]@;
            assert(done[k] == req[i]);
        }
    }
    if shared::all_processed(req, done) {
        assert forall|i: int| 0 <= i < requested@.len() implies #[trigger] was_processed(
            requested@[i],
            processed@,
        ) by {
            assert(done.contains(req[i]));
        }
    }
    if forall|i: int| 0 <= i < requested@.len() ==> #[trigger] was_processed(requested@[i], processed@) {
        assert forall|i: int| 0 <= i < req.len() implies done.contains(#[trigger] req[i]) by {
            assert(was_processed(requested@[i], processed@));
        }
    }
    match r {
        Err(PersistenceError::Conflict { key }) => {
            let i = choose|i: int|
                {
                    &&& 0 <= i < req.len()
                    &&& #[trigger] req[i] == key@
                    &&& !done.contains(key@)
                    &&& forall|j: int| 0 <= j < i ==> done.contains(#[trigger] req[j])
                };
            assert(requested@[i]@ == key@);
            assert forall|j: int| 0 <= j < i implies #[trigger] was_processed(
                requested@[j],
                processed@,
            ) by {
                assert(done.contains(req[j]));
            }
        },
        _ => {},
    }
}

/// The key is among those processed.
pub open spec fn was_processed(key: String, processed: Seq<String>) -> bool {
    exists|k: int| 0 <= k < processed.len() && (#[trigger] processed[k])@ == key@
}

/// A store is ensured exactly where it was marked.
pub proof fn law_marked_stores_are_ensured(
    stores: &mut EnsuredStores,
    name: String,
    probe: &str,
    b: bool,
)
    requires
        call_ensures(EnsuredStores::mark_ensured, (stores, name), ()),
        call_ensures(EnsuredStores::is_ensured, (&*final(stores), probe), b),
    ensures
        b <==> probe@ == name@ || old(stores)@.contains(probe@),
{
}

/// The word of a kind, and that of an operation.
pub proof fn law_words(kind: &DocumentKind, operation: &OperationType, s: &'static str)
    ensures
        call_ensures(DocumentKind::as_str, (kind,), s) ==> s@ == match *kind {
            DocumentKind::Entity => "entity"@,
            DocumentKind::Resource => "resource"@,
        },
        call_ensures(OperationType::as_str, (operation,), s) ==> s@ == match *operation {
            OperationType::Update => "Update"@,
            OperationType::Delete => "Delete"@,
        },
{
}

} // verus!
