//! JSON values, and what the contents of values show.
use std::collections::{HashMap, HashSet};

use vstd::prelude::*;
use vstd::string::*;

use crate::collections;
use crate::collections::KeySet;
use crate::db::connection::{
    EdgeDocument, ErrorModel, OperationModel, PersistenceError, TransactionOperation,
};
use crate::laws::load;
use crate::session::tracking::DirtyState;
use crate::session::{Entity, TypeId};
use crate::text;
use crate::value::{Json, Number, Object, Value};

verus! {

/// The content of a value shows what the value is made of.
pub proof fn law_content_shows_the_value(value: Value)
    ensures
        match value {
            Value::Null => value@ == Json::Null,
            Value::Bool(b) => value@ == Json::Bool(b),
            Value::Number(n) => value@ == Json::Number(n),
            Value::String(s) => value@ == Json::String(s@),
            Value::Array(items) => {
                &&& value@ is Array
                &&& value@->Array_0.len() == items@.len()
                &&& forall|i: int|
                    0 <= i < items@.len() ==> value@->Array_0[i] == (#[trigger] items@[i])@
            },
            Value::Object(o) => value@ == Json::Object(o@),
        },
{
}

/// A field that was set is the one read; every other field is as it was.
pub proof fn law_set_field_is_read(
    object: &mut Object,
    name: String,
    value: Value,
    other: &str,
    field: Option<&Value>,
)
    requires
        call_ensures(Object::insert, (object, name, value), ()),
        call_ensures(Object::get, (&*final(object), other), field),
    ensures
        other@ == name@ ==> field is Some && field->0@ == value@,
        other@ != name@ ==> (field is Some <==> old(object)@.dom().contains(other@)),
        other@ != name@ && field is Some ==> field->0@ == old(object)@[other@],
{
}

/// A new object has no field, and an object is empty exactly where it has none.
pub proof fn law_new_object_is_empty(o: Object, name: &str, field: Option<&Value>, b: bool)
    ensures
        call_ensures(Object::new, (), o) && call_ensures(Object::get, (&o, name), field)
            ==> field is None,
        call_ensures(Object::is_empty, (&o,), b) && b && call_ensures(
            Object::get,
            (&o, name),
            field,
        ) ==> field is None,
        call_ensures(Object::is_empty, (&o,), b) && !b ==> o@ != Map::<Seq<char>, Json>::empty(),
{
}

/// Reading a value gives its field, its text and its number, where it has one.
pub proof fn law_value_is_read(
    value: &Value,
    name: &str,
    field: Option<&Value>,
    read: Option<&str>,
    number: Option<u64>,
)
    ensures
        call_ensures(Value::get, (value, name), field) ==> {
            &&& field matches Some(f) ==> load::has_field(value@, name@, f@)
            &&& field is None ==> forall|v: Json| !(#[trigger] load::has_field(value@, name@, v))
        },
        call_ensures(Value::as_str, (value,), read) ==> match value@ {
            Json::String(s) => read is Some && read->0@ == s,
            _ => read is None,
        },
        call_ensures(Value::as_u64, (value,), number) ==> match value@ {
            Json::Number(Number::PosInt(n)) => number == Some(n),
            _ => number is None,
        },
{
}

/// The content of an operation shows each part of it.
pub proof fn law_content_shows_the_operation(op: TransactionOperation)
    ensures
        match op {
            TransactionOperation::CreateDocument { store, kind, data } => op@
                == OperationModel::Create { store: store@, kind, data: data@ },
            TransactionOperation::UpdateDocument {
                store,
                kind,
                key,
                expected_current_version,
                patch,
            } => op@ == OperationModel::Update {
                store: store@,
                kind,
                key: key@,
                expected: expected_current_version,
                patch: patch@,
            },
            TransactionOperation::DeleteDocument { store, kind, key, expected_current_version } =>
                op@ == OperationModel::Delete {
                store: store@,
                kind,
                key: key@,
                expected: expected_current_version,
            },
            TransactionOperation::UpsertEdges { store, edges } => {
                &&& op@ matches OperationModel::UpsertEdges { store: to, edges: models } && to
                    == store@ && models.len() == edges@.len() && forall|i: int|
                    0 <= i < edges@.len() ==> models[i] == (#[trigger] edges@[i])@
            },
            TransactionOperation::DeleteEdges { store, keys } => {
                &&& op@ matches OperationModel::DeleteEdges { store: to, keys: texts } && to
                    == store@ && texts.len() == keys@.len() && forall|i: int|
                    0 <= i < keys@.len() ==> texts[i] == (#[trigger] keys@[i])@
            },
        },
{
}

/// The content of an edge shows each part of it.
pub proof fn law_content_shows_the_edge(edge: EdgeDocument)
    ensures
        edge@.key == edge.key@,
        edge@.relationship_type == edge.relationship_type@,
        edge@.from_guid == edge.from_guid@,
        edge@.to_guid == edge.to_guid@,
        edge.payload is None <==> edge@.payload is None,
        edge.payload matches Some(v) ==> edge@.payload == Some(v@),
{
}

/// The content of an error shows which it is and what it names.
pub proof fn law_content_shows_the_error(error: PersistenceError)
    ensures
        match error {
            PersistenceError::General(message) => error@ == ErrorModel::General(message@),
            PersistenceError::Conflict { key } => error@ == ErrorModel::Conflict(key@),
        },
{
}

/// The content of tracked changes shows each of them.
pub proof fn law_content_shows_the_changes(state: DirtyState, e: Entity, t: TypeId)
    ensures
        state@.components.dom().contains(e) == state.dirty_entity_components@.dom().contains(e),
        state@.components.dom().contains(e) ==> state@.components[e].contains(t)
            == state.dirty_entity_components@[e]@.contains(t),
        state@.despawned_entities == state.despawned_entities@,
        state@.resources == state.dirty_resources@,
        state@.despawned_resources == state.despawned_resources@,
        state@.relationships == state.dirty_relationship_entities@,
{
}

/// A copy has the same content.
pub proof fn law_copies_are_alike(
    value: &Value,
    value_copy: Value,
    edge: &EdgeDocument,
    edge_copy: EdgeDocument,
    error: &PersistenceError,
    error_copy: PersistenceError,
    set: &KeySet,
    set_copy: KeySet,
)
    ensures
        call_ensures(Value::clone, (value,), value_copy) ==> value_copy@ == value@,
        call_ensures(EdgeDocument::clone, (edge,), edge_copy) ==> edge_copy@ == edge@,
        call_ensures(PersistenceError::clone, (error,), error_copy) ==> error_copy@ == error@,
        call_ensures(KeySet::clone, (set,), set_copy) && set.wf() ==> set_copy@ == set@,
{
}

/// A set of texts has exactly what was added, and tells of each addition whether
/// it was new.
pub proof fn law_set_has_what_was_added(set: &mut KeySet, key: String, added: bool, probe: &str, has: bool)
    requires
        call_ensures(KeySet::insert, (set, key), added),
        call_ensures(KeySet::contains, (&*final(set), probe), has),
    ensures
        has <==> probe@ == key@ || old(set)@.contains(probe@),
        added == !old(set)@.contains(key@),
{
}

/// The number that a text of digits stands for.
pub open spec fn number_of(digits: Seq<char>) -> nat
    decreases digits.len(),
{
    if digits.len() == 0 {
        0
    } else {
        number_of(digits.drop_last()) * 10 + ((digits.last() as int - '0' as int) as nat)
    }
}

proof fn lemma_decimal(n: nat)
    ensures
        number_of(text::decimal(n)) == n,
        text::decimal(n).len() > 0,
        forall|i: int| 0 <= i < text::decimal(n).len() ==> '0' <= #[trigger] text::decimal(n)[i] <= '9',
        n > 0 ==> text::decimal(n)[0] != '0',
        n == 0 ==> text::decimal(n).len() == 1,
    decreases n,
{
    reveal_with_fuel(number_of, 2);
    if n < 10 {
        assert(text::decimal(n).drop_last() =~= Seq::empty());
    } else {
        lemma_decimal(n / 10);
        assert(text::decimal(n).drop_last() =~= text::decimal(n / 10));
    }
}

/// A number in decimal notation stands for that number, in digits alone and
/// without a leading zero.
pub proof fn law_decimal_stands_for_the_number(n: usize, s: String)
    requires
        call_ensures(text::decimal_string, (n,), s),
    ensures
        number_of(s@) == n,
        s@.len() > 0,
        forall|i: int| 0 <= i < s@.len() ==> '0' <= #[trigger] s@[i] <= '9',
        s@.len() > 1 ==> s@[0] != '0',
{
    lemma_decimal(n as nat);
}

/// Walking a set or the keys of a map gives each element once; a copy has the same
/// elements, and an extended set those of both.
pub proof fn law_sets_are_walked_copied_and_joined<V>(
    set: &HashSet<u64>,
    map: &HashMap<u64, V>,
    list: Vec<u64>,
    copy: HashSet<u64>,
    joined: &mut HashSet<u64>,
    x: u64,
)
    ensures
        call_ensures(collections::members, (set,), list) ==> list@.no_duplicates() && (
        list@.contains(x) <==> set@.contains(x)),
        call_ensures(collections::keys_of::<V>, (map,), list) ==> list@.no_duplicates() && (
        list@.contains(x) <==> map@.dom().contains(x)),
        call_ensures(collections::copy_set, (set,), copy) ==> (copy@.contains(x) <==> set@.contains(
            x,
        )),
        call_ensures(collections::extend_set, (joined, set), ()) ==> (final(joined)@.contains(x)
            <==> old(joined)@.contains(x) || set@.contains(x)),
{
    assert(list@.to_set().contains(x) == list@.contains(x));
}

} // verus!
