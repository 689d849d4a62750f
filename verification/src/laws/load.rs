//! What a load takes from the store, and where it goes.
use vstd::prelude::*;
use vstd::string::*;

use crate::laws::versions;
use crate::session::hydrate;
use crate::session::hydrate::{document_key, document_with_key, ResourceLoad};
use crate::session::state::PersistenceSession;
use crate::session::{Entity, TypeId};
use crate::value::{Json, Number, Value};

verus! {

/// The document has that field.
pub open spec fn has_field(doc: Json, name: Seq<char>, value: Json) -> bool {
    &&& doc matches Json::Object(fields) && fields.dom().contains(name) && fields[name] == value
}

/// The fields that a load inserts are those asked for: every one of them has a
/// name that was asked for and that a registered component has, with the value in
/// the document; every name asked for that is registered and in the document is
/// among them; and they come in the order of the request. Where no name is given
/// all registered components are asked for.
pub open spec fn inserts_what_was_asked(
    session: PersistenceSession,
    doc: Json,
    requested: Seq<&str>,
    fields: Seq<(String, Value)>,
) -> bool {
    let registered = session.components.deserializers@;
    &&& forall|i: int|
        0 <= i < fields.len() ==> {
            &&& registered.contains((#[trigger] fields[i]).0@)
            &&& has_field(doc, fields[i].0@, fields[i].1@)
            &&& requested.len() > 0 ==> exists|k: int|
                0 <= k < requested.len() && (#[trigger] requested[k])@ == fields[i].0@
        }
    &&& forall|k: int, value: Json|
        0 <= k < requested.len() && registered.contains((#[trigger] requested[k])@)
            && #[trigger] has_field(doc, requested[k]@, value) ==> exists|i: int|
            0 <= i < fields.len() && (#[trigger] fields[i]).0@ == requested[k]@ && fields[i].1@
                == value
    &&& requested.len() == 0 ==> forall|name: Seq<char>, value: Json|
        #[trigger] registered.contains(name) && #[trigger] has_field(doc, name, value) ==> exists|
            i: int,
        |
            0 <= i < fields.len() && (#[trigger] fields[i]).0@ == name && fields[i].1@ == value
    &&& requested.len() == 0 ==> forall|i: int, j: int|
        0 <= i < j < fields.len() ==> (#[trigger] fields[i]).0@ != (#[trigger] fields[j]).0@
    &&& requested.len() > 0 ==> follows_request(registered, doc, requested, fields)
}

/// The fields stand in the order of the names that they answer.
pub open spec fn follows_request(
    registered: Set<Seq<char>>,
    doc: Json,
    requested: Seq<&str>,
    fields: Seq<(String, Value)>,
) -> bool {
    exists|at: Seq<int>| #[trigger] answers_in_order(registered, doc, requested, fields, at)
}

/// Field `i` answers the name at place `at[i]`, and the places go up; every name
/// that can be answered is.
pub open spec fn answers_in_order(
    registered: Set<Seq<char>>,
    doc: Json,
    requested: Seq<&str>,
    fields: Seq<(String, Value)>,
    at: Seq<int>,
) -> bool {
    &&& at.len() == fields.len()
    &&& forall|i: int|
        0 <= i < at.len() ==> 0 <= #[trigger] at[i] < requested.len() && requested[at[i]]@
            == fields[i].0@
    &&& forall|i: int, j: int| 0 <= i < j < at.len() ==> #[trigger] at[i] < #[trigger] at[j]
    &&& forall|k: int|
        0 <= k < requested.len() && #[trigger] can_be_answered(registered, doc, requested[k]@)
            ==> at.contains(k)
}

/// The name is registered, and the document has a field of that name.
pub open spec fn can_be_answered(registered: Set<Seq<char>>, doc: Json, name: Seq<char>) -> bool {
    &&& registered.contains(name)
    &&& exists|value: Json| #[trigger] has_field(doc, name, value)
}

proof fn lemma_field(doc: Json, name: Seq<char>)
    ensures
        forall|value: Json| #[trigger]
            has_field(doc, name, value) <==> crate::value::field_of(doc, name) == Some(value),
{
}

/// The readable fields, name by name, with the places of the names.
proof fn lemma_readable(
    session: PersistenceSession,
    doc: Json,
    names: Seq<Seq<char>>,
) -> (at: Seq<int>)
    ensures
        ({
            let fields = hydrate::readable_fields(session, doc, names);
            &&& at.len() == fields.len()
            &&& forall|i: int|
                0 <= i < at.len() ==> {
                    &&& 0 <= #[trigger] at[i] < names.len()
                    &&& names[at[i]] == fields[i].0
                    &&& session.components.deserializers@.contains(fields[i].0)
                    &&& has_field(doc, fields[i].0, fields[i].1)
                }
            &&& forall|i: int, j: int|
                0 <= i < j < at.len() ==> #[trigger] at[i] < #[trigger] at[j]
            &&& forall|k: int|
                0 <= k < names.len() && session.components.deserializers@.contains(
                    #[trigger] names[k],
                ) && crate::value::field_of(doc, names[k]) is Some ==> exists|i: int|
                    0 <= i < at.len() && #[trigger] at[i] == k
        }),
    decreases names.len(),
{
    if names.len() == 0 {
        Seq::empty()
    } else {
        let head = names.drop_last();
        let rest = lemma_readable(session, doc, head);
        let k = names.len() - 1;
        lemma_field(doc, names.last());
        let before = hydrate::readable_fields(session, doc, head);
        let fields = hydrate::readable_fields(session, doc, names);
        let added = session.components.deserializers@.contains(names.last())
            && crate::value::field_of(doc, names.last()) is Some;
        let at = if added {
            rest.push(k)
        } else {
            rest
        };
        assert forall|i: int| 0 <= i < at.len() implies {
            &&& 0 <= #[trigger] at[i] < names.len()
            &&& names[at[i]] == fields[i].0
            &&& session.components.deserializers@.contains(fields[i].0)
            &&& has_field(doc, fields[i].0, fields[i].1)
        } by {
            if i < rest.len() {
                assert(at[i] == rest[i]);
                assert(head[rest[i]] == names[rest[i]]);
                assert(fields[i] == before[i]);
            }
        }
        assert forall|i: int, j: int| 0 <= i < j < at.len() implies #[trigger] at[i]
            < #[trigger] at[j] by {
            if j < rest.len() {
                assert(rest[i] < rest[j]);
            } else {
                assert(rest[i] < head.len());
            }
        }
        assert forall|n: int|
            0 <= n < names.len() && session.components.deserializers@.contains(#[trigger] names[n])
                && crate::value::field_of(doc, names[n]) is Some implies exists|i: int|
            0 <= i < at.len() && #[trigger] at[i] == n by {
            if n < head.len() {
                assert(head[n] == names[n]);
                let i = choose|i: int| 0 <= i < rest.len() && #[trigger] rest[i] == n;
                assert(at[i] == n);
            } else {
                assert(at[rest.len() as int] == n);
            }
        }
        at
    }
}

/// The fields answer the names asked for, in their order.
proof fn lemma_follows(
    session: PersistenceSession,
    doc: Json,
    requested: Seq<&str>,
    fields: Seq<(String, Value)>,
)
    requires
        requested.len() > 0,
        hydrate::named_values(fields) == hydrate::document_fields(
            session,
            doc,
            hydrate::slice_texts(requested),
        ),
    ensures
        follows_request(session.components.deserializers@, doc, requested, fields),
{
    let registered = session.components.deserializers@;
    let texts = hydrate::slice_texts(requested);
    let at = lemma_readable(session, doc, texts);
    let found = hydrate::readable_fields(session, doc, texts);
    assert forall|i: int| 0 <= i < at.len() implies 0 <= #[trigger] at[i] < requested.len()
        && requested[at[i]]@ == fields[i].0@ by {
        assert(texts[at[i]] == requested[at[i]]@);
        assert(hydrate::named_values(fields)[i] == (fields[i].0@, fields[i].1@));
    }
    assert forall|k: int|
        0 <= k < requested.len() && #[trigger] can_be_answered(
            registered,
            doc,
            requested[k]@,
        ) implies at.contains(k) by {
        lemma_field(doc, requested[k]@);
        assert(texts[k] == requested[k]@);
        let i = choose|i: int| 0 <= i < at.len() && #[trigger] at[i] == k;
        assert(at[i] == k);
    }
    assert(answers_in_order(registered, doc, requested, fields, at));
}

proof fn lemma_inserts(
    session: PersistenceSession,
    doc: Json,
    requested: Seq<&str>,
    fields: Seq<(String, Value)>,
)
    requires
        session.components.deserializers.wf(),
        hydrate::named_values(fields) == hydrate::document_fields(
            session,
            doc,
            hydrate::slice_texts(requested),
        ),
    ensures
        inserts_what_was_asked(session, doc, requested, fields),
{
    let registered = session.components.deserializers@;
    let order = session.components.deserializers.order();
    session.components.deserializers.lemma_order();
    let texts = hydrate::slice_texts(requested);
    let names = if requested.len() > 0 {
        texts
    } else {
        order
    };
    let at = lemma_readable(session, doc, names);
    let found = hydrate::readable_fields(session, doc, names);
    assert forall|i: int| 0 <= i < fields.len() implies found[i] == (
        (#[trigger] fields[i]).0@,
        fields[i].1@,
    ) by {
        assert(hydrate::named_values(fields)[i] == (fields[i].0@, fields[i].1@));
    }
    assert forall|i: int| 0 <= i < fields.len() implies {
        &&& registered.contains((#[trigger] fields[i]).0@)
        &&& has_field(doc, fields[i].0@, fields[i].1@)
        &&& requested.len() > 0 ==> exists|k: int|
            0 <= k < requested.len() && (#[trigger] requested[k])@ == fields[i].0@
    } by {
        assert(found[i] == (fields[i].0@, fields[i].1@));
        assert(0 <= at[i] < names.len());
        if requested.len() > 0 {
            assert(texts[at[i]] == requested[at[i]]@);
        }
    }
    assert forall|name: Seq<char>, value: Json, k: int|
        0 <= k < names.len() && #[trigger] names[k] == name && registered.contains(name)
            && #[trigger] has_field(doc, name, value) implies exists|i: int|
        0 <= i < fields.len() && (#[trigger] fields[i]).0@ == name && fields[i].1@ == value by {
        lemma_field(doc, name);
        let i = choose|i: int| 0 <= i < at.len() && #[trigger] at[i] == k;
        assert(found[i] == (fields[i].0@, fields[i].1@));
        assert(has_field(doc, found[i].0, found[i].1));
    }
    assert forall|k: int, value: Json|
        0 <= k < requested.len() && registered.contains((#[trigger] requested[k])@)
            && #[trigger] has_field(doc, requested[k]@, value) implies exists|i: int|
        0 <= i < fields.len() && (#[trigger] fields[i]).0@ == requested[k]@ && fields[i].1@
            == value by {
        assert(names[k] == requested[k]@);
    }
    if requested.len() == 0 {
        assert forall|name: Seq<char>, value: Json|
            #[trigger] registered.contains(name) && #[trigger] has_field(
                doc,
                name,
                value,
            ) implies exists|i: int|
            0 <= i < fields.len() && (#[trigger] fields[i]).0@ == name && fields[i].1@
                == value by {
            assert(order.to_set().contains(name));
            let k = choose|k: int| 0 <= k < order.len() && order[k] == name;
            assert(names[k] == name);
        }
        assert forall|i: int, j: int| 0 <= i < j < fields.len() implies (
        #[trigger] fields[i]).0@ != (#[trigger] fields[j]).0@ by {
            assert(found[i] == (fields[i].0@, fields[i].1@));
            assert(found[j] == (fields[j].0@, fields[j].1@));
            assert(at[i] < at[j]);
            assert(order[at[i]] != order[at[j]]);
        }
    } else {
        lemma_follows(session, doc, requested, fields);
    }
}

/// A load opens a hydration scope, and changes nothing else of the session than
/// the known versions.
pub open spec fn opens_hydration(before: PersistenceSession, after: PersistenceSession) -> bool {
    &&& before.hydration_depth == 0 ==> after.hydration_depth == 1
    &&& before.hydration_depth >= 1 ==> after.hydration_depth == before.hydration_depth
    &&& after.tracking == before.tracking
    &&& after.components == before.components
    &&& after.resources == before.resources
    &&& after.relationships == before.relationships
    &&& after.cache.entity_keys == before.cache.entity_keys
    &&& after.cache.guid_to_entity == before.cache.guid_to_entity
    &&& after.cache.edge_snapshot == before.cache.edge_snapshot
    &&& after.compact_threshold_bytes == before.compact_threshold_bytes
}

/// The version of an entity's document is known now; every other version is the
/// one that was known before.
pub open spec fn knows_entity_version(
    before: PersistenceSession,
    after: PersistenceSession,
    key: Seq<char>,
    version: u64,
) -> bool {
    let old_versions = before.cache.version_manager.entities@;
    let new_versions = after.cache.version_manager.entities@;
    &&& new_versions.dom().contains(key)
    &&& new_versions[key] == version
    &&& forall|other: Seq<char>| #[trigger]
        new_versions.dom().contains(other) <==> old_versions.dom().contains(other) || other == key
    &&& forall|other: Seq<char>|
        other != key && #[trigger] new_versions.dom().contains(other) ==> new_versions[other]
            == old_versions[other]
    &&& after.cache.version_manager.resources@ == before.cache.version_manager.resources@
}

/// Loading a document into a known entity: see [`inserts_what_was_asked`].
pub proof fn law_hydration_inserts_what_was_asked(
    session: &mut PersistenceSession,
    doc: &Value,
    names: &[&str],
    fields: Vec<(String, Value)>,
)
    requires
        old(session).wf(),
        call_ensures(
            PersistenceSession::hydrate_entity_document,
            (session, doc, names),
            fields,
        ),
    ensures
        inserts_what_was_asked(*old(session), doc@, names@, fields@),
        opens_hydration(*old(session), *final(session)),
        final(session).cache.version_manager == old(session).cache.version_manager,
{
    lemma_inserts(*old(session), doc@, names@, fields@);
}

/// The version in the metadata of a document.
pub open spec fn stored_version(doc: Json, version: u64) -> bool {
    exists|meta: Json|
        has_field(
            doc,
            crate::db::connection::BEVY_PERSISTENCE_DATABASE_METADATA_FIELD@,
            meta,
        ) && #[trigger] has_field(
            meta,
            crate::db::connection::BEVY_PERSISTENCE_DATABASE_VERSION_FIELD@,
            Json::Number(Number::PosInt(version)),
        )
}

/// The version in the metadata is the one that a read gives.
pub proof fn lemma_stored_version(doc: Json)
    ensures
        forall|version: u64| #[trigger]
            stored_version(doc, version) <==> crate::db::connection::version_of(doc) == Some(
                version,
            ),
{
    let field = crate::db::connection::BEVY_PERSISTENCE_DATABASE_METADATA_FIELD@;
    let inner = crate::db::connection::BEVY_PERSISTENCE_DATABASE_VERSION_FIELD@;
    assert forall|version: u64| #[trigger]
        stored_version(doc, version) <==> crate::db::connection::version_of(doc) == Some(
            version,
        ) by {
        match crate::value::field_of(doc, field) {
            Some(meta) => {
                if crate::db::connection::version_of(doc) == Some(version) {
                    assert(has_field(doc, field, meta));
                    assert(has_field(meta, inner, Json::Number(Number::PosInt(version))));
                }
            },
            None => {},
        }
    }
}

/// Loading the document of an entity that was resolved by its key: an entity that
/// was there before is left alone unless it may be overwritten. Otherwise the
/// version in the document is known after that (1 where it gives none), and what
/// was asked for is inserted.
pub proof fn law_materialized_document_is_loaded(
    session: &mut PersistenceSession,
    key: &str,
    existed: bool,
    doc: &Value,
    names: &[&str],
    allow_overwrite: bool,
    fields: Vec<(String, Value)>,
)
    requires
        old(session).wf(),
        call_ensures(
            PersistenceSession::materialize_entity_document,
            (session, key, existed, doc, names, allow_overwrite),
            fields,
        ),
    ensures
        existed && !allow_overwrite ==> fields@.len() == 0 && *final(session) == *old(session),
        !existed || allow_overwrite ==> {
            &&& inserts_what_was_asked(*old(session), doc@, names@, fields@)
            &&& opens_hydration(*old(session), *final(session))
            &&& forall|version: u64| #[trigger]
                stored_version(doc@, version) ==> knows_entity_version(
                    *old(session),
                    *final(session),
                    key@,
                    version,
                )
            &&& (forall|version: u64| !(#[trigger] stored_version(doc@, version)))
                ==> knows_entity_version(*old(session), *final(session), key@, 1)
        },
{
    lemma_stored_version(doc@);
    if !existed || allow_overwrite {
        lemma_inserts(*old(session), doc@, names@, fields@);
        match crate::db::connection::version_of(doc@) {
            Some(version) => {
                assert(stored_version(doc@, version));
            },
            None => {},
        }
    }
}

/// Loading a document that was fetched with its version.
pub proof fn law_fetched_document_is_loaded(
    session: &mut PersistenceSession,
    key: &str,
    fetched: Option<(Value, u64)>,
    names: &[&str],
    fields: Vec<(String, Value)>,
)
    requires
        old(session).wf(),
        call_ensures(
            PersistenceSession::insert_fetched_document,
            (session, key, fetched, names),
            fields,
        ),
    ensures
        fetched is None ==> fields@.len() == 0 && *final(session) == *old(session),
        fetched matches Some((doc, version)) ==> {
            &&& inserts_what_was_asked(*old(session), doc@, names@, fields@)
            &&& opens_hydration(*old(session), *final(session))
            &&& knows_entity_version(*old(session), *final(session), key@, version)
        },
{
    match fetched {
        Some((doc, _)) => {
            lemma_inserts(*old(session), doc@, names@, fields@);
        },
        None => {},
    }
}

/// Loading a document whose version is given.
pub proof fn law_given_document_is_loaded(
    session: &mut PersistenceSession,
    key: &str,
    version: u64,
    doc: &Value,
    names: &[&str],
    fields: Vec<(String, Value)>,
)
    requires
        old(session).wf(),
        call_ensures(
            PersistenceSession::load_entity_document,
            (session, key, version, doc, names),
            fields,
        ),
    ensures
        inserts_what_was_asked(*old(session), doc@, names@, fields@),
        opens_hydration(*old(session), *final(session)),
        knows_entity_version(*old(session), *final(session), key@, version),
{
    lemma_inserts(*old(session), doc@, names@, fields@);
}

/// A resource that the store does not have changes nothing. One that it has is
/// handed on as it is where its name can be read; its version is known after that
/// where the name belongs to a type, and no other version changes.
pub proof fn law_materialized_resource_is_loaded(
    session: &mut PersistenceSession,
    name: &str,
    fetched: Option<(Value, u64)>,
    load: ResourceLoad,
)
    requires
        call_ensures(
            PersistenceSession::materialize_resource,
            (session, name, fetched),
            load,
        ),
    ensures
        fetched is None ==> load is Absent && *final(session) == *old(session),
        fetched matches Some((value, version)) ==> {
            let types = old(session).resources.names.name_to_type_id@;
            let old_versions = old(session).cache.version_manager.resources@;
            let new_versions = final(session).cache.version_manager.resources@;
            &&& opens_hydration(*old(session), *final(session))
            &&& old(session).resources.deserializers@.contains(name@) ==> load
                == ResourceLoad::Apply(value)
            &&& !old(session).resources.deserializers@.contains(name@) ==> load is Unreadable
            &&& final(session).cache.version_manager.entities@ == old(session).cache.version_manager.entities@
            &&& forall|t: TypeId| #[trigger]
                new_versions.dom().contains(t) <==> old_versions.dom().contains(t) || (
                types.dom().contains(name@) && t == types[name@])
            &&& forall|t: TypeId| #[trigger]
                new_versions.dom().contains(t) ==> new_versions[t] == if types.dom().contains(name@)
                    && t == types[name@] {
                    version
                } else {
                    old_versions[t]
                }
        },
{
}

/// One component, one resource, the edges of one relationship type: applied
/// exactly where the name or type is registered for reading.
pub proof fn law_registered_parts_are_applied(
    session: &mut PersistenceSession,
    name: &str,
    type_id: TypeId,
    apply: bool,
)
    ensures
        call_ensures(PersistenceSession::hydrate_entity_component, (session, name), apply) ==> {
            &&& apply == old(session).components.deserializers@.contains(name@)
            &&& opens_hydration(*old(session), *final(session))
            &&& final(session).cache == old(session).cache
        },
        call_ensures(PersistenceSession::hydrate_resource, (session, name), apply) ==> {
            &&& apply == old(session).resources.deserializers@.contains(name@)
            &&& opens_hydration(*old(session), *final(session))
            &&& final(session).cache == old(session).cache
        },
        call_ensures(
            PersistenceSession::apply_relationship_targets,
            (session, type_id),
            apply,
        ) ==> {
            &&& apply == old(session).relationships.deserializers@.contains(type_id)
            &&& opens_hydration(*old(session), *final(session))
            &&& final(session).cache == old(session).cache
        },
{
}

/// Loading all resources asks for every name that can be read, each once.
pub proof fn law_every_resource_is_loaded(session: &mut PersistenceSession, names: Vec<String>)
    requires
        call_ensures(PersistenceSession::begin_resource_load, (session,), names),
    ensures
        forall|i: int|
            0 <= i < names@.len() ==> old(session).resources.deserializers@.contains(
                (#[trigger] names@[i])@,
            ),
        forall|name: Seq<char>| #[trigger]
            old(session).resources.deserializers@.contains(name) ==> exists|i: int|
                0 <= i < names@.len() && (#[trigger] names@[i])@ == name,
        forall|i: int, j: int|
            0 <= i < j < names@.len() ==> (#[trigger] names@[i])@ != (#[trigger] names@[j])@,
        opens_hydration(*old(session), *final(session)),
{
    let texts = crate::collections::texts(names@);
    assert forall|i: int| 0 <= i < names@.len() implies old(session).resources.deserializers@.contains((#[trigger] names@[i])@) by {
        assert(texts[i] == names@[i]@);
        assert(texts.to_set().contains(texts[i]));
    }
    assert forall|name: Seq<char>| #[trigger]
        old(session).resources.deserializers@.contains(name) implies exists|i: int|
        0 <= i < names@.len() && (#[trigger] names@[i])@ == name by {
        assert(texts.to_set().contains(name));
        let i = choose|i: int| 0 <= i < texts.len() && texts[i] == name;
        assert(names@[i]@ == name);
    }
    assert forall|i: int, j: int| 0 <= i < j < names@.len() implies (#[trigger] names@[i])@ != (
    #[trigger] names@[j])@ by {
        assert(texts[i] != texts[j]);
    }
}

/// The entity for a key is the cached one where that is alive, else the first that
/// carries the key, and none where no entity carries it. An entity that was found
/// by what it carries is cached under the key.
pub proof fn law_entity_is_resolved(
    session: &mut PersistenceSession,
    key: &str,
    cached_alive: bool,
    carriers: &Vec<(Entity, String)>,
    r: Option<Entity>,
)
    requires
        call_ensures(
            PersistenceSession::resolve_entity_for_key,
            (session, key, cached_alive, carriers),
            r,
        ),
    ensures
        cached_alive && old(session).cache.guid_to_entity@.dom().contains(key@) ==> r == Some(
            old(session).cache.guid_to_entity@[key@],
        ) && final(session).cache@ == old(session).cache@,
        !(cached_alive && old(session).cache.guid_to_entity@.dom().contains(key@)) ==> match r {
            Some(entity) => {
                &&& exists|i: int|
                    0 <= i < carriers@.len() && (#[trigger] carriers@[i]).0 == entity
                        && carriers@[i].1@ == key@ && forall|j: int|
                        0 <= j < i ==> (#[trigger] carriers@[j]).1@ != key@
                &&& versions::key_was_cached(
                    old(session).cache,
                    entity,
                    key@,
                    final(session).cache,
                )
            },
            None => {
                &&& forall|i: int|
                    0 <= i < carriers@.len() ==> (#[trigger] carriers@[i]).1@ != key@
                &&& final(session).cache@ == old(session).cache@
            },
        },
        final(session).tracking == old(session).tracking,
        final(session).hydration_depth == old(session).hydration_depth,
{
    lemma_first_carrier(carriers@, key@);
    match r {
        Some(entity) => {
            if !(cached_alive && old(session).cache.guid_to_entity@.dom().contains(key@)) {
                versions::lemma_key_was_cached(
                    old(session).cache,
                    entity,
                    key@,
                    final(session).cache,
                );
            }
        },
        None => {},
    }
}

proof fn lemma_first_carrier(carriers: Seq<(Entity, String)>, key: Seq<char>)
    ensures
        match hydrate::first_carrier(carriers, key) {
            Some(entity) => exists|i: int|
                0 <= i < carriers.len() && (#[trigger] carriers[i]).0 == entity && carriers[i].1@
                    == key && forall|j: int| 0 <= j < i ==> (#[trigger] carriers[j]).1@ != key,
            None => forall|i: int| 0 <= i < carriers.len() ==> (#[trigger] carriers[i]).1@ != key,
        },
    decreases carriers.len(),
{
    if carriers.len() > 0 && carriers[0].1@ != key {
        let tail = carriers.skip(1);
        lemma_first_carrier(tail, key);
        match hydrate::first_carrier(tail, key) {
            Some(entity) => {
                let i = choose|i: int|
                    0 <= i < tail.len() && (#[trigger] tail[i]).0 == entity && tail[i].1@ == key
                        && forall|j: int| 0 <= j < i ==> (#[trigger] tail[j]).1@ != key;
                assert(carriers[i + 1] == tail[i]);
                assert forall|j: int| 0 <= j < i + 1 implies (
                #[trigger] carriers[j]).1@ != key by {
                    if j > 0 {
                        assert(tail[j - 1] == carriers[j]);
                    }
                }
            },
            None => {
                assert forall|j: int| 0 <= j < carriers.len() implies (
                #[trigger] carriers[j]).1@ != key by {
                    if j > 0 {
                        assert(tail[j - 1] == carriers[j]);
                    }
                }
            },
        }
    } else if carriers.len() > 0 {
        assert(carriers[0].1@ == key);
    }
}

/// An entity that was spawned for a key is cached under it.
pub proof fn law_spawned_entity_is_cached(
    session: &mut PersistenceSession,
    entity: Entity,
    key: &str,
)
    requires
        call_ensures(PersistenceSession::adopt_spawned_entity, (session, entity, key), ()),
    ensures
        versions::key_was_cached(old(session).cache, entity, key@, final(session).cache),
        final(session).tracking == old(session).tracking,
        final(session).hydration_depth == old(session).hydration_depth,
{
    versions::lemma_key_was_cached(old(session).cache, entity, key@, final(session).cache);
}

/// Hydration scopes: one is opened where none is open, and all are closed at once.
pub proof fn law_hydration_scopes(session: &mut PersistenceSession, closed: bool)
    ensures
        call_ensures(PersistenceSession::ensure_hydrating, (session,), ()) ==> opens_hydration(
            *old(session),
            *final(session),
        ) && final(session).cache == old(session).cache,
        call_ensures(PersistenceSession::finish_all_hydration, (session,), ()) ==> *final(session)
            == (PersistenceSession { hydration_depth: 0, ..*old(session) }),
        call_ensures(crate::plugin::tracking::finish_hydration, (session,), closed) ==> {
            &&& *final(session) == (PersistenceSession { hydration_depth: 0, ..*old(session) })
            &&& closed == (old(session).hydration_depth > 0)
        },
{
}

/// The key of a document is its key field, where that is a string.
pub proof fn law_document_key_is_its_field(doc: &Value, key_field: &str, r: Option<String>)
    requires
        call_ensures(document_key, (doc, key_field), r),
    ensures
        forall|key: Seq<char>| #[trigger]
            has_field(doc@, key_field@, Json::String(key)) ==> r is Some && r->0@ == key,
        r matches Some(key) ==> has_field(doc@, key_field@, Json::String(key@)),
{
}

/// A document gets its key exactly where it is an object that has no such field;
/// no other field of it changes.
pub proof fn law_document_gets_its_key(doc: Value, key_field: &str, key: &str, r: Value)
    requires
        call_ensures(document_with_key, (doc, key_field, key), r),
    ensures
        doc@ !is Object ==> r@ == doc@,
        forall|name: Seq<char>, value: Json|
            name != key_field@ ==> (#[trigger] has_field(r@, name, value) <==> has_field(
                doc@,
                name,
                value,
            )),
        forall|value: Json| #[trigger]
            has_field(doc@, key_field@, value) ==> has_field(r@, key_field@, value),
        doc@ is Object && !doc@->Object_0.dom().contains(key_field@) ==> has_field(
            r@,
            key_field@,
            Json::String(key@),
        ),
{
}

} // verus!
