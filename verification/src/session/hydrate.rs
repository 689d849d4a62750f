//! Load / hydrate persisted documents and resources into the world.
//!
//! The library decides which parts of a document are applied, which entity they
//! are applied to, and what is cached; the caller runs the deserializers and
//! changes the world.
use vstd::prelude::*;
use vstd::string::*;

use crate::collections;
use crate::db::connection;
use crate::session::cache::{CacheModel, PersistenceCache};
use crate::session::state::PersistenceSession;
use crate::session::tracking;
use crate::session::{Entity, TypeId};
use crate::value::{Json, Object, Value};
use crate::versioning::{VersionKey, Versions};

verus! {

/// The contents of named values, in order.
pub open spec fn named_values(fields: Seq<(String, Value)>) -> Seq<(Seq<char>, Json)> {
    fields.map_values(|f: (String, Value)| (f.0@, f.1@))
}

/// The names of `names` that can be read and are fields of the document, with
/// the fields, in order.
pub open spec fn readable_fields(
    session: PersistenceSession,
    doc: Json,
    names: Seq<Seq<char>>,
) -> Seq<(Seq<char>, Json)>
    decreases names.len(),
{
    if names.len() == 0 {
        Seq::empty()
    } else {
        let rest = readable_fields(session, doc, names.drop_last());
        match crate::value::field_of(doc, names.last()) {
            Some(value) => if session.components.deserializers@.contains(names.last()) {
                rest.push((names.last(), value))
            } else {
                rest
            },
            None => rest,
        }
    }
}

/// The texts of string slices, in order.
pub open spec fn slice_texts(names: Seq<&str>) -> Seq<Seq<char>> {
    names.map_values(|s: &str| s@)
}

/// The fields of a document that are applied to an entity: the requested ones,
/// or all registered ones where none is requested.
pub open spec fn document_fields(
    session: PersistenceSession,
    doc: Json,
    requested: Seq<Seq<char>>,
) -> Seq<(Seq<char>, Json)> {
    if requested.len() > 0 {
        readable_fields(session, doc, requested)
    } else {
        readable_fields(session, doc, session.components.deserializers.order())
    }
}

/// With a hydration scope open.
pub open spec fn hydrating_now(session: PersistenceSession) -> PersistenceSession {
    PersistenceSession {
        hydration_depth: if session.hydration_depth == 0 {
            1
        } else {
            session.hydration_depth
        },
        ..session
    }
}

/// Nothing but the hydration scope and the cached versions differs, and these
/// are as given.
pub open spec fn loaded(
    before: PersistenceSession,
    after: PersistenceSession,
    versions: Versions,
) -> bool {
    &&& after.cache.version_manager@ == versions
    &&& after == hydrating_now(
        PersistenceSession {
            cache: PersistenceCache {
                version_manager: after.cache.version_manager,
                ..before.cache
            },
            ..before
        },
    )
}

/// What a look for a resource in the store leads to.
pub enum ResourceLoad {
    /// The resource is not in the store.
    Absent,
    /// The resource is in the store, but nothing can read it.
    Unreadable,
    /// The value is to be inserted into the world.
    Apply(Value),
}

impl PersistenceSession {
    /// Open a hydration scope if one is not already active.
    pub fn ensure_hydrating(&mut self)
        ensures
            old(self).wf() ==> final(self).wf(),
            *final(self) == hydrating_now(*old(self)),
    {
        if self.hydration_depth == 0 {
            self.hydration_depth = 1;
        }
    }

    /// Close all hydration scopes opened during load this frame.
    pub fn finish_all_hydration(&mut self)
        ensures
            old(self).wf() ==> final(self).wf(),
            *final(self) == (PersistenceSession { hydration_depth: 0, ..*old(self) }),
    {
        self.hydration_depth = 0;
    }

    /// Begins to load one component. The value is to be inserted where the
    /// answer is `true`; a name that is not registered is passed over.
    pub fn hydrate_entity_component(&mut self, comp_name: &str) -> (apply: bool)
        ensures
            old(self).wf() ==> final(self).wf(),
            *final(self) == hydrating_now(*old(self)),
            apply == old(self).components.deserializers@.contains(comp_name@),
    {
        self.ensure_hydrating();
        self.components.deserializers.contains(comp_name)
    }

    /// Begins to load one resource. The value is to be inserted where the
    /// answer is `true`; a name that is not registered is passed over.
    pub fn hydrate_resource(&mut self, res_name: &str) -> (apply: bool)
        ensures
            old(self).wf() ==> final(self).wf(),
            *final(self) == hydrating_now(*old(self)),
            apply == old(self).resources.deserializers@.contains(res_name@),
    {
        self.ensure_hydrating();
        self.resources.deserializers.contains(res_name)
    }

    /// Loads one persisted resource that was looked for in the store: caches
    /// its version, opens a hydration scope, and says what to insert. Nothing
    /// changes where the store does not have it.
    pub fn materialize_resource(&mut self, res_name: &str, fetched: Option<(Value, u64)>) -> (load:
        ResourceLoad)
        ensures
            old(self).wf() ==> final(self).wf(),
            match fetched {
                None => load is Absent && *final(self) == *old(self),
                Some((value, version)) => {
                    &&& loaded(
                        *old(self),
                        *final(self),
                        match old(self).resources.names@.type_of(res_name@) {
                            Some(type_id) => old(self).cache.version_manager@.set_resource(
                                type_id,
                                version,
                            ),
                            None => old(self).cache.version_manager@,
                        },
                    )
                    &&& load == if old(self).resources.deserializers@.contains(res_name@) {
                        ResourceLoad::Apply(value)
                    } else {
                        ResourceLoad::Unreadable
                    }
                },
            },
    {
        match fetched {
            None => ResourceLoad::Absent,
            Some((value, version)) => {
                match self.resource_type_id(res_name) {
                    Some(type_id) => {
                        self.cache.version_manager.set_version(
                            VersionKey::Resource(type_id),
                            version,
                        );
                    },
                    None => {},
                }
                if self.hydrate_resource(res_name) {
                    ResourceLoad::Apply(value)
                } else {
                    ResourceLoad::Unreadable
                }
            },
        }
    }

    /// Begins to load one entity document into a known entity: the fields to
    /// insert, in order. With no names given these are all registered fields
    /// that the document has.
    pub fn hydrate_entity_document(&mut self, doc: &Value, component_names: &[&str]) -> (fields:
        Vec<(String, Value)>)
        requires
            old(self).wf(),
        ensures
            final(self).wf(),
            *final(self) == hydrating_now(*old(self)),
            named_values(fields@) == document_fields(
                *old(self),
                doc@,
                slice_texts(component_names@),
            ),
    {
        self.ensure_hydrating();
        let mut fields: Vec<(String, Value)> = Vec::new();
        assert(named_values(fields@) =~= Seq::empty());
        if component_names.len() > 0 {
            let ghost names = slice_texts(component_names@);
            let mut i: usize = 0;
            while i < component_names.len()
                invariant
                    i <= component_names@.len(),
                    names == slice_texts(component_names@),
                    named_values(fields@) == readable_fields(*self, doc@, names.take(i as int)),
                decreases component_names@.len() - i,
            {
                assert(names.take(i + 1).drop_last() =~= names.take(i as int));
                assert(names.take(i + 1).last() == component_names@[i as int]@);
                self.push_field(doc, component_names[i], &mut fields);
                i = i + 1;
            }
            assert(names.take(i as int) =~= names);
        } else {
            let count: usize = self.components.deserializers.len();
            let ghost names = self.components.deserializers.order();
            let mut i: usize = 0;
            while i < count
                invariant
                    i <= count,
                    count == names.len(),
                    names == self.components.deserializers.order(),
                    named_values(fields@) == readable_fields(*self, doc@, names.take(i as int)),
                decreases count - i,
            {
                assert(names.take(i + 1).drop_last() =~= names.take(i as int));
                let name: &String = self.components.deserializers.get(i);
                self.push_field(doc, name.as_str(), &mut fields);
                i = i + 1;
            }
            assert(names.take(i as int) =~= names);
        }
        assert(readable_fields(*self, doc@, slice_texts(component_names@)) == readable_fields(
            *old(self),
            doc@,
            slice_texts(component_names@),
        )) by {
            lemma_readable_fields_same(*old(self), *self, doc@, slice_texts(component_names@));
        }
        proof {
            lemma_readable_fields_same(
                *old(self),
                *self,
                doc@,
                self.components.deserializers.order(),
            );
        }
        fields
    }

    /// Adds the field of that name, where it can be read and is there.
    fn push_field(&self, doc: &Value, name: &str, fields: &mut Vec<(String, Value)>)
        ensures
            named_values(final(fields)@) == match crate::value::field_of(doc@, name@) {
                Some(value) => if self.components.deserializers@.contains(name@) {
                    named_values(old(fields)@).push((name@, value))
                } else {
                    named_values(old(fields)@)
                },
                None => named_values(old(fields)@),
            },
    {
        let ghost before = fields@;
        match doc.get(name) {
            Some(value) => {
                if self.components.deserializers.contains(name) {
                    fields.push((name.to_owned(), value.clone()));
                    assert(named_values(fields@) =~= named_values(before).push((name@, value@)));
                }
            },
            None => {},
        }
    }

    /// The entity for a key, without spawning one.
    ///
    /// `cached_alive` tells whether the entity cached under the key (see
    /// [`Self::entity_by_key`]) is still in the world. Where it is not, the
    /// first of the given carriers of a GUID that carries the key is taken and
    /// cached: entities may carry a GUID without being indexed yet (e.g. spawned
    /// before the session was attached).
    pub fn resolve_entity_for_key(
        &mut self,
        key: &str,
        cached_alive: bool,
        carriers: &Vec<(Entity, String)>,
    ) -> (r: Option<Entity>)
        requires
            old(self).wf(),
        ensures
            final(self).wf(),
            r == resolved(old(self).cache@, key@, cached_alive, carriers@),
            *final(self) == (PersistenceSession { cache: final(self).cache, ..*old(self) }),
            final(self).cache@ == match resolved(
                old(self).cache@,
                key@,
                cached_alive,
                carriers@,
            ) {
                Some(entity) => if cached_alive && old(self).cache@.entity_of(key@) is Some {
                    old(self).cache@
                } else {
                    old(self).cache@.with_key(entity, key@)
                },
                None => old(self).cache@,
            },
    {
        match self.entity_by_key(key) {
            Some(entity) => {
                if cached_alive {
                    return Some(entity);
                }
            },
            None => {},
        }
        let mut i: usize = 0;
        assert(carriers@.skip(0) =~= carriers@);
        while i < carriers.len()
            invariant
                i <= carriers@.len(),
                self.wf(),
                *self == *old(self),
                !(cached_alive && old(self).cache@.entity_of(key@) is Some),
                first_carrier(carriers@, key@) == first_carrier(carriers@.skip(i as int), key@),
            decreases carriers@.len() - i,
        {
            assert(carriers@.skip(i as int)[0] == carriers@[i as int]);
            assert(carriers@.skip(i as int).skip(1) =~= carriers@.skip(i + 1));
            if carriers[i].1.as_str().eq(key) {
                let entity: Entity = carriers[i].0;
                self.insert_entity_key(entity, key.to_owned());
                return Some(entity);
            }
            i = i + 1;
        }
        None
    }

    /// Caches the key of an entity that was spawned for it.
    pub fn adopt_spawned_entity(&mut self, entity: Entity, key: &str)
        requires
            old(self).wf(),
        ensures
            final(self).wf(),
            *final(self) == (PersistenceSession { cache: final(self).cache, ..*old(self) }),
            final(self).cache@ == old(self).cache@.with_key(entity, key@),
    {
        self.insert_entity_key(entity, key.to_owned());
    }

    /// Begins to load one entity document into the entity resolved for its key:
    /// caches its version (1 where it gives none), opens a hydration scope, and
    /// says which fields to insert. An entity that was there before is left
    /// alone unless it may be overwritten.
    pub fn materialize_entity_document(
        &mut self,
        key: &str,
        existed: bool,
        doc: &Value,
        component_names: &[&str],
        allow_overwrite: bool,
    ) -> (fields: Vec<(String, Value)>)
        requires
            old(self).wf(),
        ensures
            final(self).wf(),
            if existed && !allow_overwrite {
                fields@.len() == 0 && *final(self) == *old(self)
            } else {
                &&& loaded(
                    *old(self),
                    *final(self),
                    old(self).cache.version_manager@.set_entity(
                        key@,
                        match connection::version_of(doc@) {
                            Some(version) => version,
                            None => 1,
                        },
                    ),
                )
                &&& named_values(fields@) == document_fields(
                    *old(self),
                    doc@,
                    slice_texts(component_names@),
                )
            },
    {
        if existed && !allow_overwrite {
            return Vec::new();
        }
        let version: u64 = match connection::read_version(doc) {
            Some(version) => version,
            None => 1,
        };
        self.load_entity_document(key, version, doc, component_names)
    }

    /// Begins to load an entity document whose version was fetched with it.
    pub fn load_entity_document(
        &mut self,
        key: &str,
        version: u64,
        doc: &Value,
        component_names: &[&str],
    ) -> (fields: Vec<(String, Value)>)
        requires
            old(self).wf(),
        ensures
            final(self).wf(),
            loaded(
                *old(self),
                *final(self),
                old(self).cache.version_manager@.set_entity(key@, version),
            ),
            named_values(fields@) == document_fields(
                *old(self),
                doc@,
                slice_texts(component_names@),
            ),
    {
        let ghost before = *self;
        self.cache.version_manager.set_version(VersionKey::Entity(key.to_owned()), version);
        proof {
            let names = slice_texts(component_names@);
            lemma_readable_fields_same(before, *self, doc@, names);
            lemma_readable_fields_same(
                before,
                *self,
                doc@,
                before.components.deserializers.order(),
            );
        }
        self.hydrate_entity_document(doc, component_names)
    }

    /// Begins to load what the store has of the document of an entity: its
    /// version is cached and its fields are to be inserted. Nothing changes
    /// where the store does not have it.
    pub fn insert_fetched_document(
        &mut self,
        key: &str,
        fetched: Option<(Value, u64)>,
        component_names: &[&str],
    ) -> (fields: Vec<(String, Value)>)
        requires
            old(self).wf(),
        ensures
            final(self).wf(),
            match fetched {
                None => fields@.len() == 0 && *final(self) == *old(self),
                Some((doc, version)) => {
                    &&& loaded(
                        *old(self),
                        *final(self),
                        old(self).cache.version_manager@.set_entity(key@, version),
                    )
                    &&& named_values(fields@) == document_fields(
                        *old(self),
                        doc@,
                        slice_texts(component_names@),
                    )
                },
            },
    {
        match fetched {
            None => Vec::new(),
            Some((doc, version)) => self.load_entity_document(key, version, &doc, component_names),
        }
    }

    /// Begins to load all persisted resources: their names, each once.
    pub fn begin_resource_load(&mut self) -> (names: Vec<String>)
        requires
            old(self).wf(),
        ensures
            final(self).wf(),
            *final(self) == hydrating_now(*old(self)),
            collections::texts(names@) == old(self).resources.deserializers.order(),
            collections::texts(names@).no_duplicates(),
            collections::texts(names@).to_set() == old(self).resources.deserializers@,
    {
        let count: usize = self.resources.deserializers.len();
        let ghost order = self.resources.deserializers.order();
        let mut names: Vec<String> = Vec::new();
        let mut i: usize = 0;
        assert(collections::texts(names@) =~= order.take(0));
        while i < count
            invariant
                i <= count,
                count == order.len(),
                order == self.resources.deserializers.order(),
                collections::texts(names@) == order.take(i as int),
            decreases count - i,
        {
            let ghost before = names@;
            let name: &String = self.resources.deserializers.get(i);
            names.push(name.clone());
            assert(collections::texts(names@) =~= collections::texts(before).push(name@));
            assert(order.take(i + 1) =~= order.take(i as int).push(order[i as int]));
            i = i + 1;
        }
        assert(order.take(i as int) =~= order);
        proof {
            self.resources.deserializers.lemma_order();
        }
        self.ensure_hydrating();
        names
    }

    /// Begins to apply relationship targets. They are to be applied where the
    /// answer is `true`; a type that cannot be applied is passed over.
    pub fn apply_relationship_targets(&mut self, type_id: TypeId) -> (apply: bool)
        ensures
            old(self).wf() ==> final(self).wf(),
            *final(self) == hydrating_now(*old(self)),
            apply == old(self).relationships.deserializers@.contains(type_id),
    {
        broadcast use vstd::std_specs::hash::group_hash_axioms;

        self.ensure_hydrating();
        self.relationships.deserializers.contains(&type_id)
    }
}

proof fn lemma_readable_fields_same(
    before: PersistenceSession,
    after: PersistenceSession,
    doc: Json,
    names: Seq<Seq<char>>,
)
    requires
        after.components == before.components,
    ensures
        readable_fields(after, doc, names) == readable_fields(before, doc, names),
    decreases names.len(),
{
    if names.len() > 0 {
        lemma_readable_fields_same(before, after, doc, names.drop_last());
    }
}

/// A registered component that a document has under its name is among the
/// fields that a load inserts, wherever its name is asked for.
pub proof fn law_stored_component_is_loaded(
    session: PersistenceSession,
    doc: Json,
    names: Seq<Seq<char>>,
    name: Seq<char>,
    value: Json,
)
    requires
        names.contains(name),
        session.components.deserializers@.contains(name),
        crate::value::field_of(doc, name) == Some(value),
    ensures
        readable_fields(session, doc, names).contains((name, value)),
    decreases names.len(),
{
    let i = choose|i: int| 0 <= i < names.len() && names[i] == name;
    let head = names.drop_last();
    let rest = readable_fields(session, doc, head);
    let all = readable_fields(session, doc, names);
    if i < head.len() {
        assert(head[i] == name);
        law_stored_component_is_loaded(session, doc, head, name, value);
        let j = choose|j: int| 0 <= j < rest.len() && rest[j] == (name, value);
        assert(all[j] == (name, value));
    } else {
        assert(all[rest.len() as int] == (name, value));
    }
}

/// The first entity that carries the GUID.
pub open spec fn first_carrier(carriers: Seq<(Entity, String)>, key: Seq<char>) -> Option<Entity>
    decreases carriers.len(),
{
    if carriers.len() == 0 {
        None
    } else if carriers[0].1@ == key {
        Some(carriers[0].0)
    } else {
        first_carrier(carriers.skip(1), key)
    }
}

/// The entity for a key: the cached one where it is alive, or else the first
/// that carries the key.
pub open spec fn resolved(
    cache: CacheModel,
    key: Seq<char>,
    cached_alive: bool,
    carriers: Seq<(Entity, String)>,
) -> Option<Entity> {
    if cached_alive && cache.entity_of(key) is Some {
        cache.entity_of(key)
    } else {
        first_carrier(carriers, key)
    }
}

/// The key that a document gives, where it gives one as a string.
pub fn document_key(doc: &Value, key_field: &str) -> (r: Option<String>)
    ensures
        match r {
            Some(key) => crate::value::text_field_of(doc@, key_field@) == Some(key@),
            None => crate::value::text_field_of(doc@, key_field@) is None,
        },
{
    match doc.get(key_field) {
        Some(field) => match field.as_str() {
            Some(key) => Some(key.to_owned()),
            None => None,
        },
        None => None,
    }
}

/// The document with its key, where it is an object that has no field of that name.
pub open spec fn keyed_document(doc: Json, key_field: Seq<char>, key: Seq<char>) -> Json {
    match doc {
        Json::Object(fields) => if fields.dom().contains(key_field) {
            doc
        } else {
            Json::Object(fields.insert(key_field, Json::String(key)))
        },
        _ => doc,
    }
}

/// Puts the key into a document that was stored without it (for example
/// relationship target fetches).
pub fn document_with_key(doc: Value, key_field: &str, key: &str) -> (r: Value)
    ensures
        r@ == keyed_document(doc@, key_field@, key@),
{
    match doc {
        Value::Object(fields) => {
            if fields.get(key_field).is_none() {
                let mut fields: Object = fields;
                fields.insert(key_field.to_owned(), Value::String(key.to_owned()));
                Value::Object(fields)
            } else {
                Value::Object(fields)
            }
        },
        other => other,
    }
}

/// Loading a document whose key is known finds that key in it, unless the
/// document is no object or already has a field of that name.
pub proof fn law_keyed_document_has_key(doc: Json, key_field: Seq<char>, key: Seq<char>)
    requires
        doc is Object,
        crate::value::field_of(doc, key_field) is None,
    ensures
        crate::value::text_field_of(keyed_document(doc, key_field, key), key_field) == Some(key),
{
}

/// An entity that was resolved by its GUID, or spawned for a key, is found in
/// the cache the next time.
pub proof fn law_resolved_entity_is_cached(
    cache: CacheModel,
    key: Seq<char>,
    entity: Entity,
    carriers: Seq<(Entity, String)>,
)
    ensures
        resolved(cache.with_key(entity, key), key, true, carriers) == Some(entity),
{
}

/// Loading leaves no trace in the change tracking: while a hydration scope is
/// open, neither components added in the same frame nor resources nor
/// relationships that change detection reports are marked.
pub proof fn law_hydration_suppresses_tracking(
    session: PersistenceSession,
    entity: Entity,
    type_id: TypeId,
)
    ensures
        tracking::tracked_component(hydrating_now(session), entity, type_id, true)
            == session.tracking@,
        tracking::tracked_resource(hydrating_now(session), type_id) == session.tracking@,
        tracking::tracked_relationship(hydrating_now(session), entity) == session.tracking@,
{
}

/// A component that was there before is marked when it changes, even while
/// something is being loaded; once the scopes are closed every change is marked.
pub proof fn law_changes_after_load_are_tracked(
    session: PersistenceSession,
    entity: Entity,
    type_id: TypeId,
    added: bool,
)
    requires
        session.hydration_depth == 0,
    ensures
        tracking::tracked_component(
            hydrating_now(session),
            entity,
            type_id,
            false,
        ).components_of(entity).contains(type_id),
        tracking::tracked_component(session, entity, type_id, added).components_of(
            entity,
        ).contains(type_id),
        tracking::tracked_resource(session, type_id).resources.contains(type_id),
        tracking::tracked_relationship(session, entity).relationships.contains(entity),
{
}

} // verus!
