//! What the attributes accept and expand to, and what a plugin starts with.
use vstd::prelude::*;
use vstd::string::*;

use crate::collections;
use crate::derive::crate_path::{get_crate_path, CrateName};
use crate::derive::db_matrix_test::{
    backend_test_name, check_test_fn, keeps_attribute, Backend,
};
use crate::derive::persist;
use crate::derive::persist::{
    expand, is_single_field_struct, item_ident, parse_persist_kind, read_single_field,
    single_field_name, write_single_field, Argument, BevyDerive, Expansion, Fields, ItemShape,
    PersistKind,
};
use crate::derive::{AttributeError, Place};
use crate::laws::load;
use crate::plugin::config::{
    PersistencePluginConfig, PersistencePluginCore, PersistencePlugins, PersistenceSystemSet,
};
use crate::session::state::PersistenceSession;
use crate::value::{Json, Value};

verus! {

/// What is wrong with one argument of the attribute, where something is.
pub open spec fn objection(arg: Argument) -> Option<Seq<char>> {
    match arg {
        Argument::Word(word) => if word@ == "component"@ || word@ == "resource"@ || word@
            == "relationship"@ {
            None
        } else {
            Some("expected `component`, `resource`, or `relationship`"@)
        },
        Argument::Path => Some("expected a simple ident"@),
        Argument::Other => Some("expected `component`, `resource`, or `relationship`"@),
    }
}

/// The outcome is an error at that place, with that message.
pub open spec fn complains<T>(
    r: Result<T, AttributeError>,
    place: Place,
    message: Seq<char>,
) -> bool {
    &&& r is Err
    &&& r->Err_0.place == place
    &&& r->Err_0.message@ == message
}

/// The attribute takes exactly one argument, and that is one of the three words.
pub proof fn law_persist_takes_one_kind(
    args: &Vec<Argument>,
    r: Result<PersistKind, AttributeError>,
)
    requires
        call_ensures(parse_persist_kind, (args,), r),
    ensures
        r is Ok <==> args@.len() == 1 && (args@[0] matches Argument::Word(word) && (word@
            == "component"@ || word@ == "resource"@ || word@ == "relationship"@)),
        r matches Ok(kind) ==> args@[0]->Word_0@ == match kind {
            PersistKind::Component => "component"@,
            PersistKind::Resource => "resource"@,
            PersistKind::Relationship => "relationship"@,
        },
        args@.len() == 0 ==> complains(
            r,
            Place::CallSite,
            "`#[persist]` requires `component`, `resource`, or `relationship`"@,
        ),
        args@.len() > 0 && objection(args@[0]) is Some ==> complains(
            r,
            Place::Argument(0),
            objection(args@[0])->0,
        ),
        args@.len() > 1 && objection(args@[0]) is None ==> complains(
            r,
            Place::Argument(1),
            match objection(args@[1]) {
                Some(message) => message,
                None =>
                    "`#[persist]` accepts exactly one of `component`, `resource`, or `relationship`"@,
            },
        ),
{
    persist::law_exactly_one_kind(args@);
    reveal_with_fuel(persist::parsed_kind, 3);
}

/// The fields of a struct are exactly one.
pub open spec fn has_one_field(fields: Fields) -> bool {
    match fields {
        Fields::Unit => false,
        Fields::Named(names) => names@.len() == 1,
        Fields::Unnamed(n) => n == 1,
    }
}

/// What the attribute expands to: the bevy trait of the kind; serde's traits
/// derived, or written out where there is one field; query methods for the named
/// fields; and functions named after the item. Only structs and enums are
/// accepted.
pub proof fn law_expansion_fits_the_item(
    kind: PersistKind,
    item: &ItemShape,
    many: bool,
    r: Result<Expansion, AttributeError>,
)
    requires
        call_ensures(expand, (kind, item, many), r),
    ensures
        *item is Other ==> complains(
            r,
            Place::Item,
            "`#[persist]` can only be applied to structs or enums"@,
        ),
        r is Err <==> *item is Other,
        r matches Ok(e) ==> {
            let name = match *item {
                ItemShape::Struct { name, .. } => name@,
                ItemShape::Enum { name } => name@,
                ItemShape::Other => Seq::empty(),
            };
            let single = *item matches ItemShape::Struct { fields, .. } && has_one_field(fields);
            &&& e.bevy == match kind {
                PersistKind::Component => BevyDerive::Component,
                PersistKind::Resource => BevyDerive::Resource,
                PersistKind::Relationship => BevyDerive::Nothing,
            }
            &&& e.gated <==> kind is Relationship
            &&& e.register_fn@ == "__persist_register_"@ + name
            &&& e.ctor_fn@ == "__persist_ctor_"@ + name
            &&& single ==> e.serde is Never
            &&& !single && (kind !is Relationship || *item is Enum) ==> e.serde is Always
            &&& !single && kind is Relationship && *item is Struct
                ==> e.serde is WithManyRelationships
            &&& e.single_field_serde is Some <==> single && (kind !is Relationship || many)
            &&& *item matches ItemShape::Struct { fields: Fields::Named(names), .. } ==> {
                &&& e.single_field_serde is Some ==> e.single_field_serde->0@ == names@[0]@
                &&& e.field_methods@.len() == names@.len()
                &&& forall|i: int|
                    0 <= i < names@.len() ==> (#[trigger] e.field_methods@[i])@ == names@[i]@
            }
            &&& *item matches ItemShape::Struct { fields: Fields::Unnamed(_), .. } ==> {
                &&& e.single_field_serde is Some ==> e.single_field_serde->0@ == "0"@
                &&& e.field_methods@.len() == 0
            }
            &&& *item matches ItemShape::Struct { fields: Fields::Unit, .. }
                ==> e.field_methods@.len() == 0
            &&& *item is Enum ==> e.field_methods@.len() == 0
        },
{
    match r {
        Ok(e) => {
            let methods = collections::texts(e.field_methods@);
            assert(methods.len() == e.field_methods@.len());
            match *item {
                ItemShape::Struct { fields: Fields::Named(names), .. } => {
                    assert forall|i: int| 0 <= i < names@.len() implies (
                    #[trigger] e.field_methods@[i])@ == names@[i]@ by {
                        assert(methods[i] == collections::texts(names@)[i]);
                    }
                },
                _ => {},
            }
        },
        Err(_) => {},
    }
}

/// The JSON of a struct with one field is an object with that field alone, and
/// reading it gives the field; a value without such a field stands for itself.
pub proof fn law_single_field_is_read_back(
    name: &str,
    value: Value,
    written: Value,
    stored: Value,
    read: Value,
)
    ensures
        call_ensures(write_single_field, (name, value), written) ==> {
            &&& load::has_field(written@, name@, value@)
            &&& forall|other: Seq<char>, v: Json|
                other != name@ ==> !(#[trigger] load::has_field(written@, other, v))
        },
        call_ensures(read_single_field, (stored, name), read) ==> {
            &&& forall|v: Json| #[trigger] load::has_field(stored@, name@, v) ==> read@ == v
            &&& (forall|v: Json| !(#[trigger] load::has_field(stored@, name@, v))) ==> read@
                == stored@
        },
        call_ensures(write_single_field, (name, value), written) && call_ensures(
            read_single_field,
            (written, name),
            read,
        ) ==> read@ == value@,
{
    if call_ensures(read_single_field, (stored, name), read) {
        match crate::value::field_of(stored@, name@) {
            Some(v) => {
                assert(load::has_field(stored@, name@, v));
            },
            None => {},
        }
    }
}

/// A matrix test takes no arguments, neither itself nor its function, and is not
/// async; the first of these that is broken is complained about.
pub proof fn law_matrix_test_is_checked(
    has_arguments: bool,
    inputs: usize,
    is_async: bool,
    r: Result<(), AttributeError>,
)
    requires
        call_ensures(check_test_fn, (has_arguments, inputs, is_async), r),
    ensures
        r is Ok <==> !has_arguments && inputs == 0 && !is_async,
        has_arguments ==> complains(
            r,
            Place::CallSite,
            "`#[db_matrix_test]` does not take arguments"@,
        ),
        !has_arguments && inputs > 0 ==> complains(
            r,
            Place::Inputs,
            "`#[db_matrix_test]` test functions must take no arguments"@,
        ),
        !has_arguments && inputs == 0 && is_async ==> complains(
            r,
            Place::Asyncness,
            "`#[db_matrix_test]` does not support async test functions"@,
        ),
{
}

/// The test of a backend is named after the test and the backend; of the
/// attributes only `test` is dropped.
pub proof fn law_backend_test_is_named(
    test: &str,
    backend: &Backend,
    name: String,
    word: Option<&str>,
    kept: bool,
)
    ensures
        call_ensures(backend_test_name, (test, backend), name) ==> name@ == test@ + "_"@ + match *backend {
            Backend::Arango => "db_arango"@,
            Backend::Postgres => "db_postgres"@,
        },
        call_ensures(keeps_attribute, (word,), kept) ==> (kept <==> !(word is Some && word->0@
            == "test"@)),
{
}

/// The path of this crate in generated code.
pub proof fn law_crate_path(found: &CrateName, path: String)
    requires
        call_ensures(get_crate_path, (found,), path),
    ensures
        match *found {
            CrateName::Itself => path@ == "crate"@,
            CrateName::Name(name) => path@ == "::"@ + name@,
            CrateName::Unknown => path@ == "::bevy_persistence_database"@,
        },
{
}

/// Loads are applied before changes are tracked, hydration ends after that, and
/// commits come last.
pub proof fn law_phases_are_in_order(phases: Vec<PersistenceSystemSet>)
    requires
        call_ensures(PersistenceSystemSet::chain, (), phases),
    ensures
        phases@ == seq![
            PersistenceSystemSet::LoadApply,
            PersistenceSystemSet::TrackChanges,
            PersistenceSystemSet::FinishHydration,
            PersistenceSystemSet::PreCommit,
            PersistenceSystemSet::Commit,
        ],
{
    assert(phases@[0].rank() == 0);
    assert(phases@[1].rank() == 1);
    assert(phases@[2].rank() == 2);
    assert(phases@[3].rank() == 3);
    assert(phases@[4].rank() == 4);
    assert(phases@ =~= seq![
        PersistenceSystemSet::LoadApply,
        PersistenceSystemSet::TrackChanges,
        PersistenceSystemSet::FinishHydration,
        PersistenceSystemSet::PreCommit,
        PersistenceSystemSet::Commit,
    ]);
}

/// A plugin keeps the connection and the configuration it was given; its session
/// starts with nothing tracked, cached or registered and the configured threshold.
pub proof fn law_plugin_keeps_its_configuration<C>(
    db: C,
    config: PersistencePluginConfig,
    plugins: PersistencePlugins<C>,
    core: PersistencePluginCore<C>,
    by_ref: &PersistencePluginConfig,
    threads: Option<usize>,
    session: PersistenceSession,
)
    ensures
        call_ensures(PersistencePlugins::<C>::build, (plugins,), core) ==> core.db == plugins.db
            && core.config == plugins.config,
        call_ensures(PersistencePluginConfig::pool_threads, (by_ref,), threads) ==> (threads is Some
            <==> by_ref.thread_count > 1) && (threads is Some ==> threads->0
            == by_ref.thread_count),
        call_ensures(PersistencePluginConfig::initial_session, (by_ref,), session) ==> {
            &&& session.compact_threshold_bytes == by_ref.compact_threshold_bytes
            &&& session.hydration_depth == 0
            &&& session.tracking.dirty_entity_components@.dom() == Set::<
                crate::session::Entity,
            >::empty()
            &&& session.tracking.dirty_resources@ == Set::<crate::session::TypeId>::empty()
            &&& session.cache.entity_keys@.dom() == Set::<crate::session::Entity>::empty()
            &&& session.cache.version_manager.entities@.dom() == Set::<Seq<char>>::empty()
            &&& session.cache.edge_snapshot@ == Set::<Seq<char>>::empty()
            &&& session.components.serializers@ == Set::<crate::session::TypeId>::empty()
            &&& session.resources.serializers@ == Set::<crate::session::TypeId>::empty()
            &&& session.relationships.serializers@ == Set::<crate::session::TypeId>::empty()
        },
        call_ensures(PersistencePluginConfig::default, (), config) ==> config.thread_count == 4
            && config.default_store@ == "default_store"@ && config.compact_threshold_bytes
            == 262144,
{
    if call_ensures(PersistencePluginConfig::initial_session, (by_ref,), session) {
        assert(session.tracking@.components.dom()
            =~= session.tracking.dirty_entity_components@.dom());
        assert(session.cache.entity_keys@.dom() =~= Set::empty());
        assert(session.cache.version_manager@.entities.dom() =~= Set::empty());
    }
}

/// The name of an item, and the only field of a struct.
pub proof fn law_item_and_field_are_named(
    item: &ItemShape,
    name: Option<&String>,
    fields: &Fields,
    b: bool,
    field: Option<String>,
    backend: &Backend,
    suffix: &'static str,
)
    ensures
        call_ensures(item_ident, (item,), name) ==> match *item {
            ItemShape::Struct { name: own, .. } => name is Some && name->0@ == own@,
            ItemShape::Enum { name: own } => name is Some && name->0@ == own@,
            ItemShape::Other => name is None,
        },
        call_ensures(is_single_field_struct, (fields,), b) ==> b == has_one_field(*fields),
        call_ensures(single_field_name, (fields,), field) ==> match *fields {
            Fields::Named(names) if names@.len() == 1 => field is Some && field->0@ == names@[0]@,
            Fields::Unnamed(1) => field is Some && field->0@ == "0"@,
            _ => field is None,
        },
        call_ensures(Backend::suffix, (backend,), suffix) ==> suffix@ == match *backend {
            Backend::Arango => "db_arango"@,
            Backend::Postgres => "db_postgres"@,
        },
{
}

/// A configuration replaces the default one and nothing else; a threshold is the
/// one that is read.
pub proof fn law_configuration_is_replaced<C>(
    db: C,
    config: PersistencePluginConfig,
    core: PersistencePluginCore<C>,
    new_core: PersistencePluginCore<C>,
    plugins: PersistencePlugins<C>,
    new_plugins: PersistencePlugins<C>,
    session: PersistenceSession,
    bytes: usize,
    new_session: PersistenceSession,
    read: usize,
)
    ensures
        call_ensures(PersistencePluginCore::<C>::new, (db,), core) ==> core.db == db
            && core.config.thread_count == 4 && core.config.default_store@ == "default_store"@
            && core.config.compact_threshold_bytes == 262144,
        call_ensures(PersistencePlugins::<C>::new, (db,), plugins) ==> plugins.db == db
            && plugins.config.thread_count == 4 && plugins.config.default_store@
            == "default_store"@ && plugins.config.compact_threshold_bytes == 262144,
        call_ensures(PersistencePluginCore::<C>::with_config, (core, config), new_core)
            ==> new_core.db == core.db && new_core.config == config,
        call_ensures(PersistencePlugins::<C>::with_config, (plugins, config), new_plugins)
            ==> new_plugins.db == plugins.db && new_plugins.config == config,
        call_ensures(
            PersistenceSession::with_compact_threshold,
            (session, bytes),
            new_session,
        ) && call_ensures(PersistenceSession::compact_threshold_bytes, (&new_session,), read) ==> {
            &&& read == bytes
            &&& new_session.tracking == session.tracking
            &&& new_session.cache == session.cache
            &&& new_session.components == session.components
            &&& new_session.resources == session.resources
            &&& new_session.relationships == session.relationships
            &&& new_session.hydration_depth == session.hydration_depth
        },
{
}

} // verus!
