//! Which component, resource and relationship types are persisted, and under
//! which names.
use std::collections::{HashMap, HashSet};

use vstd::hash_map::StringHashMap;
use vstd::prelude::*;
use vstd::string::*;

use crate::collections;
use crate::collections::KeySet;
use crate::session::cache;
use crate::session::state::PersistenceSession;
use crate::session::TypeId;

verus! {

broadcast use {vstd::std_specs::hash::group_hash_axioms, vstd::hash_map::group_hash_map_axioms};

/// The names of registered types, in both directions.
pub struct TypeNames {
    pub type_id_to_name: HashMap<TypeId, String>,
    pub name_to_type_id: StringHashMap<TypeId>,
}

/// The mathematical content of [`TypeNames`].
#[verifier::ext_equal]
pub struct NamesModel {
    pub names: Map<TypeId, Seq<char>>,
    pub type_ids: Map<Seq<char>, TypeId>,
}

impl NamesModel {
    /// No type has a name.
    pub open spec fn none() -> Self {
        NamesModel { names: Map::empty(), type_ids: Map::empty() }
    }

    /// With `name` for the type.
    pub open spec fn insert(self, type_id: TypeId, name: Seq<char>) -> Self {
        NamesModel {
            names: self.names.insert(type_id, name),
            type_ids: self.type_ids.insert(name, type_id),
        }
    }

    /// The name of a type.
    pub open spec fn name_of(self, type_id: TypeId) -> Option<Seq<char>> {
        if self.names.dom().contains(type_id) {
            Some(self.names[type_id])
        } else {
            None
        }
    }

    /// The type of a name.
    pub open spec fn type_of(self, name: Seq<char>) -> Option<TypeId> {
        if self.type_ids.dom().contains(name) {
            Some(self.type_ids[name])
        } else {
            None
        }
    }
}

impl View for TypeNames {
    type V = NamesModel;

    open spec fn view(&self) -> NamesModel {
        NamesModel {
            names: cache::key_texts(self.type_id_to_name@),
            type_ids: self.name_to_type_id@,
        }
    }
}

impl TypeNames {
    /// No type has a name.
    pub fn new() -> (r: Self)
        ensures
            r@ == NamesModel::none(),
    {
        let r = TypeNames {
            type_id_to_name: HashMap::new(),
            name_to_type_id: StringHashMap::new(),
        };
        assert(r@.names =~= Map::empty());
        r
    }

    /// Gives the type that name.
    pub fn insert_name_maps(&mut self, type_id: TypeId, name: &str)
        ensures
            final(self)@ == old(self)@.insert(type_id, name@),
    {
        let ghost before = self@;
        self.type_id_to_name.insert(type_id, name.to_owned());
        self.name_to_type_id.insert(name.to_owned(), type_id);
        assert(self@.names =~= before.names.insert(type_id, name@));
    }

    /// The name of a type.
    pub fn name_of(&self, type_id: TypeId) -> (r: Option<&String>)
        ensures
            match r {
                Some(name) => self@.name_of(type_id) == Some(name@),
                None => self@.name_of(type_id) is None,
            },
    {
        self.type_id_to_name.get(&type_id)
    }

    /// The type of a name.
    pub fn type_of(&self, name: &str) -> (r: Option<TypeId>)
        ensures
            r == self@.type_of(name@),
    {
        match self.name_to_type_id.get(name) {
            Some(type_id) => Some(*type_id),
            None => None,
        }
    }
}

/// Persisted component types.
pub struct ComponentRegistry {
    /// Types that can be written.
    pub serializers: HashSet<TypeId>,
    /// Names that can be read.
    pub deserializers: KeySet,
    pub names: TypeNames,
    /// Names whose presence on an entity can be asked.
    pub presence: KeySet,
}

/// Persisted resource types.
pub struct ResourceRegistry {
    /// Types that can be written.
    pub serializers: HashSet<TypeId>,
    /// Names that can be read.
    pub deserializers: KeySet,
    pub names: TypeNames,
    /// Types that can be removed from the world.
    pub removers: HashSet<TypeId>,
    /// Types whose presence in the world can be asked.
    pub presence: HashSet<TypeId>,
    pub last_seen_present: HashMap<TypeId, bool>,
}

/// Persisted relationship types.
pub struct RelationshipRegistry {
    /// Types whose edges can be extracted.
    pub serializers: HashSet<TypeId>,
    /// Types whose edges can be applied to the world.
    pub deserializers: HashSet<TypeId>,
    pub names: TypeNames,
}

impl ComponentRegistry {
    pub open spec fn wf(&self) -> bool {
        &&& self.deserializers.wf()
        &&& self.presence.wf()
    }

    /// No component type is persisted.
    pub fn new() -> (r: Self)
        ensures
            r.wf(),
            r.serializers@ == Set::<TypeId>::empty(),
            r.deserializers@ == Set::<Seq<char>>::empty(),
            r.deserializers.order() == Seq::<Seq<char>>::empty(),
            r.names@ == NamesModel::none(),
            r.presence@ == Set::<Seq<char>>::empty(),
    {
        ComponentRegistry {
            serializers: HashSet::new(),
            deserializers: KeySet::new(),
            names: TypeNames::new(),
            presence: KeySet::new(),
        }
    }
}

impl ResourceRegistry {
    pub open spec fn wf(&self) -> bool {
        self.deserializers.wf()
    }

    /// Whether a resource was seen in the world, as last noted.
    pub open spec fn was_present(&self, type_id: TypeId) -> bool {
        self.last_seen_present@.dom().contains(type_id) && self.last_seen_present@[type_id]
    }

    /// No resource type is persisted.
    pub fn new() -> (r: Self)
        ensures
            r.wf(),
            r.serializers@ == Set::<TypeId>::empty(),
            r.deserializers@ == Set::<Seq<char>>::empty(),
            r.deserializers.order() == Seq::<Seq<char>>::empty(),
            r.names@ == NamesModel::none(),
            r.removers@ == Set::<TypeId>::empty(),
            r.presence@ == Set::<TypeId>::empty(),
            r.last_seen_present@ == Map::<TypeId, bool>::empty(),
    {
        ResourceRegistry {
            serializers: HashSet::new(),
            deserializers: KeySet::new(),
            names: TypeNames::new(),
            removers: HashSet::new(),
            presence: HashSet::new(),
            last_seen_present: HashMap::new(),
        }
    }
}

impl RelationshipRegistry {
    /// No relationship type is persisted.
    pub fn new() -> (r: Self)
        ensures
            r.serializers@ == Set::<TypeId>::empty(),
            r.deserializers@ == Set::<TypeId>::empty(),
            r.names@ == NamesModel::none(),
    {
        RelationshipRegistry {
            serializers: HashSet::new(),
            deserializers: HashSet::new(),
            names: TypeNames::new(),
        }
    }
}

/// A type that was given a name is found under it, and has it; the names of
/// other types and the types of other names stay as they were.
pub proof fn law_registered_name_is_found(
    before: NamesModel,
    type_id: TypeId,
    name: Seq<char>,
    other_type: TypeId,
    other_name: Seq<char>,
)
    requires
        other_type != type_id,
        other_name != name,
    ensures
        before.insert(type_id, name).name_of(type_id) == Some(name),
        before.insert(type_id, name).type_of(name) == Some(type_id),
        before.insert(type_id, name).name_of(other_type) == before.name_of(other_type),
        before.insert(type_id, name).type_of(other_name) == before.type_of(other_name),
{
}

impl PersistenceSession {
    /// Registers a component type for persistence using an explicit collection name.
    ///
    /// The name is the field of an entity document that holds the component. A
    /// type that is registered again under another name is written under the
    /// later name, and still read under both.
    pub fn register_component_named(&mut self, type_id: TypeId, name: &str)
        requires
            old(self).wf(),
        ensures
            final(self).wf(),
            *final(self) == (PersistenceSession { components: final(self).components, ..*old(self) }),
            final(self).components.names@ == old(self).components.names@.insert(type_id, name@),
            final(self).components.serializers@ == old(self).components.serializers@.insert(
                type_id,
            ),
            final(self).components.deserializers@ == old(self).components.deserializers@.insert(
                name@,
            ),
            final(self).components.presence@ == old(self).components.presence@.insert(name@),
    {
        self.components.names.insert_name_maps(type_id, name);
        self.components.presence.insert(name.to_owned());
        self.components.serializers.insert(type_id);
        self.components.deserializers.insert(name.to_owned());
    }

    /// Registers a resource type for persistence using an explicit collection name.
    ///
    /// The name is the key of the resource's document.
    pub fn register_resource_named(&mut self, type_id: TypeId, name: &str)
        requires
            old(self).wf(),
        ensures
            final(self).wf(),
            *final(self) == (PersistenceSession { resources: final(self).resources, ..*old(self) }),
            final(self).resources.names@ == old(self).resources.names@.insert(type_id, name@),
            final(self).resources.serializers@ == old(self).resources.serializers@.insert(type_id),
            final(self).resources.deserializers@ == old(self).resources.deserializers@.insert(
                name@,
            ),
            final(self).resources.presence@ == old(self).resources.presence@.insert(type_id),
            final(self).resources.removers@ == old(self).resources.removers@.insert(type_id),
            final(self).resources.last_seen_present@ == old(self).resources.last_seen_present@,
    {
        self.resources.names.insert_name_maps(type_id, name);
        self.resources.presence.insert(type_id);
        self.resources.serializers.insert(type_id);
        self.resources.deserializers.insert(name.to_owned());
        self.resources.removers.insert(type_id);
    }

    /// Register a relationship type for edge persistence.
    pub fn register_relationship(&mut self, type_id: TypeId, name: &str)
        ensures
            old(self).wf() ==> final(self).wf(),
            *final(self) == (PersistenceSession {
                relationships: final(self).relationships,
                ..*old(self)
            }),
            final(self).relationships.names@ == old(self).relationships.names@.insert(
                type_id,
                name@,
            ),
            final(self).relationships.serializers@ == old(self).relationships.serializers@.insert(
                type_id,
            ),
            final(self).relationships.deserializers@ == old(self).relationships.deserializers@,
    {
        self.relationships.names.insert_name_maps(type_id, name);
        self.relationships.serializers.insert(type_id);
    }

    /// Register that edges of a relationship type can be applied to the world.
    pub fn register_relationship_loader(&mut self, type_id: TypeId)
        ensures
            old(self).wf() ==> final(self).wf(),
            *final(self) == (PersistenceSession {
                relationships: final(self).relationships,
                ..*old(self)
            }),
            final(self).relationships.names@ == old(self).relationships.names@,
            final(self).relationships.serializers@ == old(self).relationships.serializers@,
            final(self).relationships.deserializers@
                == old(self).relationships.deserializers@.insert(type_id),
    {
        self.relationships.deserializers.insert(type_id);
    }

    /// The version cached for a persisted resource.
    pub fn resource_version(&self, type_id: TypeId) -> (r: Option<u64>)
        ensures
            r == self.cache.version_manager@.resource(type_id),
    {
        match self.cache.version_manager.resources.get(&type_id) {
            Some(v) => Some(*v),
            None => None,
        }
    }

    /// Lookup the registered type for a persisted resource by name.
    pub fn resource_type_id(&self, name: &str) -> (r: Option<TypeId>)
        ensures
            r == self.resources.names@.type_of(name@),
    {
        self.resources.names.type_of(name)
    }

    /// All registered persisted resource types, each once.
    /// Useful for cleanup operations like conflict reprocessing.
    pub fn persisted_resource_types(&self) -> (types: Vec<TypeId>)
        ensures
            types@.no_duplicates(),
            types@.to_set() == self.resources.serializers@,
    {
        collections::members(&self.resources.serializers)
    }

    /// The name under which a resource type is persisted.
    pub fn resource_name_for_type(&self, type_id: TypeId) -> (r: Option<&String>)
        ensures
            match r {
                Some(name) => self.resources.names@.name_of(type_id) == Some(name@),
                None => self.resources.names@.name_of(type_id) is None,
            },
    {
        self.resources.names.name_of(type_id)
    }

    /// Returns the number of registered persisted resources.
    pub fn persisted_resource_count(&self) -> (n: usize)
        ensures
            n == self.resources.removers@.len(),
    {
        self.resources.removers.len()
    }

    /// The resource types that a removal of all persisted resources takes out
    /// of the world, each once.
    pub fn removable_resource_types(&self) -> (types: Vec<TypeId>)
        ensures
            types@.no_duplicates(),
            types@.to_set() == self.resources.removers@,
    {
        collections::members(&self.resources.removers)
    }

    /// Each registered resource type with whether it is among those present.
    pub fn resource_presence_snapshot(&self, present: &HashSet<TypeId>) -> (snapshot: Vec<
        (TypeId, bool),
    >)
        ensures
            snapshot@.map_values(|p: (TypeId, bool)| p.0).no_duplicates(),
            snapshot@.map_values(|p: (TypeId, bool)| p.0).to_set() == self.resources.presence@,
            forall|i: int|
                0 <= i < snapshot@.len() ==> (#[trigger] snapshot@[i]).1 == present@.contains(
                    snapshot@[i].0,
                ),
    {
        let types: Vec<TypeId> = collections::members(&self.resources.presence);
        let mut snapshot: Vec<(TypeId, bool)> = Vec::new();
        let mut i: usize = 0;
        while i < types.len()
            invariant
                i <= types@.len(),
                snapshot@.len() == i,
                forall|j: int|
                    0 <= j < i ==> (#[trigger] snapshot@[j]).0 == types@[j] && snapshot@[j].1
                        == present@.contains(types@[j]),
            decreases types@.len() - i,
        {
            snapshot.push((types[i], present.contains(&types[i])));
            i = i + 1;
        }
        assert(snapshot@.map_values(|p: (TypeId, bool)| p.0) =~= types@);
        snapshot
    }

    /// Notes whether a resource is present, and returns what was noted before
    /// (`false` where nothing was).
    pub fn update_resource_presence(&mut self, type_id: TypeId, is_present: bool) -> (was: bool)
        ensures
            old(self).wf() ==> final(self).wf(),
            *final(self) == (PersistenceSession {
                resources: ResourceRegistry {
                    last_seen_present: final(self).resources.last_seen_present,
                    ..old(self).resources
                },
                ..*old(self)
            }),
            final(self).resources.last_seen_present@
                == old(self).resources.last_seen_present@.insert(type_id, is_present),
            was == old(self).resources.was_present(type_id),
    {
        match self.resources.last_seen_present.insert(type_id, is_present) {
            Some(was) => was,
            None => false,
        }
    }

    /// The name of a relationship type.
    pub fn relationship_type_name(&self, type_id: TypeId) -> (r: Option<&String>)
        ensures
            match r {
                Some(name) => self.relationships.names@.name_of(type_id) == Some(name@),
                None => self.relationships.names@.name_of(type_id) is None,
            },
    {
        self.relationships.names.name_of(type_id)
    }

    /// The named relationship types, each once, with their names.
    pub fn relationship_type_entries(&self) -> (entries: Vec<(TypeId, String)>)
        ensures
            entries@.map_values(|e: (TypeId, String)| e.0).no_duplicates(),
            entries@.map_values(|e: (TypeId, String)| e.0).to_set()
                == self.relationships.names@.names.dom(),
            forall|i: int|
                0 <= i < entries@.len() ==> self.relationships.names@.name_of(
                    (#[trigger] entries@[i]).0,
                ) == Some(entries@[i].1@),
    {
        let types: Vec<TypeId> = collections::keys_of(&self.relationships.names.type_id_to_name);
        let mut entries: Vec<(TypeId, String)> = Vec::new();
        let mut i: usize = 0;
        while i < types.len()
            invariant
                i <= types@.len(),
                types@.to_set() == self.relationships.names.type_id_to_name@.dom(),
                entries@.len() == i,
                forall|j: int|
                    0 <= j < i ==> (#[trigger] entries@[j]).0 == types@[j]
                        && self.relationships.names@.name_of(types@[j]) == Some(entries@[j].1@),
            decreases types@.len() - i,
        {
            assert(types@.to_set().contains(types@[i as int]));
            match self.relationships.names.name_of(types[i]) {
                Some(name) => {
                    entries.push((types[i], name.clone()));
                },
                None => {},
            }
            i = i + 1;
        }
        assert(entries@.map_values(|e: (TypeId, String)| e.0) =~= types@);
        assert(self.relationships.names@.names.dom()
            =~= self.relationships.names.type_id_to_name@.dom());
        entries
    }
}

} // verus!
