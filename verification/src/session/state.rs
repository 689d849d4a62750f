//! PersistenceSession type and constructors.
use vstd::prelude::*;

use crate::compact::DEFAULT_COMPACT_THRESHOLD_BYTES;
use crate::session::cache::PersistenceCache;
use crate::session::registries::{
    ComponentRegistry, NamesModel, RelationshipRegistry, ResourceRegistry,
};
use crate::session::tracking::{DirtyModel, DirtyState};
use crate::session::{Entity, TypeId};
use crate::versioning::Versions;

verus! {

/// Manages a "unit of work": local cache + change tracking.
pub struct PersistenceSession {
    pub tracking: DirtyState,
    pub components: ComponentRegistry,
    pub resources: ResourceRegistry,
    pub relationships: RelationshipRegistry,
    pub cache: PersistenceCache,
    /// Non-zero while persisted state is being hydrated into the world.
    ///
    /// Opened by every load; closed by [`Self::finish_all_hydration`] after
    /// dirty tracking. While it is non-zero, ECS change-detection entry points
    /// suppress spurious dirty flags.
    pub hydration_depth: u32,
    /// Postcard-size threshold for automatic compact encoding (copied from plugin config).
    pub compact_threshold_bytes: usize,
}

impl PersistenceSession {
    /// What every session keeps: its sets of names list each name once, and the
    /// index from keys to entities agrees with the keys.
    pub open spec fn wf(&self) -> bool {
        &&& self.components.wf()
        &&& self.resources.wf()
        &&& self.cache.wf()
    }

    /// Nothing is registered, cached or changed, nothing is being loaded, and the
    /// threshold is the given one.
    pub open spec fn is_fresh(&self, threshold: usize) -> bool {
        &&& self.tracking@ == DirtyModel::clean()
        &&& self.components.serializers@ == Set::<TypeId>::empty()
        &&& self.components.deserializers@ == Set::<Seq<char>>::empty()
        &&& self.components.names@ == NamesModel::none()
        &&& self.components.presence@ == Set::<Seq<char>>::empty()
        &&& self.resources.serializers@ == Set::<TypeId>::empty()
        &&& self.resources.deserializers@ == Set::<Seq<char>>::empty()
        &&& self.resources.names@ == NamesModel::none()
        &&& self.resources.removers@ == Set::<TypeId>::empty()
        &&& self.resources.presence@ == Set::<TypeId>::empty()
        &&& self.resources.last_seen_present@ == Map::<TypeId, bool>::empty()
        &&& self.relationships.serializers@ == Set::<TypeId>::empty()
        &&& self.relationships.deserializers@ == Set::<TypeId>::empty()
        &&& self.relationships.names@ == NamesModel::none()
        &&& self.cache.entity_keys@ == Map::<Entity, String>::empty()
        &&& self.cache.guid_to_entity@ == Map::<Seq<char>, Entity>::empty()
        &&& self.cache.version_manager@ == Versions::none()
        &&& self.cache.edge_snapshot@ == Set::<Seq<char>>::empty()
        &&& self.hydration_depth == 0
        &&& self.compact_threshold_bytes == threshold
    }

    /// True while persisted state is being hydrated into the world.
    pub open spec fn hydrating(&self) -> bool {
        self.hydration_depth > 0
    }

    /// True while persisted state is being hydrated into the world.
    pub fn is_hydrating(&self) -> (b: bool)
        ensures
            b == self.hydrating(),
    {
        self.hydration_depth > 0
    }

    /// Create a new session.
    pub fn new() -> (r: Self)
        ensures
            r.wf(),
            r.is_fresh(DEFAULT_COMPACT_THRESHOLD_BYTES),
    {
        PersistenceSession {
            tracking: DirtyState::default(),
            components: ComponentRegistry::new(),
            resources: ResourceRegistry::new(),
            relationships: RelationshipRegistry::new(),
            cache: PersistenceCache::default(),
            hydration_depth: 0,
            compact_threshold_bytes: DEFAULT_COMPACT_THRESHOLD_BYTES,
        }
    }

    /// Override the postcard-size threshold used by component/resource serializers.
    pub fn with_compact_threshold(self, bytes: usize) -> (r: Self)
        ensures
            r == (PersistenceSession { compact_threshold_bytes: bytes, ..self }),
    {
        let mut session = self;
        session.compact_threshold_bytes = bytes;
        session
    }

    /// Postcard-size threshold for automatic compact encoding.
    pub fn compact_threshold_bytes(&self) -> (n: usize)
        ensures
            n == self.compact_threshold_bytes,
    {
        self.compact_threshold_bytes
    }
}

} // verus!
