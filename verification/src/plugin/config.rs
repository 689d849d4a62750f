//! Persistence plugin: config, system sets, and what a plugin sets up.
use std::collections::HashSet;

use vstd::prelude::*;
use vstd::string::*;

use crate::compact::DEFAULT_COMPACT_THRESHOLD_BYTES;
use crate::session::state::PersistenceSession;
use crate::session::TypeId;

verus! {

broadcast use vstd::std_specs::hash::group_hash_axioms;

/// The phases in which the core persistence systems run, in this order.
#[derive(Clone, Copy, Debug, PartialEq, Eq, Hash, Structural)]
pub enum PersistenceSystemSet {
    /// Apply deferred load operations (must run before dirty tracking).
    LoadApply,
    /// ECS change detection for persistence dirty sets.
    TrackChanges,
    /// Close hydration scopes opened during load (must run after dirty tracking).
    FinishHydration,
    /// Systems that prepare commits after change detection has finished.
    PreCommit,
    /// The system that finalizes the commit.
    Commit,
}

impl PersistenceSystemSet {
    /// The place of the phase in a frame.
    pub open spec fn rank(self) -> nat {
        match self {
            PersistenceSystemSet::LoadApply => 0,
            PersistenceSystemSet::TrackChanges => 1,
            PersistenceSystemSet::FinishHydration => 2,
            PersistenceSystemSet::PreCommit => 3,
            PersistenceSystemSet::Commit => 4,
        }
    }

    /// All phases, in the order in which they run.
    pub fn chain() -> (phases: Vec<PersistenceSystemSet>)
        ensures
            phases@.len() == 5,
            forall|i: int| 0 <= i < phases@.len() ==> (#[trigger] phases@[i]).rank() == i,
    {
        let mut phases: Vec<PersistenceSystemSet> = Vec::new();
        phases.push(PersistenceSystemSet::LoadApply);
        phases.push(PersistenceSystemSet::TrackChanges);
        phases.push(PersistenceSystemSet::FinishHydration);
        phases.push(PersistenceSystemSet::PreCommit);
        phases.push(PersistenceSystemSet::Commit);
        phases
    }
}

/// A resource used to track which `Persist` types have been registered with an `App`.
pub struct RegisteredPersistTypes {
    pub types: HashSet<TypeId>,
}

impl Default for RegisteredPersistTypes {
    fn default() -> (r: Self)
        ensures
            r.types@ == Set::<TypeId>::empty(),
    {
        RegisteredPersistTypes { types: HashSet::new() }
    }
}

/// Configuration for the persistence plugin.
#[derive(Debug)]
pub struct PersistencePluginConfig {
    /// Rayon thread count for parallel commit preparation (serialization).
    /// When `1`, prepare runs serially.
    pub thread_count: usize,
    pub default_store: String,
    /// Postcard byte size above which component/resource serializers store a
    /// compact envelope instead of naive JSON. See
    /// [`crate::compact::DEFAULT_COMPACT_THRESHOLD_BYTES`].
    ///
    /// This is a per-value probe threshold, not a transaction size limit.
    pub compact_threshold_bytes: usize,
}

impl PersistencePluginConfig {
    /// The configuration of a plugin that was not given one.
    pub open spec fn is_default(&self) -> bool {
        &&& self.thread_count == 4
        &&& self.default_store@ == "default_store"@
        &&& self.compact_threshold_bytes == DEFAULT_COMPACT_THRESHOLD_BYTES
    }

    /// The number of threads of the pool that serialises values in parallel;
    /// `None` where preparation runs serially.
    pub fn pool_threads(&self) -> (r: Option<usize>)
        ensures
            r == if self.thread_count > 1 {
                Some(self.thread_count)
            } else {
                None
            },
    {
        if self.thread_count > 1 {
            Some(self.thread_count)
        } else {
            None
        }
    }

    /// The session that a plugin with this configuration starts with: a new
    /// one with the configured threshold.
    pub fn initial_session(&self) -> (session: PersistenceSession)
        ensures
            session.wf(),
            session.is_fresh(self.compact_threshold_bytes),
    {
        PersistenceSession::new().with_compact_threshold(self.compact_threshold_bytes)
    }
}

impl Default for PersistencePluginConfig {
    fn default() -> (r: Self)
        ensures
            r.is_default(),
    {
        PersistencePluginConfig {
            thread_count: 4,
            default_store: "default_store".to_owned(),
            compact_threshold_bytes: DEFAULT_COMPACT_THRESHOLD_BYTES,
        }
    }
}

impl Clone for PersistencePluginConfig {
    fn clone(&self) -> (r: Self)
        ensures
            r == *self,
    {
        PersistencePluginConfig {
            thread_count: self.thread_count,
            default_store: self.default_store.clone(),
            compact_threshold_bytes: self.compact_threshold_bytes,
        }
    }
}

/// A plugin over a database connection.
pub struct PersistencePluginCore<C> {
    pub db: C,
    pub config: PersistencePluginConfig,
}

impl<C> PersistencePluginCore<C> {
    /// A plugin with the default configuration.
    pub fn new(db: C) -> (r: Self)
        ensures
            r.db == db,
            r.config.is_default(),
    {
        PersistencePluginCore { db, config: PersistencePluginConfig::default() }
    }

    /// The plugin with that configuration.
    pub fn with_config(self, config: PersistencePluginConfig) -> (r: Self)
        ensures
            r == (PersistencePluginCore { config, ..self }),
    {
        PersistencePluginCore { db: self.db, config }
    }
}

/// A bundle of plugins over a database connection.
pub struct PersistencePlugins<C> {
    pub db: C,
    pub config: PersistencePluginConfig,
}

impl<C> PersistencePlugins<C> {
    /// A bundle with the default configuration.
    pub fn new(db: C) -> (r: Self)
        ensures
            r.db == db,
            r.config.is_default(),
    {
        PersistencePlugins { db, config: PersistencePluginConfig::default() }
    }

    /// The bundle with that configuration.
    pub fn with_config(self, config: PersistencePluginConfig) -> (r: Self)
        ensures
            r == (PersistencePlugins { config, ..self }),
    {
        PersistencePlugins { db: self.db, config }
    }

    /// The one plugin of the bundle, with the bundle's connection and
    /// configuration.
    pub fn build(self) -> (core: PersistencePluginCore<C>)
        ensures
            core.db == self.db,
            core.config == self.config,
    {
        PersistencePluginCore::new(self.db).with_config(self.config)
    }
}

} // verus!
