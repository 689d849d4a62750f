//! The persistence plugin: configuration, phases, change detection and the
//! commit life cycle.
pub mod commit;
pub mod config;
pub mod tracking;

pub use commit::{commit_in_flight, CommitCompleted, CommitStatus, TriggerCommit};
pub use config::{
    PersistencePluginConfig, PersistencePluginCore, PersistencePlugins, PersistenceSystemSet,
    RegisteredPersistTypes,
};
