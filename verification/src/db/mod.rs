//! What is stored: documents, edges and the operations that change them.
pub mod connection;
pub mod shared;

pub use connection::{
    read_version, DocumentKind, EdgeDocument, PersistenceError, TransactionOperation,
    BEVY_PERSISTENCE_DATABASE_BEVY_TYPE_FIELD, BEVY_PERSISTENCE_DATABASE_METADATA_FIELD,
    BEVY_PERSISTENCE_DATABASE_VERSION_FIELD,
};
