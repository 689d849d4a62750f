//! ECS-to-database persistence: change tracking, commit preparation, load
//! resolution and compact encoding for a Bevy world stored as JSON documents.
//!
//! The library works on plain values. Entities and Rust types are 64-bit
//! identifiers, documents are [`value::Value`] trees, and what the world or a
//! database answers comes in as arguments.
#![allow(unused_imports)]

pub mod collections;
pub mod compact;
pub mod db;
pub mod derive;
pub mod laws;
pub mod plugin;
pub mod session;
pub mod text;
pub mod value;
pub mod versioning;
