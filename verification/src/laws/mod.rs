//! What holds of calls, stated on what goes in and what comes out.
//!
//! A law that speaks of `call_ensures` holds of every call of that function: of
//! whatever it may give back for those arguments.
pub mod commit;
pub mod compact;
pub mod db;
pub mod derive;
pub mod edges;
pub mod failures;
pub mod latest;
pub mod load;
pub mod prepare;
pub mod session;
pub mod value;
pub mod versions;
