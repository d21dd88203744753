//! A bidirectional codec between document values with database-specific
//! extended types (binary data, object identifiers, instants, replication
//! timestamps, regular expressions, code) and a plain text tree of the
//! JSON/YAML kind, with the shapes in which whole collections are exported
//! and imported.
pub mod value;
pub mod error;
pub mod tags;
pub mod hextext;
pub mod objectid;
pub mod datetime;
pub mod encode;
pub mod decode;
pub mod import;
pub mod export;
pub mod laws;
