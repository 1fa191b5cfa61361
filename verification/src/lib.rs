//! Schema-versioned key-value namespaces over a relational database, with
//! the startup protocol that allocates their tables, and the small utilities
//! the host application builds on.
//!
//! Everything here works on plain values. The code that talks to the
//! database, waits on locks, or reads the file system hands values in and
//! carries the returned commands out.

pub mod text;
pub mod bootstrap;
pub mod cache;
pub mod disambiguate;
pub mod fx;
pub mod interner;
pub mod name_set;
pub mod kvs;
pub mod locks;
pub mod migrations;
pub mod module_derive;
