//! Per-module key-value namespaces: how their tables are named and
//! allocated at startup, and how a namespace serves reads and writes once
//! its table is bound.

use vstd::prelude::*;

pub mod init;
pub mod init_laws;
pub mod metadata;
pub mod names;
mod private;
pub mod queries;
pub mod schema;
pub mod store;
pub mod store_laws;

verus! {

/// A marker trait for a type of KVS store.
pub trait KvsType: private::Sealed {

}

/// Marks a persistent KVS store.
pub enum PersistentKvsType {
    Persistent,
}

impl private::Sealed for PersistentKvsType {
    const IS_TRANSIENT: bool = false;
}

impl KvsType for PersistentKvsType {

}

/// Marks a transient KVS store.
pub enum TransientKvsType {
    Transient,
}

impl private::Sealed for TransientKvsType {
    const IS_TRANSIENT: bool = true;
}

impl KvsType for TransientKvsType {

}

/// Whether stores of the kind `T` are transient.
pub fn is_transient<T: KvsType>() -> (r: bool)
    ensures
        r == T::IS_TRANSIENT,
{
    T::IS_TRANSIENT
}

/// The prefix that the statements put before a table of the given area.
pub open spec fn area_prefix(is_transient: bool) -> Seq<char> {
    if is_transient {
        "transient."@
    } else {
        ""@
    }
}

/// The prefix that the statements put before a table of the given area.
pub fn area_prefix_str(is_transient: bool) -> (r: &'static str)
    ensures
        r@ == area_prefix(is_transient),
{
    if is_transient {
        "transient."
    } else {
        ""
    }
}

} // verus!
