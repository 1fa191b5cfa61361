//! What only this library implements.

use vstd::prelude::*;

verus! {

/// Carries the persistence mode of a kind of store. Only the two kinds of
/// this library have it.
pub trait Sealed: Send + Sync + 'static {
    /// Whether stores of this kind may lose their table between runs.
    const IS_TRANSIENT: bool;
}

} // verus!
