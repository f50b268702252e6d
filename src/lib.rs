//! Immutable, hashable wrappers around `HashMap` and `HashSet`.
use vstd::prelude::*;

pub mod digest;
pub mod map;
pub mod set;

pub use map::FrozenMap;
pub use set::FrozenSet;

verus! {

/// Turns an ordinary collection into its frozen, hashable counterpart.
pub trait Freeze: Sized {
    /// The frozen counterpart.
    type Frozen;

    /// Freezes this collection, taking it over without copying.
    fn freeze(self) -> Self::Frozen;
}

} // verus!
