use vstd::prelude::*;

verus! {

/// Conversion into another representation.
pub trait To<T>: Sized {
    fn to(self) -> T;
}

} // verus!
