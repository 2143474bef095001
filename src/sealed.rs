//! The marker that keeps `PathExt` implemented by this library alone.
use vstd::prelude::*;

verus! {

/// Implemented for the path types that `PathExt` extends; it cannot be
/// named outside the library, so no other type can gain `PathExt`.
pub trait Sealed {
}

impl Sealed for [u8] {
}

} // verus!
