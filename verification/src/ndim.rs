//! Checks on the number of dimensions of an object.
use vstd::prelude::*;

verus! {

/// Error for an object that has more dimensions than the space it is built in.
#[derive(Debug, Clone, Copy, PartialEq, Eq)]
pub struct NdimError {
    /// Number of dimensions of the object.
    pub ndim: u8,
    /// Number of dimensions of the space.
    pub expected_ndim: u8,
}

/// Accepts an object of `ndim` dimensions in a space of `expected_ndim`
/// dimensions: an object may have fewer dimensions than the space, but not more.
pub fn enforce_ndim(ndim: u8, expected_ndim: u8) -> (r: Result<u8, NdimError>)
    ensures
        ndim <= expected_ndim ==> r == Ok::<u8, NdimError>(ndim),
        ndim > expected_ndim ==> r == Err::<u8, NdimError>(NdimError { ndim, expected_ndim }),
{
    if ndim <= expected_ndim {
        Ok(ndim)
    } else {
        Err(NdimError { ndim, expected_ndim })
    }
}

} // verus!
