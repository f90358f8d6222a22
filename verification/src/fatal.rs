//! Errors that should never happen, turned into absent values at the point
//! where they would be reported.
use vstd::prelude::*;

verus! {

/// A result whose error is fatal to the operation at hand.
pub trait ResultExt<T, E> {
    /// The value of an `Ok`; `None` for an error.
    fn fatal(self) -> Option<T>;
}

impl<T, E> ResultExt<T, E> for Result<T, E> {
    fn fatal(self) -> (r: Option<T>)
        ensures
            r == match self {
                Ok(t) => Some(t),
                Err(_) => None::<T>,
            },
    {
        match self {
            Ok(t) => Some(t),
            Err(_) => None,
        }
    }
}

} // verus!
