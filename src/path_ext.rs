//! Normalization as methods on encoded paths.
use vstd::prelude::*;
use crate::error::Error;
use crate::resolve::{Resolution, outcome, prepared};

verus! {

/// Normalization methods for encoded path bytes.
pub trait PathExt: crate::sealed::Sealed {
    /// The bytes of the path.
    spec fn encoded(&self) -> Seq<u8>;

    /// Normalizes the path without the file system, up to the platform's
    /// full-path call: see `prepared`.
    fn normalize_virtually(&self) -> (r: Result<Resolution, Error>)
        ensures
            outcome(r) == prepared(self.encoded()),
    ;

    /// Normalizes the path once the platform has told whether it exists:
    /// a failed probe is returned as it is.
    fn normalize(&self, probe: Result<(), Error>) -> (r: Result<Resolution, Error>)
        ensures
            match probe {
                Err(e) => r == Err::<Resolution, Error>(e),
                Ok(_) => outcome(r) == prepared(self.encoded()),
            },
    ;
}

impl PathExt for [u8] {
    open spec fn encoded(&self) -> Seq<u8> {
        self@
    }

    fn normalize_virtually(&self) -> (r: Result<Resolution, Error>) {
        crate::resolve::normalize_virtually(self)
    }

    fn normalize(&self, probe: Result<(), Error>) -> (r: Result<Resolution, Error>) {
        crate::resolve::normalize(self, probe)
    }
}

} // verus!
