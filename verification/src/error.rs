//! The failures an operation of the tracker can end in.

use vstd::prelude::*;

verus! {

/// Why an operation did not complete.
#[derive(Clone, Copy, Debug, PartialEq, Eq, Structural)]
pub enum Error {
    /// The URL, identifier or arrival time handed in is malformed. Raised
    /// before any store is touched.
    InvalidInput,
    /// The operation referred to a page that is not registered.
    NotFound,
    /// The recent-visit cache could not be reached.
    CacheUnavailable,
    /// The page store could not complete the request.
    StoreUnavailable,
    /// An insert lost against the uniqueness of URLs or identifiers. The
    /// registration absorbs it by reading again and never hands it out.
    RaceLost,
}

impl Error {
    /// Whether the caller is at fault, as opposed to the infrastructure.
    pub open spec fn spec_is_client_error(self) -> bool {
        self == Error::InvalidInput || self == Error::NotFound
    }

    /// Whether the caller is at fault: malformed input and unknown pages are
    /// told to the client, everything else is an opaque server failure.
    #[verifier::when_used_as_spec(spec_is_client_error)]
    pub fn is_client_error(self) -> (r: bool)
        ensures
            r == self.spec_is_client_error(),
    {
        match self {
            Error::InvalidInput => true,
            Error::NotFound => true,
            Error::CacheUnavailable => false,
            Error::StoreUnavailable => false,
            Error::RaceLost => false,
        }
    }
}

} // verus!
