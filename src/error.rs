//! The kinds of failure that the library reports.
use vstd::prelude::*;

verus! {

/// Why an operation failed.
#[derive(PartialEq, Eq, Structural, Clone, Copy, Debug)]
pub enum Error {
    /// A required option is missing or an input is malformed.
    Configuration,
    /// The stored credential can no longer be refreshed; authorise again.
    ReauthRequired,
    /// The person quit the interactive authorisation.
    UserCancelled,
    /// The token endpoint answered with something unexpected.
    UnexpectedResponse,
    /// The network failed, also after the allowed retries.
    Transport,
    /// The service answered with a status that is not retried.
    HttpStatus(u16),
    /// The remote record changed since it was listed.
    ConcurrentModification,
    /// The org file or the token store could not be read or written.
    LocalIO,
    /// The token store holds something that is not a credential.
    Corrupt,
}

} // verus!
