//! The kinds of failure that the library reports. Failures of reading and
//! writing are not among them: the library does neither.

use vstd::prelude::*;

verus! {

/// Why an operation did not give its result.
#[derive(Clone, Copy, Debug, PartialEq, Eq, Structural)]
pub enum ErrorKind {
    /// A package, a version or a file is missing.
    NotFound,
    /// An input is malformed: a version string, a profile name, a query.
    InvalidInput,
    /// What is to be created is there already.
    Conflict,
    /// A search was superseded by a newer one.
    Cancelled,
}

} // verus!
