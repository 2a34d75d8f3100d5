use vstd::prelude::*;

verus! {

/// The error kinds that repository operations and the balance engine report.
#[derive(Clone, Copy, Debug, PartialEq, Eq, Structural)]
pub enum Error {
    /// A uniqueness or format constraint was violated (a malformed or
    /// already-registered email, a reused id).
    ConstraintViolation,
    /// An inserted row referenced a user or project that does not exist.
    ForeignKeyViolation,
    /// The store could not be reached.
    ConnectionError,
    /// A balance was requested for a project with no members.
    EmptyProjectError,
    /// A referenced project or user is absent.
    NotFound,
}

} // verus!
