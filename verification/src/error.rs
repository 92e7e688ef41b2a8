use vstd::prelude::*;

verus! {

/// Error taxonomy of the repository engine.
///
/// `NotFound`: a repository, branch, commit or path does not resolve.
/// `Validation`: a malformed branch name or object-id string.
/// `Io`: the object store or a subprocess pipe failed.
/// `Conflict`: a creation collided with an existing name.
/// `Upstream`: the native git subprocess reported a non-zero exit.
#[derive(Clone, Copy, Debug, PartialEq, Eq, Structural)]
pub enum GitError {
    NotFound,
    Validation,
    Io,
    Conflict,
    Upstream,
}

impl GitError {
    /// A short category string for logging and for the flat API error
    /// contract; internal error text never reaches a client.
    pub fn category(&self) -> (r: &'static str)
        ensures
            (*self == GitError::NotFound ==> r@ == "not found"@),
            (*self == GitError::Validation ==> r@ == "validation"@),
            (*self == GitError::Io ==> r@ == "io"@),
            (*self == GitError::Conflict ==> r@ == "conflict"@),
            (*self == GitError::Upstream ==> r@ == "upstream"@),
    {
        match self {
            GitError::NotFound => "not found",
            GitError::Validation => "validation",
            GitError::Io => "io",
            GitError::Conflict => "conflict",
            GitError::Upstream => "upstream",
        }
    }
}

} // verus!
