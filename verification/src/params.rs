//! Plain request parameter types shared with the service boundary: paging,
//! authentication and repository-creation requests, and the listing filter.

use vstd::prelude::*;

verus! {

/// Page number and page size of a listing request.
#[derive(Clone, Copy, Debug)]
pub struct QueryPager {
    pub page: i32,
    pub limit: i32,
}

/// A login request: the name (or email) and the password.
#[derive(Clone, Debug)]
pub struct AuthLoginParam {
    pub username: String,
    pub password: String,
}

/// A sign-up request.
#[derive(Clone, Debug)]
pub struct AuthSignUpParam {
    pub username: String,
    pub password: String,
    pub email: String,
}

/// A repository-creation request; `initial` asks for a first commit with a
/// readme placeholder.
#[derive(Clone, Debug)]
pub struct RepositoryInitParam {
    pub name: String,
    pub description: String,
    pub initial: bool,
    pub is_public: bool,
}

/// Sort order of the repository listing.
#[derive(Clone, Copy, Debug, PartialEq, Eq, Structural)]
pub enum RepositoryFilterSort {
    NameAsc,
    NameDesc,
    CreatedAsc,
    CreatedDesc,
    UpdatedAsc,
    UpdatedDesc,
}

/// Filter of the repository listing: a sort order and an optional name (or
/// description) search term.
#[derive(Clone, Debug)]
pub struct RepositoryFilter {
    pub order: RepositoryFilterSort,
    pub name: Option<String>,
}

} // verus!
