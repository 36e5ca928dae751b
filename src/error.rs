use vstd::prelude::*;

verus! {

/// What a store operation can fail with.
#[derive(Debug, Clone, PartialEq, Eq)]
pub enum RepositoryError {
    /// The entity named by the string is absent.
    NotFound(String),
    /// The backend failed; the string says how.
    InternalError(String),
    /// A leaderboard already holds as many records as its limit, given here.
    LimitReached(usize),
}

} // verus!
