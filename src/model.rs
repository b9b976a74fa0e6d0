//! The values that the library reasons about: pull requests, comments,
//! changed files and their aggregated line counts.
use vstd::prelude::*;

verus! {

/// A pull request as far as the library reads it.
pub struct PullRequest {
    /// Identifier, unique within one repository.
    pub number: u64,
    pub title: Option<String>,
    /// Login of the author.
    pub author: Option<String>,
    pub body: Option<String>,
    /// Last update, in nanoseconds since the Unix epoch.
    pub updated_at: Option<i64>,
    pub html_url: Option<String>,
    /// Logins of the users whose approval is requested.
    pub requested_reviewers: Vec<String>,
    /// Logins of the assignees.
    pub assignees: Vec<String>,
    /// Identifiers of the requested teams (a team may come without one).
    pub requested_teams: Vec<Option<u64>>,
}

/// The key of a pull request: equality and hashing look at the number alone.
#[derive(PartialEq, Eq, Structural, Hash, Clone, Copy, Debug)]
pub struct Identity {
    pub number: u64,
}

impl PullRequest {
    pub fn identity(&self) -> (r: Identity)
        ensures
            r.number == self.number,
    {
        Identity { number: self.number }
    }
}

/// One comment of a review thread.
pub struct Comment {
    /// Login of the comment's author, where known.
    pub author: Option<String>,
    pub body: String,
}

/// Added and removed lines of one changed file.
#[derive(PartialEq, Eq, Structural, Clone, Copy, Debug)]
pub struct FileChange {
    pub additions: u64,
    pub deletions: u64,
}

/// Added and removed lines of a whole pull request.
#[derive(PartialEq, Eq, Structural, Clone, Copy, Debug)]
pub struct DiffStat {
    pub additions: u64,
    pub deletions: u64,
}

impl DiffStat {
    pub open spec fn zero_spec() -> DiffStat {
        DiffStat { additions: 0, deletions: 0 }
    }

    /// The entry that stands for a pull request with no measured changes.
    pub fn zero() -> (r: DiffStat)
        ensures
            r == DiffStat::zero_spec(),
    {
        DiffStat { additions: 0, deletions: 0 }
    }
}

} // verus!
