//! Contextual metadata about the CI run that triggered a report: the pull
//! request event and its actors.  These values originate outside the core
//! (an event file that the surrounding program reads and decodes) and are
//! carried through the report unchanged.

use vstd::prelude::*;

verus! {

/// A GitHub user handle.
#[derive(PartialEq, Eq, PartialOrd, Ord, Hash, Debug, Clone)]
pub struct GithubHandle(pub String);

/// The GitHub owner and repository (slash separated).
#[derive(PartialEq, Eq, PartialOrd, Ord, Hash, Debug, Clone)]
pub struct OwnerRepo(pub String);

#[derive(Debug, PartialEq, Clone)]
pub struct GithubContext {
    pub token: String,
    pub sha: String,
    pub run_id: String,
    pub actor: GithubHandle,
    pub event: GithubEvent,
    pub repository: OwnerRepo,
}

#[derive(Debug, PartialEq, Clone)]
pub struct GithubEvent {
    pub number: u32,
    pub pull_request: PullRequest,
    pub sender: GithubUser,
}

#[derive(Debug, PartialEq, Clone)]
pub struct PullRequest {
    pub title: String,
    pub html_url: String,
    pub commits_url: String,
}

#[derive(Debug, PartialEq, Clone)]
pub struct GithubUser {
    pub avatar_url: String,
    pub login: GithubHandle,
    pub html_url: String,
}

} // verus!
