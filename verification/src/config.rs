//! The toolkit's configuration: where report files live, and where results
//! are announced.  Loading it from a configuration file is the surrounding
//! program's job; the values live here so that the core can be steered by
//! them.

use vstd::prelude::*;
use crate::gcs::PublisherConfig;
use crate::github::GithubHandle;
use crate::slack::SlackUserId;

verus! {

#[derive(PartialEq, Debug, Clone)]
pub struct Notifications {
    pub slack: Option<SlackNotifications>,
    pub google_cloud_storage: Option<PublisherConfig>,
    pub github_comments: Option<GithubNotifications>,
}

/// Chat notification settings: who maps to whom, and where to post.  The
/// handle map is kept as ordered pairs.
#[derive(PartialEq, Debug, Clone)]
pub struct SlackNotifications {
    pub user_handles: Vec<(GithubHandle, SlackUserId)>,
    pub webhook_url: String,
}

#[derive(PartialEq, Debug, Clone)]
pub struct GithubNotifications {
    pub token: String,
}

#[derive(PartialEq, Debug, Clone)]
pub struct Junit {
    pub report_dir_pattern: String,
}

#[derive(PartialEq, Debug, Clone)]
pub struct Config {
    pub notifications: Notifications,
    pub junit: Junit,
}

} // verus!
