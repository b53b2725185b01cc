//! Object-storage publication of a written report: the names and values the
//! core computes for it.  The uploads themselves are a collaborator's job.

pub mod publisher;

use vstd::prelude::*;

verus! {

/// A storage bucket's name.
#[derive(PartialEq, Eq, Debug, Clone)]
pub struct BucketName(pub String);

/// Where a published report can be read.
#[derive(PartialEq, Eq, Debug, Clone)]
pub struct ReportUrl(pub String);

#[derive(PartialEq, Debug, Clone)]
pub struct PublisherConfig {
    pub bucket: BucketName,
}

} // verus!
