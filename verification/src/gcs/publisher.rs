//! What the report publisher computes: the address a published report will
//! have, and the MIME type each file is uploaded under.  Reading the files
//! and talking to the storage service stay with the surrounding program.

use vstd::prelude::*;
use crate::junit::fs::extension_of;
use crate::strutil::str_eq;
use super::{PublisherConfig, ReportUrl};

verus! {

pub struct GCSPublisher {
    pub config: PublisherConfig,
    pub report_files: Vec<String>,
    pub report_dir: String,
    pub github_run_id: String,
}

/// The MIME type sniffed from a file's bytes: a function of the bytes alone.
pub uninterp spec fn mime_of(bytes: Seq<u8>) -> Seq<char>;

/// Relies on tree_magic::from_u8 with its compiled-in type database: the
/// detected MIME type depends on the bytes alone.
#[verifier::external_body]
fn sniff_mime(buf: &[u8]) -> (r: String)
    ensures
        r@ == mime_of(buf@),
{
    tree_magic::from_u8(buf).to_owned()
}

/// The MIME type a report file is uploaded under: well-known extensions map
/// directly, anything else is sniffed from the bytes.
pub open spec fn spec_detect_mime(path: Seq<char>, bytes: Seq<u8>) -> Seq<char> {
    match extension_of(path) {
        Some(e) => if e == "html"@ {
            "text/html"@
        } else if e == "json"@ {
            "application/json"@
        } else if e == "js"@ {
            "application/javascript"@
        } else if e == "css"@ {
            "text/css"@
        } else {
            mime_of(bytes)
        },
        None => mime_of(bytes),
    }
}

/// Decide a file's upload MIME type from its name, else from its bytes.
pub fn detect_mime(path: &str, buf: &[u8]) -> (r: String)
    ensures
        r@ == spec_detect_mime(path@, buf@),
{
    match crate::junit::fs::extension_str(path) {
        Some(e) => {
            if str_eq(e, "html") {
                "text/html".to_owned()
            } else if str_eq(e, "json") {
                "application/json".to_owned()
            } else if str_eq(e, "js") {
                "application/javascript".to_owned()
            } else if str_eq(e, "css") {
                "text/css".to_owned()
            } else {
                sniff_mime(buf)
            }
        },
        None => sniff_mime(buf),
    }
}

impl GCSPublisher {
    /// Assemble a publisher from the discovered report files.  The caller
    /// walks the written report directory and hands the file paths in.
    pub fn from_parts(
        config: PublisherConfig,
        report_files: Vec<String>,
        report_dir: String,
        github_run_id: String,
    ) -> (r: GCSPublisher)
        ensures
            r.config == config,
            r.report_files == report_files,
            r.report_dir == report_dir,
            r.github_run_id == github_run_id,
    {
        GCSPublisher { config, report_files, report_dir, github_run_id }
    }

    /// Where the published report will be readable.
    pub fn report_url(&self) -> (r: ReportUrl)
        ensures
            r.0@ == "https://storage.googleapis.com/"@ + self.config.bucket.0@ + "/"@
                + self.github_run_id@ + "/index.html"@,
    {
        let mut url = "https://storage.googleapis.com/".to_owned();
        url.append(self.config.bucket.0.as_str());
        url.append("/");
        url.append(self.github_run_id.as_str());
        url.append("/index.html");
        ReportUrl(url)
    }
}

} // verus!
