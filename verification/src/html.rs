//! The HTML report target: the decision whether a report may be written to
//! the chosen directory.  Looking at the filesystem and writing the files
//! are the surrounding program's job; it hands in what it saw.

use vstd::prelude::*;
use crate::junit::JunitError;

verus! {

pub struct HTMLReport {
    pub path: String,
}

impl HTMLReport {
    /// Accept the output directory or refuse it: a path that exists but is
    /// no directory is refused, and an existing directory is refused unless
    /// overwriting was asked for.
    pub fn new(path: String, path_exists: bool, path_is_dir: bool, overwrite_existing: bool) -> (r:
        Result<HTMLReport, JunitError>)
        ensures
            match r {
                Ok(h) => h.path == path && (path_exists ==> path_is_dir && overwrite_existing),
                Err(e) => e is IoErr && path_exists && (!path_is_dir || !overwrite_existing),
            },
    {
        if path_exists && !path_is_dir {
            let mut msg = path.clone();
            msg.append(" exists and is not a directory");
            return Err(JunitError::IoErr(msg));
        }
        if path_exists && !overwrite_existing {
            let mut msg = path.clone();
            msg.append(" already exists");
            return Err(JunitError::IoErr(msg));
        }
        Ok(HTMLReport { path })
    }
}

} // verus!
