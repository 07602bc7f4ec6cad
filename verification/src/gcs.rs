//! The first cloud object store's verified part: its configuration.
//!
//! The adapter around this type owns the SDK client. Construction injects
//! the credentials file path into the process environment and builds the
//! client, failing eagerly; both are side effects the adapter performs.
//! Every name this backend sees goes through the normalizer first, and a
//! write buffers the caller's bytes before sending (O(item size) memory
//! overhead), since the store wants the content length up front.

use vstd::prelude::*;
use vstd::string::StrSliceExecFns;

verus! {

/// Configuration of the first cloud store: a project identifier and the
/// path of the credentials file.
#[derive(Clone, Debug)]
pub struct Gcs {
    pub project: String,
    pub credentials_path: String,
}

impl Gcs {
    /// Record the project and the credentials file path.
    pub fn new(project: &str, path: &str) -> (r: Self)
        ensures
            r.project@ == project@,
            r.credentials_path@ == path@,
    {
        Gcs { project: project.to_owned(), credentials_path: path.to_owned() }
    }
}

} // verus!
