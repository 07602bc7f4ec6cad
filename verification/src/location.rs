//! The caller-facing handle: a closed sum over the three backends.
//!
//! A `Location` selects exactly one adapter at construction and never swaps
//! it. Every operation the adapter layer dispatches normalizes the
//! container name once here before handing it on (defense in depth: the
//! adapters normalize again or trust what they receive).

use vstd::prelude::*;

use crate::error::StowError;
use crate::gcs::Gcs;
use crate::local::LocalLocation;
use crate::normalize::{norm_name, streamline};
use crate::s3::{parsed_region, S3};

verus! {

/// Exactly one configured backend.
#[derive(Clone, Debug)]
pub enum Location {
    Local(LocalLocation),
    Gcs(Gcs),
    S3(S3),
}

impl Location {
    /// A local location under the given root path. The adapter creates the
    /// root directory right after this, failing eagerly.
    pub fn new_local(path: &str) -> (r: Self)
        ensures
            r matches Location::Local(l) && l@ == norm_name(path@, '-'),
    {
        Location::Local(LocalLocation::new(path))
    }

    /// A location on the first cloud store, from a project identifier and
    /// the path of a credentials file. The adapter injects the path into
    /// the environment and builds the client, failing eagerly.
    pub fn new_gcs(project: &str, path: &str) -> (r: Self)
        ensures
            r matches Location::Gcs(g) && g.project@ == project@ && g.credentials_path@ == path@,
    {
        Location::Gcs(Gcs::new(project, path))
    }

    /// A location on the second cloud store. The region string must parse
    /// into a known region; an unknown one fails here, at construction.
    pub fn new_s3(region: &str, access_key: &str, secret_key: &str) -> (r: Result<Self, StowError>)
        ensures
            match r {
                Ok(loc) => parsed_region(region@) is Some && (loc matches Location::S3(s3)
                    && s3.region@ == parsed_region(region@)->Some_0 && s3.access_key@
                    == access_key@ && s3.secret_key@ == secret_key@),
                Err(e) => parsed_region(region@) is None && e == StowError::InvalidRegion,
            },
    {
        match S3::new(region, access_key, secret_key) {
            Ok(s3) => Ok(Location::S3(s3)),
            Err(e) => Err(e),
        }
    }

    /// The separator every current backend accepts in names.
    pub fn separator(&self) -> (r: char)
        ensures
            r == '-',
    {
        '-'
    }

    /// The normalization applied to a container name before it is handed to
    /// the active adapter.
    pub fn container_name(&self, container: &str) -> (r: String)
        ensures
            r@ == norm_name(container@, '-'),
    {
        streamline(container)
    }
}

} // verus!
