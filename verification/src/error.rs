//! The closed error taxonomy shared by the normalizer, the backend planning
//! code and the reference semantics.
//!
//! Every operation either succeeds or fails with exactly one of these kinds.
//! The unverified adapters attach the underlying cause (an I/O error, an SDK
//! response) to their own mirror of this enum; inside the verified library
//! only the kind matters.

use vstd::prelude::*;
use vstd::string::StringExecFns;

verus! {

/// One failure kind per way an operation can go wrong.
#[derive(Clone, Copy, Debug, PartialEq, Eq, Structural)]
pub enum StowError {
    /// A local filesystem operation failed.
    Disconnect,
    /// A cloud SDK call failed (auth, network, quota, malformed request).
    ServiceError,
    /// A required environment or credential value was missing.
    EnvironmentVariable,
    /// The region string did not parse into a known region.
    InvalidRegion,
    /// The requested container or item does not exist.
    NotFound,
    /// The backend returned no content for a read that should have content.
    EmptyItemError,
    /// An item name lacks the required type suffix; detected before any I/O.
    ItemTypMissing,
    /// The backend accepted a container creation but returned no usable result.
    ContainerCreationError,
    /// The backend returned no listing payload where one was expected.
    ListContainerError,
    /// Catch-all for failures outside the taxonomy.
    Unknown,
}

/// The text that describes each failure kind.
pub open spec fn message_of(e: StowError) -> Seq<char> {
    match e {
        StowError::Disconnect => "IO operation failed"@,
        StowError::ServiceError => "Backend service error"@,
        StowError::EnvironmentVariable => "Environment variable missing"@,
        StowError::InvalidRegion => "Region is invalid"@,
        StowError::NotFound => "Container or item not found"@,
        StowError::EmptyItemError => "Empty item error"@,
        StowError::ItemTypMissing => "The Item name need a item/file type"@,
        StowError::ContainerCreationError => "The Container cloud not be created"@,
        StowError::ListContainerError => "Listing of the containers failed"@,
        StowError::Unknown => "Unknown stow error"@,
    }
}

impl StowError {
    /// A human-readable description of the failure kind.
    pub fn message(&self) -> (r: String)
        ensures
            r@ == message_of(*self),
    {
        match self {
            StowError::Disconnect => String::from_str("IO operation failed"),
            StowError::ServiceError => String::from_str("Backend service error"),
            StowError::EnvironmentVariable => String::from_str("Environment variable missing"),
            StowError::InvalidRegion => String::from_str("Region is invalid"),
            StowError::NotFound => String::from_str("Container or item not found"),
            StowError::EmptyItemError => String::from_str("Empty item error"),
            StowError::ItemTypMissing => String::from_str("The Item name need a item/file type"),
            StowError::ContainerCreationError => String::from_str(
                "The Container cloud not be created",
            ),
            StowError::ListContainerError => String::from_str("Listing of the containers failed"),
            StowError::Unknown => String::from_str("Unknown stow error"),
        }
    }
}

} // verus!
