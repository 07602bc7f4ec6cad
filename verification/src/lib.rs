//! A unified blob-storage abstraction: containers (buckets/directories) of
//! items (objects/files), with one capability set across a local-filesystem
//! backend and two cloud object stores.
//!
//! This crate holds the verified core: the name normalizer, the error
//! taxonomy, the path and request planning of each backend, the caller-facing
//! `Location` handle, and the reference semantics of the storage operations
//! with their laws. The asynchronous adapters that perform the actual
//! filesystem and network calls live outside the verified library and take
//! every decision from it.

pub mod error;
pub mod gcs;
pub mod local;
pub mod location;
pub mod normalize;
pub mod s3;
pub mod store;
