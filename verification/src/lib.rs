//! A JDK version manager core: a catalog of available JDK builds, a registry
//! of installed ones, deterministic query resolution, and a crash-safe
//! install state machine driven by an outer I/O loop.

pub mod catalog;
pub mod cli;
pub mod entry;
pub mod manager;
pub mod registry;
pub mod resolver;
pub mod feed;
pub mod text;
pub mod version;

use vstd::prelude::*;

verus! {

/// The typed failures a manager operation can return.
#[derive(Clone, Copy, Debug, PartialEq, Eq, Structural)]
pub enum JoltError {
    /// Resolution found nothing for the query.
    NoMatch,
    /// A search was asked for with neither a distribution nor a version filter.
    AmbiguousFilter,
    /// Downloaded bytes do not match the catalog entry's checksum.
    ChecksumMismatch,
    /// The locally persisted catalog cache or registry index cannot be parsed.
    CorruptCache,
    /// The registry was asked to record an install path that is not a
    /// fully-extracted, non-empty directory.
    PathMissing,
    /// The transport reported a transient network failure.
    Network,
    /// The downloaded archive could not be extracted in full.
    Extraction,
    /// The remote feed was fetched but does not parse as a catalog feed.
    FeedMalformed,
}

} // verus!
