//! Host adapters shared by resource-free Java ME ports: focus-event ordering,
//! pixel projection, per-game paths, system properties, external services,
//! JAR/JAD resources and the RMS snapshot file format. Device semantics live
//! in [`crate::me`]; these are the deliberately boring host edges around
//! them.

pub mod lifecycle;
pub mod paths;
pub mod presentation;
pub mod resources;
pub mod rms_file;
pub mod services;

pub mod system;

use vstd::prelude::*;

verus! {

/// Failure at a host boundary. Device-facing Java exceptions remain owned by
/// [`crate::jvm`] and [`crate::me`]; these errors describe archive,
/// configuration or external-service refusals before a Java callback is
/// entered. Filesystem failures stay with the host that performs the I/O.
#[derive(Debug, PartialEq, Eq)]
pub enum PlatformError {
    /// A host read failed; the text is the I/O error's.
    Io(String),
    /// The JAR is not a readable ZIP archive; the text is the archive
    /// reader's.
    Archive(String),
    Resource(String),
    Config(String),
    CorruptRms(String),
    Service(String),
}

} // verus!
