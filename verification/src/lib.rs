//! mpatch applies unified diffs to files that have drifted away from the
//! version the diff was computed against.
//!
//! A diff is parsed into a [`VersionDiff`]. For each [`FileDiff`] in it, a
//! [`Matcher`] relates the lines of the pre-patch source file to the lines of
//! the present target file. The changes of the diff are then filtered,
//! re-anchored to target line numbers through the [`Matching`], and applied.
//! Changes that cannot be anchored are kept as rejects.
//!
//! Everything in this crate is free of I/O: files are represented by
//! [`FileArtifact`] values, and whether a target file is present on disk is
//! passed in as a plain `bool`.

/// Types that represent a unified diff, its parser, and its renderer.
pub mod diffs;
/// The error type of this crate.
pub mod error;
/// In-memory files.
pub mod io;
/// Patches, their alignment to a target file, and their application.
pub mod patch;
/// That reading a diff undoes writing it.
pub mod round_trip;
/// Character-level helpers shared by the parser and the renderer.
pub mod text;

pub use error::Error;
pub use error::ErrorKind;
pub use diffs::FileDiff;
pub use diffs::VersionDiff;
pub use io::FileArtifact;
pub use patch::alignment;
pub use patch::application;
pub use patch::filtering;
pub use patch::matching;
pub use patch::matching::LCSMatcher;
pub use patch::matching::Matcher;
pub use patch::matching::Matching;
pub use patch::AlignedPatch;
pub use patch::FilePatch;
pub use patch::PatchOutcome;
