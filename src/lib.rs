//! Finds the released versions of an upstream project, and the files of each,
//! from the location of one of its downloads.
//!
//! `versioning` splits a file name or URL into a project name and a version.
//! `host` holds one kind of fetcher per upstream location: a GitHub
//! repository, a GNOME release manifest, or a plain directory listing. The
//! network requests stay with the caller; the library decides what to ask
//! for and turns the answers into `VersionMetadata`.
pub mod host;
pub mod location;
pub mod metadata;
pub mod text;
pub mod versioning;

pub use metadata::{AssetKind, VersionMetadata, VersionedAsset};
