//! What a host reports of each version: its files and notes.
use vstd::prelude::*;

verus! {

/// How a downloadable file came to be.
#[derive(Debug, Clone, Copy, PartialEq, Eq, PartialOrd, Ord, Hash, Structural)]
pub enum AssetKind {
    /// Published on purpose as part of a release.
    Release,
    /// Produced for a tag by the host, or not classified further.
    Autogenerated,
}

/// One downloadable file of a version.
#[derive(Debug, Clone, PartialEq, Eq, PartialOrd, Ord, Hash)]
pub struct VersionedAsset {
    /// Where the file is downloaded from.
    pub url: String,
    /// How the file came to be.
    pub kind: AssetKind,
    /// When the file was released, where known.
    pub released_at: Option<String>,
    /// When the file was last changed, where known.
    pub updated_at: Option<String>,
}

/// The URL and kind of an asset.
pub open spec fn asset_view(a: VersionedAsset) -> (Seq<char>, AssetKind) {
    (a.url@, a.kind)
}

/// The URLs and kinds of a list of assets.
pub open spec fn assets_view(v: Seq<VersionedAsset>) -> Seq<(Seq<char>, AssetKind)> {
    v.map_values(|a: VersionedAsset| asset_view(a))
}

/// No asset of the list carries a date.
pub open spec fn undated(v: Seq<VersionedAsset>) -> bool {
    forall|i: int| 0 <= i < v.len() ==> v[i].released_at is None && v[i].updated_at is None
}

/// The URLs of a list of assets.
pub open spec fn urls_of(v: Seq<VersionedAsset>) -> Seq<Seq<char>> {
    v.map_values(|a: VersionedAsset| a.url@)
}

/// Every asset of the list has kind `k`.
pub open spec fn all_of_kind(v: Seq<VersionedAsset>, k: AssetKind) -> bool {
    forall|i: int| 0 <= i < v.len() ==> v[i].kind == k
}

impl VersionedAsset {
    /// An asset with no dates.
    pub fn new(url: String, kind: AssetKind) -> (r: VersionedAsset)
        ensures
            r.url == url,
            r.kind == kind,
            r.released_at is None,
            r.updated_at is None,
    {
        VersionedAsset { url, kind, released_at: None, updated_at: None }
    }
}

/// One released version and its files.
#[derive(Debug, Clone, PartialEq, Eq)]
pub struct VersionMetadata {
    /// The version string.
    pub version: String,
    /// The files of this version.
    pub downloads: Vec<VersionedAsset>,
    /// The release notes, where the host has them.
    pub release_notes: Option<String>,
    /// When the version was released, where known.
    pub released_at: Option<String>,
}

/// The versions of a list, in order.
pub open spec fn versions_of(v: Seq<VersionMetadata>) -> Seq<Seq<char>> {
    v.map_values(|m: VersionMetadata| m.version@)
}

/// No two entries of `s` are equal.
pub open spec fn all_distinct<A>(s: Seq<A>) -> bool {
    forall|i: int, j: int| 0 <= i < j < s.len() ==> s[i] != s[j]
}

} // verus!
