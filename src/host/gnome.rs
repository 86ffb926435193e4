//! GNOME projects: versions come from the project's release manifest.
use vstd::prelude::*;
use vstd::string::*;

use crate::host::HostError;
use crate::location::ParsedUrl;
use crate::metadata::{
    all_distinct, all_of_kind, undated, urls_of, versions_of, AssetKind, VersionMetadata, VersionedAsset,
};
use crate::text::{keep_nonempty, nonempty_from, same_text, split_on, split_str, views_of};

verus! {

/// A project on GNOME's download server.
#[derive(Debug, Clone)]
pub struct GnomeHost {
    /// The project name, such as `gtk`.
    pub project: String,
    /// The URL the host was made from.
    pub url: ParsedUrl,
}

/// The files of one version in the manifest.
#[derive(Debug, Clone)]
pub struct GnomeCacheComponentFile {
    /// The release news, relative to the project directory.
    pub news: Option<String>,
    /// The change log, relative to the project directory.
    pub changes: Option<String>,
    /// The checksum file, relative to the project directory.
    pub sha256sum: Option<String>,
    /// The `.tar.xz` archive, relative to the project directory.
    pub tarxz: Option<String>,
    /// The `.tar.gz` archive, relative to the project directory.
    pub targz: Option<String>,
    /// The `.tar.bz2` archive, relative to the project directory.
    pub tarbz2: Option<String>,
}

/// The release manifest of a project: for each component, its versions
/// and their files, in the order the manifest lists them.
#[derive(Debug, Clone)]
pub struct GnomeCacheResponse {
    /// The manifest format number.
    pub format: u8,
    /// Each component with its versions and their files.
    pub components: Vec<(String, Vec<(String, GnomeCacheComponentFile)>)>,
    /// The versions of each component.
    pub versions: Vec<(String, Vec<String>)>,
    /// Other lists the manifest carries.
    pub meta: Vec<(String, Vec<String>)>,
}

/// The non-empty path segments, or nothing where the URL cannot be a base.
pub open spec fn path_segments_nonempty(path: Seq<char>) -> Option<Seq<Seq<char>>> {
    if path.len() > 0 && path[0] == '/' {
        Some(keep_nonempty(split_on(path.drop_first(), '/')))
    } else {
        None
    }
}

/// The project of a URL `/sources/{project}/...`, if it has that shape.
pub open spec fn gnome_project(path: Seq<char>) -> Option<Seq<char>> {
    match path_segments_nonempty(path) {
        Some(segs) => if segs.len() >= 2 && segs[0] == "sources"@ {
            Some(segs[1])
        } else {
            None
        },
        None => None,
    }
}

/// Where the files of `project` are served.
pub open spec fn gnome_file_url(project: Seq<char>, file: Seq<char>) -> Seq<char> {
    "https://download.gnome.org/sources/"@ + project + "/"@ + file
}

/// Where the manifest of `project` is served.
pub open spec fn gnome_manifest_url(project: Seq<char>) -> Seq<char> {
    "https://download.gnome.org/sources/"@ + project + "/cache.json"@
}

/// The URL of an archive, if the manifest lists it.
pub open spec fn optional_file_url(project: Seq<char>, file: Option<String>) -> Seq<Seq<char>> {
    match file {
        Some(f) => seq![gnome_file_url(project, f@)],
        None => Seq::empty(),
    }
}

/// The archives of a version: `.tar.xz`, `.tar.gz`, `.tar.bz2`, those present.
pub open spec fn archive_urls(project: Seq<char>, f: GnomeCacheComponentFile) -> Seq<Seq<char>> {
    optional_file_url(project, f.tarxz) + optional_file_url(project, f.targz) + optional_file_url(
        project,
        f.tarbz2,
    )
}

/// Every (version, files) pair of every component, in order.
pub open spec fn release_entries(
    components: Seq<(String, Vec<(String, GnomeCacheComponentFile)>)>,
) -> Seq<(String, GnomeCacheComponentFile)>
    decreases components.len(),
{
    if components.len() == 0 {
        Seq::empty()
    } else {
        release_entries(components.drop_last()) + components.last().1@
    }
}

/// The version keys of one component are distinct, as in the manifest's
/// map from version to files.
pub open spec fn component_keys_distinct(releases: Seq<(String, GnomeCacheComponentFile)>) -> bool {
    forall|a: int, b: int| 0 <= a < b < releases.len() ==> releases[a].0@ != releases[b].0@
}

/// `m` is the entry of the manifest pair `e`.
pub open spec fn gnome_entry(
    project: Seq<char>,
    e: (String, GnomeCacheComponentFile),
    m: VersionMetadata,
) -> bool {
    &&& m.version@ == e.0@
    &&& urls_of(m.downloads@) == archive_urls(project, e.1)
    &&& all_of_kind(m.downloads@, AssetKind::Release)
    &&& undated(m.downloads@)
    &&& m.release_notes is None
    &&& m.released_at is None
}

impl GnomeHost {
    /// The host of a URL whose path begins `/sources/{project}`; any other
    /// shape is an invalid URL.
    pub fn from_url(url: &ParsedUrl) -> (r: Result<GnomeHost, HostError>)
        ensures
            r is Ok <==> gnome_project(url.path@) is Some,
            r matches Ok(h) ==> Some(h.project@) == gnome_project(url.path@) && h.url == *url,
            r matches Err(e) ==> e is InvalidUrl,
    {
        let n = url.path.unicode_len();
        if n == 0 || url.path.as_str().get_char(0) != '/' {
            return Err(HostError::InvalidUrl(String::from_str("invalid URL format")));
        }
        let rest = url.path.as_str().substring_char(1, n);
        assert(rest@ =~= url.path@.drop_first());
        let pieces = split_str(rest, '/');
        let segs = nonempty_from(&pieces, 0);
        assert(views_of(pieces@).skip(0) =~= views_of(pieces@));
        if segs.len() == 0 || !same_text(segs[0].as_str(), "sources") {
            return Err(HostError::InvalidUrl(String::from_str("invalid URL format")));
        }
        if segs.len() < 2 {
            return Err(HostError::InvalidUrl(String::from_str("invalid URL format")));
        }
        Ok(GnomeHost { project: segs[1].clone(), url: url.duplicate() })
    }

    /// Where the project's manifest is served.
    pub fn cache_url(&self) -> (r: String)
        ensures
            r@ == gnome_manifest_url(self.project@),
    {
        String::from_str("https://download.gnome.org/sources/").concat(self.project.as_str()).concat(
            "/cache.json",
        )
    }

    /// Adds the asset of `file`, if present, as a release.
    fn push_archive(&self, downloads: &mut Vec<VersionedAsset>, file: &Option<String>)
        requires
            all_of_kind(old(downloads)@, AssetKind::Release),
            undated(old(downloads)@),
        ensures
            urls_of(final(downloads)@) == urls_of(old(downloads)@) + optional_file_url(
                self.project@,
                *file,
            ),
            all_of_kind(final(downloads)@, AssetKind::Release),
            undated(final(downloads)@),
    {
        let ghost before = urls_of(downloads@);
        match file {
            Some(f) => {
                let url = String::from_str("https://download.gnome.org/sources/").concat(
                    self.project.as_str(),
                ).concat("/").concat(f.as_str());
                downloads.push(VersionedAsset::new(url, AssetKind::Release));
                assert(urls_of(downloads@) =~= before + optional_file_url(self.project@, *file));
            },
            None => {
                assert(urls_of(downloads@) =~= before + optional_file_url(self.project@, *file));
            },
        }
    }

    /// The entry of one manifest pair.
    fn entry_of(&self, version: &String, files: &GnomeCacheComponentFile) -> (r: VersionMetadata)
        ensures
            gnome_entry(self.project@, (*version, *files), r),
    {
        let mut downloads: Vec<VersionedAsset> = Vec::new();
        assert(urls_of(downloads@) =~= Seq::<Seq<char>>::empty());
        self.push_archive(&mut downloads, &files.tarxz);
        self.push_archive(&mut downloads, &files.targz);
        self.push_archive(&mut downloads, &files.tarbz2);
        assert(urls_of(downloads@) =~= archive_urls(self.project@, *files));
        VersionMetadata {
            version: version.clone(),
            downloads,
            release_notes: None,
            released_at: None,
        }
    }

    /// One entry per (component, version) pair of the manifest, in the
    /// manifest's order, with the archives it lists as release assets.
    pub fn versions_from_cache(&self, cache: &GnomeCacheResponse) -> (r: Vec<VersionMetadata>)
        ensures
            r@.len() == release_entries(cache.components@).len(),
            forall|q: int|
                0 <= q < r@.len() ==> gnome_entry(
                    self.project@,
                    release_entries(cache.components@)[q],
                    #[trigger] r@[q],
                ),
            cache.components@.len() == 1 && component_keys_distinct(cache.components@[0].1@)
                ==> all_distinct(versions_of(r@)),
    {
        let comps = &cache.components;
        let mut out: Vec<VersionMetadata> = Vec::new();
        let mut i: usize = 0;
        assert(comps@.take(0) =~= Seq::<(String, Vec<(String, GnomeCacheComponentFile)>)>::empty());
        while i < comps.len()
            invariant
                i <= comps@.len(),
                out@.len() == release_entries(comps@.take(i as int)).len(),
                forall|q: int|
                    0 <= q < out@.len() ==> gnome_entry(
                        self.project@,
                        release_entries(comps@.take(i as int))[q],
                        #[trigger] out@[q],
                    ),
            decreases comps@.len() - i,
        {
            let ghost base = release_entries(comps@.take(i as int));
            let releases = &comps[i].1;
            let mut j: usize = 0;
            assert(base + releases@.take(0) =~= base);
            while j < releases.len()
                invariant
                    j <= releases@.len(),
                    out@.len() == (base + releases@.take(j as int)).len(),
                    forall|q: int|
                        0 <= q < out@.len() ==> gnome_entry(
                            self.project@,
                            (base + releases@.take(j as int))[q],
                            #[trigger] out@[q],
                        ),
                decreases releases@.len() - j,
            {
                let m = self.entry_of(&releases[j].0, &releases[j].1);
                let ghost prev = base + releases@.take(j as int);
                out.push(m);
                assert(base + releases@.take(j + 1) =~= prev.push(releases@[j as int]));
                j = j + 1;
            }
            assert(comps@.take(i + 1).drop_last() =~= comps@.take(i as int));
            assert(releases@.take(j as int) =~= releases@);
            assert(release_entries(comps@.take(i + 1)) =~= base + releases@);
            i = i + 1;
        }
        assert(comps@.take(i as int) =~= comps@);
        proof {
            if comps@.len() == 1 && component_keys_distinct(comps@[0].1@) {
                let e = release_entries(comps@);
                assert(comps@.drop_last() =~= Seq::<
                    (String, Vec<(String, GnomeCacheComponentFile)>),
                >::empty());
                assert(e =~= comps@[0].1@);
                let vs = versions_of(out@);
                assert forall|a: int, b: int| 0 <= a < b < vs.len() implies vs[a] != vs[b] by {
                    assert(gnome_entry(self.project@, e[a], out@[a]));
                    assert(gnome_entry(self.project@, e[b], out@[b]));
                }
            }
        }
        out
    }
}

} // verus!
