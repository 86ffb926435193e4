//! Repositories on GitHub: versions are the union of tags and releases.
use vstd::prelude::*;
use vstd::string::*;

use crate::host::HostError;
use crate::location::{opt_view, ParsedUrl};
use crate::metadata::{
    all_distinct, assets_view, undated, versions_of, AssetKind, VersionMetadata,
    VersionedAsset,
};
use crate::text::{
    keep_nonempty, lemma_keep_nonempty_skip_empty, lemma_split_leading_sep, lemma_split_nonempty, nonempty_from, position_of, same_text, split_on,
    split_str, views_of,
};

verus! {

/// A repository on GitHub.
#[derive(Debug, Clone)]
pub struct GithubHost {
    /// The owner of the repository.
    pub owner: String,
    /// The name of the repository.
    pub repo: String,
    /// The URL the host was made from.
    pub url: ParsedUrl,
}

/// A tag, as the tags endpoint lists it.
#[derive(Debug, Clone)]
pub struct GithubTagResponse {
    /// The name of the tag.
    pub name: String,
    /// The zip archive of the tagged tree.
    pub zipball_url: String,
    /// The tar archive of the tagged tree.
    pub tarball_url: String,
    /// The commit tagged.
    pub commit: GithubTagCommit,
    /// The host's own id of the tag.
    pub node_id: String,
}

/// The commit of a tag.
#[derive(Debug, Clone)]
pub struct GithubTagCommit {
    /// The commit hash.
    pub sha: String,
    /// The API URL of the commit.
    pub url: String,
}

/// A release, as the releases endpoint lists it.
#[derive(Debug, Clone)]
pub struct GithubReleaseResponse {
    /// The tag the release was made from.
    pub tag_name: String,
    /// The title of the release.
    pub name: String,
    /// The release notes.
    pub body: String,
    /// The files attached to the release.
    pub assets: Vec<GithubReleaseAsset>,
    /// The tar archive of the released tree.
    pub tarball_url: String,
    /// The zip archive of the released tree.
    pub zipball_url: String,
    /// When the release was published.
    pub published_at: String,
}

/// A file attached to a release.
#[derive(Debug, Clone)]
pub struct GithubReleaseAsset {
    /// The file name.
    pub name: String,
    /// A label for the file.
    pub label: Option<String>,
    /// The MIME type.
    pub content_type: String,
    /// The upload state, such as `uploaded`.
    pub state: String,
    /// The size in bytes.
    pub size: u64,
    /// How often the file was downloaded.
    pub download_count: u64,
    /// When the file was created.
    pub created_at: String,
    /// When the file was last changed.
    pub updated_at: String,
    /// Where the file is downloaded from.
    pub browser_download_url: String,
}

/// The non-empty path segments after the first piece of the path.
pub open spec fn repo_segments(path: Seq<char>) -> Seq<Seq<char>> {
    keep_nonempty(split_on(path, '/').skip(1))
}

/// Where the tags of `owner/repo` are listed.
pub open spec fn tags_endpoint(owner: Seq<char>, repo: Seq<char>) -> Seq<char> {
    "https://api.github.com/repos/"@ + owner + "/"@ + repo + "/tags"@
}

/// Where the releases of `owner/repo` are listed.
pub open spec fn releases_endpoint(owner: Seq<char>, repo: Seq<char>) -> Seq<char> {
    "https://api.github.com/repos/"@ + owner + "/"@ + repo + "/releases"@
}

/// The names of the tags, in order.
pub open spec fn tag_names(tags: Seq<GithubTagResponse>) -> Seq<Seq<char>> {
    tags.map_values(|t: GithubTagResponse| t.name@)
}

/// The tag names of the releases, in order.
pub open spec fn release_tags(rels: Seq<GithubReleaseResponse>) -> Seq<Seq<char>> {
    rels.map_values(|r: GithubReleaseResponse| r.tag_name@)
}

/// `s` with every repeated entry left out, first occurrences kept in order.
pub open spec fn dedup(s: Seq<Seq<char>>) -> Seq<Seq<char>>
    decreases s.len(),
{
    if s.len() == 0 {
        Seq::<Seq<char>>::empty()
    } else {
        let d = dedup(s.drop_last());
        if d.contains(s.last()) {
            d
        } else {
            d.push(s.last())
        }
    }
}

/// The version identifiers: tag names, then release tags, each once.
pub open spec fn version_ids(tags: Seq<GithubTagResponse>, rels: Seq<GithubReleaseResponse>) -> Seq<
    Seq<char>,
> {
    dedup(tag_names(tags) + release_tags(rels))
}

/// The tarballs of the tags named `v`, as autogenerated assets.
pub open spec fn tag_candidates(tags: Seq<GithubTagResponse>, v: Seq<char>) -> Seq<
    (Seq<char>, AssetKind),
>
    decreases tags.len(),
{
    if tags.len() == 0 {
        Seq::empty()
    } else {
        let prev = tag_candidates(tags.drop_last(), v);
        if tags.last().name@ == v {
            prev.push((tags.last().tarball_url@, AssetKind::Autogenerated))
        } else {
            prev
        }
    }
}

/// The attachments of a release, as autogenerated assets.
pub open spec fn attachment_candidates(assets: Seq<GithubReleaseAsset>) -> Seq<
    (Seq<char>, AssetKind),
> {
    assets.map_values(|a: GithubReleaseAsset| (a.browser_download_url@, AssetKind::Autogenerated))
}

/// For each release of tag `v`: its tarball as a release asset, then its
/// attachments.
pub open spec fn release_candidates(rels: Seq<GithubReleaseResponse>, v: Seq<char>) -> Seq<
    (Seq<char>, AssetKind),
>
    decreases rels.len(),
{
    if rels.len() == 0 {
        Seq::empty()
    } else {
        let prev = release_candidates(rels.drop_last(), v);
        let r = rels.last();
        if r.tag_name@ == v {
            prev + seq![(r.tarball_url@, AssetKind::Release)] + attachment_candidates(r.assets@)
        } else {
            prev
        }
    }
}

/// `x` added to `d` unless `d` already has an asset at its URL.
pub open spec fn add_by_url(d: Seq<(Seq<char>, AssetKind)>, x: (Seq<char>, AssetKind)) -> Seq<
    (Seq<char>, AssetKind),
> {
    if exists|k: int| 0 <= k < d.len() && d[k].0 == x.0 {
        d
    } else {
        d.push(x)
    }
}

/// The first asset at each URL of `s`, in order.
pub open spec fn first_by_url(s: Seq<(Seq<char>, AssetKind)>) -> Seq<(Seq<char>, AssetKind)>
    decreases s.len(),
{
    if s.len() == 0 {
        Seq::empty()
    } else {
        add_by_url(first_by_url(s.drop_last()), s.last())
    }
}

/// Every asset of version `v`, repeats included, in the order considered.
pub open spec fn all_candidates(
    tags: Seq<GithubTagResponse>,
    rels: Seq<GithubReleaseResponse>,
    v: Seq<char>,
) -> Seq<(Seq<char>, AssetKind)> {
    tag_candidates(tags, v) + release_candidates(rels, v)
}

/// The downloads of version `v`.
pub open spec fn downloads_for(
    tags: Seq<GithubTagResponse>,
    rels: Seq<GithubReleaseResponse>,
    v: Seq<char>,
) -> Seq<(Seq<char>, AssetKind)> {
    first_by_url(all_candidates(tags, rels, v))
}

/// The body of the first release of tag `v`, if any.
pub open spec fn notes_for(rels: Seq<GithubReleaseResponse>, v: Seq<char>) -> Option<Seq<char>>
    decreases rels.len(),
{
    if rels.len() == 0 {
        None
    } else if rels[0].tag_name@ == v {
        Some(rels[0].body@)
    } else {
        notes_for(rels.drop_first(), v)
    }
}

/// `m` is the entry of version `v`.
pub open spec fn entry_for(
    tags: Seq<GithubTagResponse>,
    rels: Seq<GithubReleaseResponse>,
    v: Seq<char>,
    m: VersionMetadata,
) -> bool {
    &&& m.version@ == v
    &&& assets_view(m.downloads@) == downloads_for(tags, rels, v)
    &&& undated(m.downloads@)
    &&& opt_view(m.release_notes) == notes_for(rels, v)
    &&& m.released_at is None
}

/// Adds `url` to `downloads` unless an asset there has that URL already.
fn push_by_url(downloads: &mut Vec<VersionedAsset>, url: String, kind: AssetKind)
    requires
        undated(old(downloads)@),
    ensures
        assets_view(final(downloads)@) == add_by_url(assets_view(old(downloads)@), (url@, kind)),
        undated(final(downloads)@),
{
    let ghost d = assets_view(downloads@);
    let mut i: usize = 0;
    while i < downloads.len()
        invariant
            i <= downloads@.len(),
            d == assets_view(downloads@),
            undated(downloads@),
            forall|q: int| 0 <= q < i ==> d[q].0 != url@,
        decreases downloads@.len() - i,
    {
        if same_text(downloads[i].url.as_str(), url.as_str()) {
            assert(d[i as int].0 == url@);
            return;
        }
        i = i + 1;
    }
    let a = VersionedAsset::new(url, kind);
    downloads.push(a);
    assert(assets_view(downloads@) =~= d.push((url@, kind)));
}

/// Adds `s` to `ids` unless it is there already.
fn push_unique(ids: &mut Vec<String>, s: &String)
    ensures
        views_of(final(ids)@) == (if views_of(old(ids)@).contains(s@) {
            views_of(old(ids)@)
        } else {
            views_of(old(ids)@).push(s@)
        }),
{
    let ghost before = views_of(ids@);
    match position_of(ids, s.as_str()) {
        Some(k) => {
            assert(before[k as int] == s@);
        },
        None => {
            ids.push(s.clone());
            assert(views_of(ids@) =~= before.push(s@));
        },
    }
}

/// The body of the first release of tag `v`, if any.
fn notes_of(rels: &Vec<GithubReleaseResponse>, v: &String) -> (r: Option<String>)
    ensures
        opt_view(r) == notes_for(rels@, v@),
{
    let mut k: usize = 0;
    assert(rels@.skip(0) =~= rels@);
    while k < rels.len()
        invariant
            k <= rels@.len(),
            notes_for(rels@, v@) == notes_for(rels@.skip(k as int), v@),
        decreases rels@.len() - k,
    {
        assert(rels@.skip(k as int)[0] == rels@[k as int]);
        if same_text(rels[k].tag_name.as_str(), v.as_str()) {
            return Some(rels[k].body.clone());
        }
        assert(rels@.skip(k as int).drop_first() =~= rels@.skip(k + 1));
        k = k + 1;
    }
    assert(rels@.skip(k as int).len() == 0);
    None
}

/// The entry of version `v`.
fn entry_of(tags: &Vec<GithubTagResponse>, rels: &Vec<GithubReleaseResponse>, v: &String) -> (r:
    VersionMetadata)
    ensures
        entry_for(tags@, rels@, v@, r),
{
    let mut downloads: Vec<VersionedAsset> = Vec::new();
    let mut i: usize = 0;
    assert(tags@.take(0) =~= Seq::<GithubTagResponse>::empty());
    assert(assets_view(downloads@) =~= Seq::<(Seq<char>, AssetKind)>::empty());
    while i < tags.len()
        invariant
            i <= tags@.len(),
            undated(downloads@),
            assets_view(downloads@) == first_by_url(tag_candidates(tags@.take(i as int), v@)),
        decreases tags@.len() - i,
    {
        assert(tags@.take(i + 1).drop_last() =~= tags@.take(i as int));
        if same_text(tags[i].name.as_str(), v.as_str()) {
            let ghost prev = tag_candidates(tags@.take(i as int), v@);
            push_by_url(&mut downloads, tags[i].tarball_url.clone(), AssetKind::Autogenerated);
            assert(prev.push((tags@[i as int].tarball_url@, AssetKind::Autogenerated)).drop_last()
                =~= prev);
        }
        i = i + 1;
    }
    assert(tags@.take(i as int) =~= tags@);
    let ghost tc = tag_candidates(tags@, v@);
    let mut j: usize = 0;
    assert(rels@.take(0) =~= Seq::<GithubReleaseResponse>::empty());
    assert(tc + release_candidates(rels@.take(0), v@) =~= tc);
    while j < rels.len()
        invariant
            j <= rels@.len(),
            tc == tag_candidates(tags@, v@),
            undated(downloads@),
            assets_view(downloads@) == first_by_url(tc + release_candidates(rels@.take(j as int), v@)),
        decreases rels@.len() - j,
    {
        assert(rels@.take(j + 1).drop_last() =~= rels@.take(j as int));
        let rel = &rels[j];
        if same_text(rel.tag_name.as_str(), v.as_str()) {
            let ghost base = tc + release_candidates(rels@.take(j as int), v@);
            let ghost with_tarball = base.push((rel.tarball_url@, AssetKind::Release));
            push_by_url(&mut downloads, rel.tarball_url.clone(), AssetKind::Release);
            assert(with_tarball.drop_last() =~= base);
            let mut q: usize = 0;
            assert(with_tarball + attachment_candidates(rel.assets@.take(0)) =~= with_tarball);
            while q < rel.assets.len()
                invariant
                    q <= rel.assets@.len(),
                    undated(downloads@),
                    assets_view(downloads@) == first_by_url(
                        with_tarball + attachment_candidates(rel.assets@.take(q as int)),
                    ),
                decreases rel.assets@.len() - q,
            {
                let ghost cur = with_tarball + attachment_candidates(rel.assets@.take(q as int));
                push_by_url(
                    &mut downloads,
                    rel.assets[q].browser_download_url.clone(),
                    AssetKind::Autogenerated,
                );
                let ghost next = with_tarball + attachment_candidates(
                    rel.assets@.take(q + 1),
                );
                assert(next =~= cur.push(
                    (rel.assets@[q as int].browser_download_url@, AssetKind::Autogenerated),
                ));
                assert(next.drop_last() =~= cur);
                q = q + 1;
            }
            assert(rel.assets@.take(q as int) =~= rel.assets@);
            assert(tc + release_candidates(rels@.take(j + 1), v@) =~= with_tarball
                + attachment_candidates(rel.assets@));
        } else {
            assert(release_candidates(rels@.take(j + 1), v@) == release_candidates(
                rels@.take(j as int),
                v@,
            ));
        }
        j = j + 1;
    }
    assert(rels@.take(j as int) =~= rels@);
    let notes = notes_of(rels, v);
    VersionMetadata { version: v.clone(), downloads, release_notes: notes, released_at: None }
}

impl GithubHost {
    /// The host of the repository whose owner and name are the first two
    /// non-empty segments of the URL's path.
    pub fn from_url(url: &ParsedUrl) -> (r: Result<GithubHost, HostError>)
        ensures
            r is Ok <==> repo_segments(url.path@).len() >= 2,
            r matches Ok(h) ==> h.owner@ == repo_segments(url.path@)[0] && h.repo@
                == repo_segments(url.path@)[1] && h.url == *url,
            r matches Err(e) ==> e is ParseError,
    {
        let pieces = split_str(url.path.as_str(), '/');
        proof {
            lemma_split_nonempty(url.path@, '/');
        }
        let segs = nonempty_from(&pieces, 1);
        if segs.len() == 0 {
            return Err(
                HostError::ParseError(String::from_str("missing repository owner in GitHub URL")),
            );
        }
        if segs.len() == 1 {
            return Err(
                HostError::ParseError(String::from_str("missing repository name in GitHub URL")),
            );
        }
        Ok(GithubHost { owner: segs[0].clone(), repo: segs[1].clone(), url: url.duplicate() })
    }

    /// Where the tags of the repository are listed.
    pub fn tags_url(&self) -> (r: String)
        ensures
            r@ == tags_endpoint(self.owner@, self.repo@),
    {
        String::from_str("https://api.github.com/repos/").concat(self.owner.as_str()).concat(
            "/",
        ).concat(self.repo.as_str()).concat("/tags")
    }

    /// Where the releases of the repository are listed.
    pub fn releases_url(&self) -> (r: String)
        ensures
            r@ == releases_endpoint(self.owner@, self.repo@),
    {
        String::from_str("https://api.github.com/repos/").concat(self.owner.as_str()).concat(
            "/",
        ).concat(self.repo.as_str()).concat("/releases")
    }

    /// The versions of the repository, from its tags and releases: one entry
    /// per distinct tag name, in order of first appearance, with the first
    /// asset at each URL among the tag tarballs, release tarballs and
    /// release attachments of that name.
    pub fn collect_versions(tags: &Vec<GithubTagResponse>, releases: &Vec<GithubReleaseResponse>) -> (r:
        Vec<VersionMetadata>)
        ensures
            versions_of(r@) == version_ids(tags@, releases@),
            forall|i: int|
                0 <= i < r@.len() ==> entry_for(
                    tags@,
                    releases@,
                    version_ids(tags@, releases@)[i],
                    #[trigger] r@[i],
                ),
    {
        let mut ids: Vec<String> = Vec::new();
        let mut i: usize = 0;
        assert(tag_names(tags@.take(0)) =~= Seq::<Seq<char>>::empty());
        assert(views_of(ids@) =~= dedup(tag_names(tags@.take(0))));
        while i < tags.len()
            invariant
                i <= tags@.len(),
                views_of(ids@) == dedup(tag_names(tags@.take(i as int))),
            decreases tags@.len() - i,
        {
            push_unique(&mut ids, &tags[i].name);
            assert(tag_names(tags@.take(i + 1)).drop_last() =~= tag_names(tags@.take(i as int)));
            i = i + 1;
        }
        assert(tags@.take(i as int) =~= tags@);
        let ghost tn = tag_names(tags@);
        let mut j: usize = 0;
        assert(tn + release_tags(releases@.take(0)) =~= tn);
        while j < releases.len()
            invariant
                j <= releases@.len(),
                tn == tag_names(tags@),
                views_of(ids@) == dedup(tn + release_tags(releases@.take(j as int))),
            decreases releases@.len() - j,
        {
            push_unique(&mut ids, &releases[j].tag_name);
            assert((tn + release_tags(releases@.take(j + 1))).drop_last() =~= tn + release_tags(
                releases@.take(j as int),
            ));
            j = j + 1;
        }
        assert(releases@.take(j as int) =~= releases@);
        let mut found: Vec<VersionMetadata> = Vec::new();
        let mut k: usize = 0;
        while k < ids.len()
            invariant
                k <= ids@.len(),
                views_of(ids@) == version_ids(tags@, releases@),
                found@.len() == k,
                forall|q: int|
                    0 <= q < k ==> entry_for(
                        tags@,
                        releases@,
                        version_ids(tags@, releases@)[q],
                        #[trigger] found@[q],
                    ),
            decreases ids@.len() - k,
        {
            let m = entry_of(tags, releases, &ids[k]);
            found.push(m);
            k = k + 1;
        }
        assert(versions_of(found@) =~= version_ids(tags@, releases@));
        found
    }
}

/// For a path that is empty or starts with `/`, the repository segments are
/// the first non-empty pieces of the whole path.
pub proof fn lemma_repo_segments_of_rooted_path(path: Seq<char>)
    requires
        path.len() == 0 || path[0] == '/',
    ensures
        repo_segments(path) == keep_nonempty(split_on(path, '/')),
{
    if path.len() == 0 {
        assert(split_on(path, '/') == seq![Seq::<char>::empty()]);
        assert(split_on(path, '/').skip(1) =~= Seq::<Seq<char>>::empty());
        assert(seq![Seq::<char>::empty()].drop_last() =~= Seq::<Seq<char>>::empty());
    } else {
        lemma_split_leading_sep(path, '/');
        lemma_keep_nonempty_skip_empty(split_on(path, '/'));
        assert(split_on(path, '/').skip(1) =~= split_on(path, '/').drop_first());
    }
}

/// No URL occurs twice among the assets kept by `first_by_url`.
pub proof fn lemma_first_by_url_unique(s: Seq<(Seq<char>, AssetKind)>)
    ensures
        forall|a: int, b: int|
            0 <= a < b < first_by_url(s).len() ==> first_by_url(s)[a].0 != first_by_url(s)[b].0,
    decreases s.len(),
{
    if s.len() > 0 {
        lemma_first_by_url_unique(s.drop_last());
        let d = first_by_url(s.drop_last());
        if !(exists|k: int| 0 <= k < d.len() && d[k].0 == s.last().0) {
            let e = d.push(s.last());
            assert(first_by_url(s) == e);
            assert forall|a: int, b: int| 0 <= a < b < e.len() implies e[a].0 != e[b].0 by {
                if b == d.len() {
                    assert(e[a] == d[a]);
                } else {
                    assert(e[a] == d[a] && e[b] == d[b]);
                }
            }
        }
    }
}

/// Every URL among the candidates keeps an asset.
pub proof fn lemma_first_by_url_complete(s: Seq<(Seq<char>, AssetKind)>, i: int)
    requires
        0 <= i < s.len(),
    ensures
        exists|k: int| 0 <= k < first_by_url(s).len() && first_by_url(s)[k].0 == s[i].0,
    decreases s.len(),
{
    let d = first_by_url(s.drop_last());
    if i < s.len() - 1 {
        lemma_first_by_url_complete(s.drop_last(), i);
        let k = choose|k: int| 0 <= k < d.len() && d[k].0 == s.drop_last()[i].0;
        assert(s.drop_last()[i] == s[i]);
        assert(first_by_url(s)[k] == d[k]);
    } else if exists|k: int| 0 <= k < d.len() && d[k].0 == s.last().0 {
        let k = choose|k: int| 0 <= k < d.len() && d[k].0 == s.last().0;
        assert(first_by_url(s) == d);
        assert(first_by_url(s)[k].0 == s[i].0);
    } else {
        assert(first_by_url(s) == d.push(s.last()));
        assert(first_by_url(s)[d.len() as int] == s.last());
    }
}

/// The version identifiers are distinct.
pub proof fn lemma_dedup_distinct(s: Seq<Seq<char>>)
    ensures
        all_distinct(dedup(s)),
    decreases s.len(),
{
    if s.len() > 0 {
        lemma_dedup_distinct(s.drop_last());
    }
}

/// Within the downloads of one version of a repository, each URL occurs
/// once: a tag and a release that share a tarball URL give one asset.
pub proof fn lemma_downloads_one_per_url(
    tags: Seq<GithubTagResponse>,
    rels: Seq<GithubReleaseResponse>,
    v: Seq<char>,
)
    ensures
        forall|a: int, b: int|
            0 <= a < b < downloads_for(tags, rels, v).len() ==> downloads_for(tags, rels, v)[a].0
                != downloads_for(tags, rels, v)[b].0,
        forall|i: int|
            0 <= i < all_candidates(tags, rels, v).len() ==> exists|k: int|
                0 <= k < downloads_for(tags, rels, v).len() && downloads_for(tags, rels, v)[k].0
                    == (#[trigger] all_candidates(tags, rels, v)[i]).0,
{
    let s = all_candidates(tags, rels, v);
    lemma_first_by_url_unique(s);
    assert(downloads_for(tags, rels, v) == first_by_url(s));
    assert forall|i: int| 0 <= i < s.len() implies exists|k: int|
        0 <= k < downloads_for(tags, rels, v).len() && downloads_for(tags, rels, v)[k].0
            == (#[trigger] s[i]).0 by {
        lemma_first_by_url_complete(s, i);
    }
}

/// The versions of a repository are distinct.
pub proof fn lemma_version_ids_distinct(
    tags: Seq<GithubTagResponse>,
    rels: Seq<GithubReleaseResponse>,
)
    ensures
        all_distinct(version_ids(tags, rels)),
{
    lemma_dedup_distinct(tag_names(tags) + release_tags(rels));
}

} // verus!
