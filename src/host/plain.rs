//! Any other server: versions come from the links of a directory listing
//! whose file names the extractor ties to the project.
use vstd::prelude::*;
use vstd::string::*;

use crate::host::HostError;
use crate::location::ParsedUrl;
use crate::metadata::{
    all_distinct, all_of_kind, undated, urls_of, AssetKind, VersionMetadata, VersionedAsset,
};
use crate::text::{
    join_strings, join_with, split_on, split_str, starts_with_str, trim_leading,
    trim_leading_str, views_of,
};
use crate::versioning::{
    default_table, default_table_compiles, extraction_of, PatternView, VersionExtractor,
};

verus! {

/// Whether the HTML library accepts `selector` as a CSS selector.
pub uninterp spec fn selector_accepts(selector: Seq<char>) -> bool;

/// The value of attribute `attr` of each element of the document `html`
/// that `selector` selects, in the order the selection yields them (the
/// order in which the parser added the elements to its tree).
pub uninterp spec fn selected_attributes(
    html: Seq<char>,
    selector: Seq<char>,
    attr: Seq<char>,
) -> Seq<Option<Seq<char>>>;

/// The views of a list of optional strings.
pub open spec fn opt_views(v: Seq<Option<String>>) -> Seq<Option<Seq<char>>> {
    v.map_values(|o: Option<String>| match o {
        Some(s) => Some(s@),
        None => None,
    })
}

/// Relies on `scraper::Selector::parse`, `scraper::Html::parse_document`,
/// `Html::select` and `Element::attr`: the attribute of each selected
/// element, in the order the selection yields them.
#[verifier::external_body]
fn select_attribute(html: &str, selector: &str, attr: &str) -> (r: Result<
    Vec<Option<String>>,
    String,
>)
    ensures
        r is Ok <==> selector_accepts(selector@),
        r matches Ok(v) ==> opt_views(v@) == selected_attributes(html@, selector@, attr@),
{
    let sel = scraper::Selector::parse(selector).map_err(|e| e.to_string())?;
    let doc = scraper::Html::parse_document(html);
    Ok(doc.select(&sel).map(|e| e.value().attr(attr).map(|a| a.to_string())).collect())
}

/// A directory on a plain web server.
#[derive(Debug, Clone)]
pub struct PlainHost {
    /// The URL's path without its leading slashes.
    pub path: String,
    /// The URL the host was made from.
    pub url: ParsedUrl,
    /// The path segments but the last, joined with `/`.
    pub directory: String,
}

/// The host of a URL as text, empty where it has none.
pub open spec fn host_text(u: ParsedUrl) -> Seq<char> {
    match u.host {
        Some(h) => h@,
        None => Seq::empty(),
    }
}

/// The path segments, or none where the path does not start with `/`.
pub open spec fn plain_segments(path: Seq<char>) -> Seq<Seq<char>> {
    if path.len() > 0 && path[0] == '/' {
        split_on(path.drop_first(), '/')
    } else {
        Seq::empty()
    }
}

/// The segments of the path but the last, joined with `/`.
pub open spec fn parent_directory(path: Seq<char>) -> Seq<char> {
    let segs = plain_segments(path);
    join_with(
        if segs.len() > 0 {
            segs.drop_last()
        } else {
            segs
        },
        "/"@,
    )
}

/// Where the listing of `directory` is served.
pub open spec fn listing_url_of(scheme: Seq<char>, host: Seq<char>, directory: Seq<char>) -> Seq<
    char,
> {
    scheme + "://"@ + host + "/"@ + directory + "/"@
}

/// `s` begins with `http`.
pub open spec fn is_absolute_link(s: Seq<char>) -> bool {
    "http"@.len() <= s.len() && s.take("http"@.len() as int) == "http"@
}

/// The scheme and host of a URL, as `scheme://host`.
pub open spec fn origin_of(u: ParsedUrl) -> Seq<char> {
    u.scheme@ + "://"@ + host_text(u)
}

/// The absolute download URL of a link of the listing: the link itself
/// where it is absolute, else `origin/directory/` and the link without its
/// leading dots and slashes.
pub open spec fn asset_url(origin: Seq<char>, directory: Seq<char>, href: Seq<char>) -> Seq<char> {
    if is_absolute_link(href) {
        href
    } else {
        origin + "/"@ + directory + "/"@ + trim_leading(trim_leading(href, '.'), '/')
    }
}

/// The text of each link, empty where the element has no `href`.
pub open spec fn link_texts(v: Seq<Option<String>>) -> Seq<Seq<char>> {
    v.map_values(|o: Option<String>| match o {
        Some(s) => s@,
        None => Seq::<char>::empty(),
    })
}

/// The (version, URL) of each link whose extracted name is `reference`.
pub open spec fn kept_links(
    pats: Seq<PatternView>,
    reference: Seq<char>,
    origin: Seq<char>,
    directory: Seq<char>,
    links: Seq<Seq<char>>,
) -> Seq<(Seq<char>, Seq<char>)>
    decreases links.len(),
{
    if links.len() == 0 {
        Seq::empty()
    } else {
        let prev = kept_links(pats, reference, origin, directory, links.drop_last());
        match extraction_of(pats, links.last()) {
            Some((name, version)) => if name == reference {
                prev.push((version, asset_url(origin, directory, links.last())))
            } else {
                prev
            },
            None => prev,
        }
    }
}

/// The index of the first group at or after `i` with version `v`, or -1.
pub open spec fn find_version(g: Seq<(Seq<char>, Seq<Seq<char>>)>, v: Seq<char>, i: int) -> int
    decreases g.len() - i,
{
    if 0 <= i < g.len() {
        if g[i].0 == v {
            i
        } else {
            find_version(g, v, i + 1)
        }
    } else {
        -1
    }
}

/// `e` added to the group of its version unless that group has its URL
/// already, or as a new group at the end.
pub open spec fn add_to_group(g: Seq<(Seq<char>, Seq<Seq<char>>)>, e: (Seq<char>, Seq<char>)) -> Seq<
    (Seq<char>, Seq<Seq<char>>),
> {
    let k = find_version(g, e.0, 0);
    if k >= 0 {
        if g[k].1.contains(e.1) {
            g
        } else {
            g.update(k, (e.0, g[k].1.push(e.1)))
        }
    } else {
        g.push((e.0, seq![e.1]))
    }
}

/// The URLs of `entries` grouped by version, groups in order of first appearance.
pub open spec fn group_by_version(entries: Seq<(Seq<char>, Seq<char>)>) -> Seq<
    (Seq<char>, Seq<Seq<char>>),
>
    decreases entries.len(),
{
    if entries.len() == 0 {
        Seq::empty()
    } else {
        add_to_group(group_by_version(entries.drop_last()), entries.last())
    }
}

/// Each entry as its version and download URLs.
pub open spec fn groups_view(v: Seq<VersionMetadata>) -> Seq<(Seq<char>, Seq<Seq<char>>)> {
    v.map_values(|m: VersionMetadata| (m.version@, urls_of(m.downloads@)))
}

/// Every entry holds undated release assets and no notes.
pub open spec fn plain_entries(v: Seq<VersionMetadata>) -> bool {
    forall|q: int|
        0 <= q < v.len() ==> all_of_kind(#[trigger] v[q].downloads@, AssetKind::Release) && undated(
            v[q].downloads@,
        ) && v[q].release_notes is None && v[q].released_at is None
}

/// No entry lists a URL twice.
pub open spec fn urls_unique(v: Seq<VersionMetadata>) -> bool {
    forall|q: int| 0 <= q < v.len() ==> all_distinct(urls_of(#[trigger] v[q].downloads@))
}

/// The name the built-in table extracts from `path`, empty if none.
pub open spec fn reference_name(path: Seq<char>) -> Seq<char> {
    match extraction_of(default_table(), path) {
        Some((name, _)) => name,
        None => Seq::empty(),
    }
}

proof fn lemma_find_version(g: Seq<(Seq<char>, Seq<Seq<char>>)>, v: Seq<char>, i: int)
    requires
        0 <= i,
    ensures
        find_version(g, v, i) == -1 || (i <= find_version(g, v, i) < g.len() && g[find_version(
            g,
            v,
            i,
        )].0 == v),
        find_version(g, v, i) == -1 ==> forall|j: int| i <= j < g.len() ==> g[j].0 != v,
    decreases g.len() - i,
{
    if i < g.len() && g[i].0 != v {
        lemma_find_version(g, v, i + 1);
    }
}

/// Grouping keeps each version once.
pub proof fn lemma_groups_distinct(entries: Seq<(Seq<char>, Seq<char>)>)
    ensures
        forall|a: int, b: int|
            0 <= a < b < group_by_version(entries).len() ==> group_by_version(entries)[a].0
                != group_by_version(entries)[b].0,
    decreases entries.len(),
{
    if entries.len() > 0 {
        let g = group_by_version(entries.drop_last());
        let e = entries.last();
        lemma_groups_distinct(entries.drop_last());
        lemma_find_version(g, e.0, 0);
        let h = group_by_version(entries);
        assert forall|a: int, b: int| 0 <= a < b < h.len() implies h[a].0 != h[b].0 by {
            if find_version(g, e.0, 0) >= 0 {
                assert(h[a].0 == g[a].0 && h[b].0 == g[b].0);
            } else if b < g.len() {
                assert(h[a] == g[a] && h[b] == g[b]);
            } else {
                assert(h[a] == g[a]);
            }
        }
    }
}

/// Within each group no URL repeats.
pub proof fn lemma_group_urls_distinct(entries: Seq<(Seq<char>, Seq<char>)>)
    ensures
        forall|q: int|
            0 <= q < group_by_version(entries).len() ==> all_distinct(
                #[trigger] group_by_version(entries)[q].1,
            ),
    decreases entries.len(),
{
    if entries.len() > 0 {
        let g = group_by_version(entries.drop_last());
        let e = entries.last();
        lemma_group_urls_distinct(entries.drop_last());
        lemma_find_version(g, e.0, 0);
        let h = group_by_version(entries);
        let k = find_version(g, e.0, 0);
        assert forall|q: int| 0 <= q < h.len() implies all_distinct(#[trigger] h[q].1) by {
            if k >= 0 && !g[k].1.contains(e.1) && q == k {
                let u = g[k].1.push(e.1);
                assert(h[q].1 == u);
                assert forall|a: int, b: int| 0 <= a < b < u.len() implies u[a] != u[b] by {
                    if b == g[k].1.len() {
                        assert(u[a] == g[k].1[a]);
                    } else {
                        assert(u[a] == g[k].1[a] && u[b] == g[k].1[b]);
                    }
                }
            } else if k < 0 && q == g.len() {
                assert(h[q].1 == seq![e.1]);
            } else {
                assert(h[q] == g[q]);
            }
        }
    }
}

/// The versions of a listing are distinct.
pub proof fn lemma_listing_versions_distinct(
    pats: Seq<PatternView>,
    reference: Seq<char>,
    origin: Seq<char>,
    directory: Seq<char>,
    links: Seq<Seq<char>>,
)
    ensures
        all_distinct(
            group_by_version(kept_links(pats, reference, origin, directory, links)).map_values(
                |g: (Seq<char>, Seq<Seq<char>>)| g.0,
            ),
        ),
{
    let g = group_by_version(kept_links(pats, reference, origin, directory, links));
    lemma_groups_distinct(kept_links(pats, reference, origin, directory, links));
    let m = g.map_values(|x: (Seq<char>, Seq<Seq<char>>)| x.0);
    assert forall|a: int, b: int| 0 <= a < b < m.len() implies m[a] != m[b] by {
        assert(m[a] == g[a].0 && m[b] == g[b].0);
    }
}

/// The index of the entry of version `v`, if any.
fn find_entry(out: &Vec<VersionMetadata>, v: &str) -> (r: Option<usize>)
    ensures
        r matches Some(k) ==> k < out@.len() && find_version(groups_view(out@), v@, 0) == k,
        r is None ==> find_version(groups_view(out@), v@, 0) == -1,
{
    let ghost g = groups_view(out@);
    let mut k: usize = 0;
    while k < out.len()
        invariant
            k <= out@.len(),
            g == groups_view(out@),
            find_version(g, v@, 0) == find_version(g, v@, k as int),
        decreases out@.len() - k,
    {
        assert(g[k as int].0 == out@[k as int].version@);
        if crate::text::same_text(out[k].version.as_str(), v) {
            return Some(k);
        }
        k = k + 1;
    }
    None
}

/// Whether an asset of `v` has URL `u`.
fn has_url(v: &Vec<VersionedAsset>, u: &str) -> (r: bool)
    ensures
        r == urls_of(v@).contains(u@),
{
    let mut i: usize = 0;
    while i < v.len()
        invariant
            i <= v@.len(),
            forall|q: int| 0 <= q < i ==> v@[q].url@ != u@,
        decreases v@.len() - i,
    {
        if crate::text::same_text(v[i].url.as_str(), u) {
            assert(urls_of(v@)[i as int] == u@);
            return true;
        }
        i = i + 1;
    }
    assert forall|q: int| 0 <= q < urls_of(v@).len() implies urls_of(v@)[q] != u@ by {
        assert(urls_of(v@)[q] == v@[q].url@);
    }
    false
}

/// Adds `url` to the entry of `version` unless it is there already, or a new entry for it at the end.
fn add_download(out: &mut Vec<VersionMetadata>, version: String, url: String)
    requires
        plain_entries(old(out)@),
    ensures
        groups_view(final(out)@) == add_to_group(groups_view(old(out)@), (version@, url@)),
        plain_entries(final(out)@),
{
    let ghost g = groups_view(out@);
    let ghost old_out = out@;
    let found = find_entry(out, version.as_str());
    if let Some(k) = found {
        proof {
            lemma_find_version(g, version@, 0);
        }
        assert(g[k as int] == (out@[k as int].version@, urls_of(out@[k as int].downloads@)));
        if has_url(&out[k].downloads, url.as_str()) {
            return;
        }
        let mut m = out.remove(k);
        assert(m == old_out[k as int]);
        let ghost old_urls = urls_of(m.downloads@);
        m.downloads.push(VersionedAsset::new(url, AssetKind::Release));
        assert(urls_of(m.downloads@) =~= old_urls.push(url@));
        out.insert(k, m);
        assert(out@ =~= old_out.update(k as int, m));
        assert(groups_view(out@) =~= g.update(k as int, (version@, g[k as int].1.push(url@))));
    } else {
        let mut downloads: Vec<VersionedAsset> = Vec::new();
        downloads.push(VersionedAsset::new(url, AssetKind::Release));
        assert(urls_of(downloads@) =~= seq![url@]);
        out.push(VersionMetadata { version, downloads, release_notes: None, released_at: None });
        assert(groups_view(out@) =~= g.push((version@, seq![url@])));
    }
}

impl PlainHost {
    /// The host of any URL: its path without leading slashes, and the
    /// directory that holds its last segment.
    pub fn from_url(url: &ParsedUrl) -> (r: PlainHost)
        ensures
            r.path@ == trim_leading(url.path@, '/'),
            r.directory@ == parent_directory(url.path@),
            r.url == *url,
    {
        let path = trim_leading_str(url.path.as_str(), '/');
        let n = url.path.unicode_len();
        let mut segments: Vec<String> = if n > 0 && url.path.as_str().get_char(0) == '/' {
            let rest = url.path.as_str().substring_char(1, n);
            assert(rest@ =~= url.path@.drop_first());
            split_str(rest, '/')
        } else {
            Vec::new()
        };
        assert(views_of(segments@) == plain_segments(url.path@)) by {
            if !(n > 0 && url.path@[0] == '/') {
                assert(views_of(segments@) =~= Seq::<Seq<char>>::empty());
            }
        }
        let ghost segs = views_of(segments@);
        if segments.len() > 0 {
            segments.pop();
            assert(views_of(segments@) =~= segs.drop_last());
        }
        let directory = join_strings(&segments, "/");
        PlainHost { path, url: url.duplicate(), directory }
    }

    /// Where the directory listing is served.
    pub fn listing_url(&self) -> (r: String)
        ensures
            r@ == listing_url_of(self.url.scheme@, host_text(self.url), self.directory@),
    {
        self.url.scheme.clone().concat("://").concat(self.url.host_or_empty().as_str()).concat(
            "/",
        ).concat(self.directory.as_str()).concat("/")
    }

    /// The download URL of a link of the listing.
    fn link_url(&self, href: &str) -> (r: String)
        ensures
            r@ == asset_url(origin_of(self.url), self.directory@, href@),
    {
        if starts_with_str(href, "http") {
            String::from_str(href)
        } else {
            let tail = trim_leading_str(href, '.');
            self.url.scheme.clone().concat("://").concat(self.url.host_or_empty().as_str()).concat(
                "/",
            ).concat(self.directory.as_str()).concat("/").concat(
                trim_leading_str(tail.as_str(), '/').as_str(),
            )
        }
    }

    /// Groups by version the links whose extracted name is `reference`.
    pub fn group_listing(
        &self,
        matcher: &VersionExtractor,
        reference: &str,
        links: &Vec<Option<String>>,
    ) -> (r: Vec<VersionMetadata>)
        ensures
            groups_view(r@) == group_by_version(
                kept_links(
                    matcher@,
                    reference@,
                    origin_of(self.url),
                    self.directory@,
                    link_texts(links@),
                ),
            ),
            plain_entries(r@),
            urls_unique(r@),
    {
        let mut out: Vec<VersionMetadata> = Vec::new();
        let mut i: usize = 0;
        assert(groups_view(out@) =~= Seq::<(Seq<char>, Seq<Seq<char>>)>::empty());
        assert(link_texts(links@).take(0) =~= Seq::<Seq<char>>::empty());
        while i < links.len()
            invariant
                i <= links@.len(),
                plain_entries(out@),
                groups_view(out@) == group_by_version(
                    kept_links(
                        matcher@,
                        reference@,
                        origin_of(self.url),
                        self.directory@,
                        link_texts(links@).take(i as int),
                    ),
                ),
            decreases links@.len() - i,
        {
            let ghost texts = link_texts(links@);
            let href: &str = match &links[i] {
                Some(s) => s.as_str(),
                None => {
                    proof {
                        reveal_strlit("");
                    }
                    ""
                },
            };
            assert(href@ =~= texts[i as int]);
            assert(texts.take(i + 1).drop_last() =~= texts.take(i as int));
            let ghost prev = kept_links(
                matcher@,
                reference@,
                origin_of(self.url),
                self.directory@,
                texts.take(i as int),
            );
            match matcher.extract(href) {
                Ok(m) => {
                    if crate::text::same_text(m.name.as_str(), reference) {
                        let url = self.link_url(href);
                        add_download(&mut out, m.version, url);
                        assert(prev.push(
                            (m.version@, asset_url(origin_of(self.url), self.directory@, href@)),
                        ).drop_last() =~= prev);
                    }
                },
                Err(_) => {},
            }
            i = i + 1;
        }
        assert(link_texts(links@).take(i as int) =~= link_texts(links@));
        proof {
            lemma_group_urls_distinct(
                kept_links(
                    matcher@,
                    reference@,
                    origin_of(self.url),
                    self.directory@,
                    link_texts(links@),
                ),
            );
            assert forall|q: int| 0 <= q < out@.len() implies all_distinct(
                urls_of(#[trigger] out@[q].downloads@),
            ) by {
                let g = group_by_version(
                    kept_links(
                        matcher@,
                        reference@,
                        origin_of(self.url),
                        self.directory@,
                        link_texts(links@),
                    ),
                );
                assert(all_distinct(g[q].1));
                assert(groups_view(out@)[q] == (out@[q].version@, urls_of(out@[q].downloads@)));
            }
        }
        out
    }

    /// The versions found in a directory listing `body`: its links whose
    /// name, as extracted, is the name extracted from this host's URL.
    pub fn versions_from_listing(&self, body: &str) -> (r: Result<Vec<VersionMetadata>, HostError>)
        ensures
            r is Ok <==> selector_accepts("a"@) && default_table_compiles() && extraction_of(
                default_table(),
                self.url.serialization@,
            ) is Some,
            r matches Ok(v) ==> groups_view(v@) == group_by_version(
                kept_links(
                    default_table(),
                    reference_name(self.url.serialization@),
                    origin_of(self.url),
                    self.directory@,
                    link_texts_of(selected_attributes(body@, "a"@, "href"@)),
                ),
            ) && plain_entries(v@) && urls_unique(v@),
            r matches Err(e) ==> e is ParseError,
    {
        let links = match select_attribute(body, "a", "href") {
            Ok(v) => v,
            Err(msg) => return Err(HostError::ParseError(msg)),
        };
        let matcher = match VersionExtractor::new() {
            Ok(m) => m,
            Err(e) => return Err(HostError::ParseError(e.message())),
        };
        let reference = match matcher.extract(self.url.serialization.as_str()) {
            Ok(m) => m,
            Err(e) => return Err(HostError::ParseError(e.message())),
        };
        assert(link_texts(links@) =~= link_texts_of(opt_views(links@)));
        Ok(self.group_listing(&matcher, reference.name.as_str(), &links))
    }
}

/// The text of each link, empty where the element has no `href`.
pub open spec fn link_texts_of(v: Seq<Option<Seq<char>>>) -> Seq<Seq<char>> {
    v.map_values(|o: Option<Seq<char>>| match o {
        Some(s) => s,
        None => Seq::<char>::empty(),
    })
}

} // verus!
