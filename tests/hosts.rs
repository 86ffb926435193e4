use upstreams_rs::host::github::{
    GithubHost, GithubReleaseAsset, GithubReleaseResponse, GithubTagCommit, GithubTagResponse,
};
use upstreams_rs::host::gnome::{GnomeCacheComponentFile, GnomeCacheResponse, GnomeHost};
use upstreams_rs::host::plain::PlainHost;
use upstreams_rs::host::{from_url, Host, HostError};
use upstreams_rs::location::ParsedUrl;
use upstreams_rs::versioning::VersionExtractor;
use upstreams_rs::{AssetKind, VersionedAsset};

fn url(s: &str) -> ParsedUrl {
    ParsedUrl::parse(s).unwrap()
}

fn tag(name: &str, tarball: &str) -> GithubTagResponse {
    GithubTagResponse {
        name: name.to_string(),
        zipball_url: format!("{}.zip", tarball),
        tarball_url: tarball.to_string(),
        commit: GithubTagCommit { sha: "abc".to_string(), url: "https://api.github.com/c".to_string() },
        node_id: "N".to_string(),
    }
}

fn release(tag_name: &str, tarball: &str, body: &str, assets: Vec<&str>) -> GithubReleaseResponse {
    GithubReleaseResponse {
        tag_name: tag_name.to_string(),
        name: format!("Release {}", tag_name),
        body: body.to_string(),
        assets: assets
            .into_iter()
            .map(|a| GithubReleaseAsset {
                name: "file".to_string(),
                label: None,
                content_type: "application/gzip".to_string(),
                state: "uploaded".to_string(),
                size: 10,
                download_count: 0,
                created_at: "2024-01-01T00:00:00Z".to_string(),
                updated_at: "2024-01-01T00:00:00Z".to_string(),
                browser_download_url: a.to_string(),
            })
            .collect(),
        tarball_url: tarball.to_string(),
        zipball_url: format!("{}.zip", tarball),
        published_at: "2024-01-01T00:00:00Z".to_string(),
    }
}

#[test]
fn test_from_url() {
    let valid_urls = [
        "https://github.com/rust-lang/rust/archive/refs/tags/1.73.0.tar.gz",
        "https://github.com/microsoft/vscode/archive/refs/tags/1.84.0.tar.gz",
        "https://github.com/torvalds/linux/archive/refs/tags/v6.6.tar.gz",
        "https://github.com/redis/redis/archive/refs/tags/7.2.1.tar.gz",
    ];

    let invalid_urls = [
        "https://github.com",
        "https://github.com/test",
        "https://github.com/",
        "https://github.com/test//",
        "https://github.com//test",
    ];

    for u in valid_urls {
        let u = ParsedUrl::parse(u).unwrap();
        let l = GithubHost::from_url(&u);
        assert!(l.is_ok())
    }

    for u in invalid_urls {
        let u = ParsedUrl::parse(u).unwrap();
        let l = GithubHost::from_url(&u);
        assert!(l.is_err())
    }
}

#[test]
fn github_owner_and_repo() {
    let h = GithubHost::from_url(&url("https://github.com/cli/cli/archive/refs/tags/v2.63.2.tar.gz")).unwrap();
    assert_eq!(h.owner, "cli");
    assert_eq!(h.repo, "cli");
    assert_eq!(h.tags_url(), "https://api.github.com/repos/cli/cli/tags");
    assert_eq!(h.releases_url(), "https://api.github.com/repos/cli/cli/releases");
    let e = GithubHost::from_url(&url("https://github.com/only")).unwrap_err();
    assert_eq!(e, HostError::ParseError("missing repository name in GitHub URL".to_string()));
    let e = GithubHost::from_url(&url("https://github.com/")).unwrap_err();
    assert_eq!(e, HostError::ParseError("missing repository owner in GitHub URL".to_string()));
}

#[test]
fn dispatch_by_host() {
    match from_url(&url("https://github.com/redis/redis/archive/refs/tags/7.2.1.tar.gz")).unwrap() {
        Host::Github(g) => {
            assert_eq!(g.owner, "redis");
            assert_eq!(g.repo, "redis");
        }
        other => panic!("expected a GitHub host, got {:?}", other),
    }
    assert!(matches!(from_url(&url("https://github.com/test")), Err(HostError::ParseError(_))));
    match from_url(&url("https://download.gnome.org/sources/gtk/4.0/gtk-4.0.1.tar.xz")).unwrap() {
        Host::Plain(p) => {
            assert_eq!(p.path, "sources/gtk/4.0/gtk-4.0.1.tar.xz");
            assert_eq!(p.directory, "sources/gtk/4.0");
        }
        other => panic!("expected a plain host, got {:?}", other),
    }
    assert!(matches!(from_url(&url("https://www.github.com/a/b")).unwrap(), Host::Plain(_)));
}

#[test]
fn gnome_needs_sources() {
    let h = GnomeHost::from_url(&url("https://download.gnome.org/sources/gtk/4.0/gtk-4.0.1.tar.xz")).unwrap();
    assert_eq!(h.project, "gtk");
    assert_eq!(h.cache_url(), "https://download.gnome.org/sources/gtk/cache.json");
    let e = GnomeHost::from_url(&url("https://download.gnome.org/pub/gtk/")).unwrap_err();
    assert!(matches!(e, HostError::InvalidUrl(_)));
    assert!(GnomeHost::from_url(&url("https://download.gnome.org/sources/")).is_err());
    assert!(GnomeHost::from_url(&url("mailto:sources/gtk")).is_err());
}

fn component_file(xz: Option<&str>, gz: Option<&str>, bz2: Option<&str>) -> GnomeCacheComponentFile {
    GnomeCacheComponentFile {
        news: None,
        changes: None,
        sha256sum: None,
        tarxz: xz.map(|s| s.to_string()),
        targz: gz.map(|s| s.to_string()),
        tarbz2: bz2.map(|s| s.to_string()),
    }
}

#[test]
fn gnome_manifest_entries() {
    let h = GnomeHost::from_url(&url("https://download.gnome.org/sources/gtk/")).unwrap();
    let cache = GnomeCacheResponse {
        format: 1,
        components: vec![(
            "gtk".to_string(),
            vec![
                ("4.0.1".to_string(), component_file(Some("4.0/gtk-4.0.1.tar.xz"), None, None)),
                (
                    "3.24.0".to_string(),
                    component_file(None, Some("3.24/gtk-3.24.0.tar.gz"), Some("3.24/gtk-3.24.0.tar.bz2")),
                ),
            ],
        )],
        versions: vec![],
        meta: vec![],
    };
    let v = h.versions_from_cache(&cache);
    assert_eq!(v.len(), 2);
    assert_eq!(v[0].version, "4.0.1");
    assert_eq!(
        v[0].downloads,
        vec![VersionedAsset::new(
            "https://download.gnome.org/sources/gtk/4.0/gtk-4.0.1.tar.xz".to_string(),
            AssetKind::Release
        )]
    );
    assert_eq!(v[1].version, "3.24.0");
    assert_eq!(v[1].downloads.len(), 2);
    assert_eq!(v[1].downloads[0].url, "https://download.gnome.org/sources/gtk/3.24/gtk-3.24.0.tar.gz");
    assert_eq!(v[1].downloads[1].url, "https://download.gnome.org/sources/gtk/3.24/gtk-3.24.0.tar.bz2");
    assert!(v[1].release_notes.is_none());
}

#[test]
fn shared_tarball_collapses() {
    let tags = vec![tag("v1.0", "A")];
    let releases = vec![release("v1.0", "A", "notes", vec![])];
    let v = GithubHost::collect_versions(&tags, &releases);
    assert_eq!(v.len(), 1);
    assert_eq!(v[0].version, "v1.0");
    assert_eq!(v[0].downloads.len(), 1);
    assert_eq!(v[0].downloads[0].url, "A");
    assert_eq!(v[0].release_notes.as_deref(), Some("notes"));
}

#[test]
fn tags_and_releases_union() {
    let tags = vec![tag("v2.0", "T2"), tag("v1.0", "T1")];
    let releases = vec![
        release("v3.0", "R3", "three", vec!["R3-linux", "R3-mac", "R3-linux"]),
        release("v1.0", "R1", "one", vec![]),
    ];
    let v = GithubHost::collect_versions(&tags, &releases);
    let names: Vec<&str> = v.iter().map(|m| m.version.as_str()).collect();
    assert_eq!(names, vec!["v2.0", "v1.0", "v3.0"]);
    assert_eq!(v[0].downloads, vec![VersionedAsset::new("T2".to_string(), AssetKind::Autogenerated)]);
    assert!(v[0].release_notes.is_none());
    assert_eq!(
        v[1].downloads,
        vec![
            VersionedAsset::new("T1".to_string(), AssetKind::Autogenerated),
            VersionedAsset::new("R1".to_string(), AssetKind::Release),
        ]
    );
    assert_eq!(v[1].release_notes.as_deref(), Some("one"));
    assert_eq!(
        v[2].downloads,
        vec![
            VersionedAsset::new("R3".to_string(), AssetKind::Release),
            VersionedAsset::new("R3-linux".to_string(), AssetKind::Autogenerated),
            VersionedAsset::new("R3-mac".to_string(), AssetKind::Autogenerated),
        ]
    );
    assert!(GithubHost::collect_versions(&vec![], &vec![]).is_empty());
}

#[test]
fn plain_host_parts() {
    let h = PlainHost::from_url(&url("https://www.nano-editor.org/dist/v8/nano-8.3.tar.xz"));
    assert_eq!(h.path, "dist/v8/nano-8.3.tar.xz");
    assert_eq!(h.directory, "dist/v8");
    assert_eq!(h.listing_url(), "https://www.nano-editor.org/dist/v8/");
    let root = PlainHost::from_url(&url("https://example.org/"));
    assert_eq!(root.directory, "");
    assert_eq!(root.path, "");
}

#[test]
fn listing_grouped_by_version() {
    let h = PlainHost::from_url(&url("https://www.nano-editor.org/dist/v8/nano-8.3.tar.xz"));
    let matcher = VersionExtractor::new().unwrap();
    let links = vec![
        Some("nano-8.2.tar.xz".to_string()),
        Some("./nano-8.3.tar.gz".to_string()),
        None,
        Some("https://mirror.example/nano-8.2.tar.gz".to_string()),
        Some("other-1.0.tar.xz".to_string()),
        Some("../".to_string()),
    ];
    let v = h.group_listing(&matcher, "nano", &links);
    assert_eq!(v.len(), 2);
    assert_eq!(v[0].version, "8.2");
    assert_eq!(v[0].downloads.len(), 2);
    assert_eq!(v[0].downloads[0].url, "https://www.nano-editor.org/dist/v8/nano-8.2.tar.xz");
    assert_eq!(v[0].downloads[1].url, "https://mirror.example/nano-8.2.tar.gz");
    assert_eq!(v[0].downloads[0].kind, AssetKind::Release);
    assert_eq!(v[1].version, "8.3");
    assert_eq!(v[1].downloads[0].url, "https://www.nano-editor.org/dist/v8/nano-8.3.tar.gz");
}

#[test]
fn listing_from_html() {
    let h = PlainHost::from_url(&url("https://www.nano-editor.org/dist/v8/nano-8.3.tar.xz"));
    let body = r#"<html><body>
        <a href="nano-8.3.tar.xz">nano-8.3.tar.xz</a>
        <a href="nano-8.3.tar.xz.asc">sig</a>
        <a href="nano-8.1.tar.gz">nano-8.1.tar.gz</a>
        <a>no link</a>
        <a href="pico-1.0.tar.gz">pico</a>
    </body></html>"#;
    let v = h.versions_from_listing(body).unwrap();
    let names: Vec<&str> = v.iter().map(|m| m.version.as_str()).collect();
    assert_eq!(names, vec!["8.3", "8.1"]);
    assert_eq!(v[0].downloads.len(), 2);
    assert_eq!(v[0].downloads[0].url, "https://www.nano-editor.org/dist/v8/nano-8.3.tar.xz");
    assert_eq!(v[0].downloads[1].url, "https://www.nano-editor.org/dist/v8/nano-8.3.tar.xz.asc");
    let none = PlainHost::from_url(&url("https://example.org/files/"));
    assert!(matches!(none.versions_from_listing(body), Err(HostError::ParseError(_))));
}

#[test]
fn repeated_link_gives_one_download() {
    let h = PlainHost::from_url(&url("https://www.nano-editor.org/dist/v8/nano-8.3.tar.xz"));
    let matcher = VersionExtractor::new().unwrap();
    let links = vec![
        Some("nano-8.3.tar.xz".to_string()),
        Some("nano-8.3.tar.xz".to_string()),
        Some("./nano-8.3.tar.xz".to_string()),
    ];
    let v = h.group_listing(&matcher, "nano", &links);
    assert_eq!(v.len(), 1);
    assert_eq!(
        v[0].downloads,
        vec![VersionedAsset::new(
            "https://www.nano-editor.org/dist/v8/nano-8.3.tar.xz".to_string(),
            AssetKind::Release
        )]
    );
}

#[test]
fn gnome_single_component_versions_distinct() {
    let h = GnomeHost::from_url(&url("https://download.gnome.org/sources/glib/")).unwrap();
    let cache = GnomeCacheResponse {
        format: 1,
        components: vec![(
            "glib".to_string(),
            vec![
                ("2.80.0".to_string(), component_file(Some("2.80/glib-2.80.0.tar.xz"), None, None)),
                ("2.78.4".to_string(), component_file(Some("2.78/glib-2.78.4.tar.xz"), None, None)),
            ],
        )],
        versions: vec![("glib".to_string(), vec!["2.80.0".to_string(), "2.78.4".to_string()])],
        meta: vec![],
    };
    let v = h.versions_from_cache(&cache);
    let names: Vec<&str> = v.iter().map(|m| m.version.as_str()).collect();
    assert_eq!(names, vec!["2.80.0", "2.78.4"]);
}
