use upstreams_rs::location::ParsedUrl;
use upstreams_rs::versioning::{
    first_captured, Extraction, VersionError, VersionExtractor, VersionPattern, VersionStyle,
};

fn extraction(name: &str, version: &str) -> Extraction {
    Extraction { name: name.to_string(), version: version.to_string() }
}

#[test]
fn test_extract() {
    let known_good = vec![
        (
            "https://download.gnome.org/sources/NetworkManager/1.50/NetworkManager-1.50.0.tar.xz",
            Extraction { version: "1.50.0".to_string(), name: "NetworkManager".to_string() },
        ),
        (
            "https://github.com/cli/cli/archive/refs/tags/v2.63.2.tar.gz",
            Extraction { version: "2.63.2".to_string(), name: "cli".to_string() },
        ),
        (
            "https://www.x.org/pub/individual/xserver/xwayland-24.1.4.tar.xz",
            Extraction { version: "24.1.4".to_string(), name: "xwayland".to_string() },
        ),
        (
            "https://download.gnome.org/sources/gtk+/3.24/gtk+-3.24.33.tar.xz",
            Extraction { version: "3.24.33".to_string(), name: "gtk+".to_string() },
        ),
        (
            "https://www.nano-editor.org/dist/v8/nano-8.3.tar.xz",
            Extraction { version: "8.3".to_string(), name: "nano".to_string() },
        ),
        (
            "https://cdn.kernel.org/pub/linux/kernel/v6.x/linux-6.13.4.tar.xz",
            Extraction { version: "6.13.4".to_string(), name: "linux".to_string() },
        ),
        (
            "https://github.com/intel/Intel-Linux-Processor-Microcode-Data-Files/archive/refs/tags/microcode-20250211.tar.gz",
            Extraction {
                version: "20250211".to_string(),
                name: "Intel-Linux-Processor-Microcode-Data-Files".to_string(),
            },
        ),
        (
            "https://download.gnome.org/sources/gnome-disk-utility/46/gnome-disk-utility-46.1.tar.xz",
            Extraction { version: "46.1".to_string(), name: "gnome-disk-utility".to_string() },
        ),
        (
            "https://thrysoee.dk/editline/libedit-20221030-3.1.tar.gz",
            Extraction { version: "20221030-3.1".to_string(), name: "libedit".to_string() },
        ),
        (
            "https://www.sudo.ws/dist/sudo-1.9.16p2.tar.gz",
            Extraction { version: "1.9.16p2".to_string(), name: "sudo".to_string() },
        ),
        (
            "https://download.nvidia.com/XFree86/nvidia-persistenced/nvidia-persistenced-570.86.16.tar.bz2",
            Extraction { version: "570.86.16".to_string(), name: "nvidia-persistenced".to_string() },
        ),
        (
            "https://us.download.nvidia.com/XFree86/Linux-x86_64/570.86.16/NVIDIA-Linux-x86_64-570.86.16.run",
            Extraction { version: "570.86.16".to_string(), name: "NVIDIA-Linux-x86_64".to_string() },
        ),
        (
            "https://github.com/pop-os/cosmic-applets/archive/refs/tags/epoch-1.0.0-alpha.6.tar.gz",
            Extraction { version: "1.0.0-alpha.6".to_string(), name: "cosmic-applets".to_string() },
        ),
    ];

    let extractor = VersionExtractor::new().expect("Failed to create extractor");
    for (path, expected) in known_good {
        println!("Testing path: {}", path);
        let result = extractor.extract(path).expect("Failed to extract version");
        println!("Expected: {:?}, got: {:?}", expected, result);
        assert_eq!(result, expected);
    }
}

#[test]
fn plain_file_names() {
    let e = VersionExtractor::new().unwrap();
    assert_eq!(e.extract("NetworkManager-1.50.0.tar.xz").unwrap(), extraction("NetworkManager", "1.50.0"));
    assert_eq!(e.extract("libedit-20221030-3.1.tar.gz").unwrap(), extraction("libedit", "20221030-3.1"));
    assert_eq!(e.extract("nano-8.3.tar.xz").unwrap(), extraction("nano", "8.3"));
    assert_eq!(e.extract("foo_v12.zip").unwrap(), extraction("foo", "12"));
    assert_eq!(e.extract("tool-2024.01.31.tgz").unwrap(), extraction("tool", "2024.01.31"));
}

#[test]
fn forge_archive_urls() {
    let e = VersionExtractor::new().unwrap();
    assert_eq!(
        e.extract("https://github.com/cli/cli/archive/refs/tags/v2.63.2.tar.gz").unwrap(),
        extraction("cli", "2.63.2")
    );
    assert_eq!(
        e.extract("https://github.com/intel/Intel-Linux-Processor-Microcode-Data-Files/archive/refs/tags/microcode-20250211.tar.gz").unwrap(),
        extraction("Intel-Linux-Processor-Microcode-Data-Files", "20250211")
    );
    assert_eq!(
        e.extract("https://gitlab.com/group/bar/repository/archive.tar.gz?ref=v1").unwrap(),
        extraction("bar", "archive")
    );
}

#[test]
fn forge_rewrite_matches_synthetic_name() {
    let e = VersionExtractor::new().unwrap();
    let url = e.extract("https://github.com/owner/proj/archive/refs/tags/v1.4.2.tar.gz").unwrap();
    let faux = e.extract("proj-v1.4.2.tar.gz").unwrap();
    assert_eq!(url.name, "proj");
    assert_eq!(url.version, faux.version);
    assert_eq!(url.version, "1.4.2");
}

#[test]
fn extraction_is_repeatable() {
    let e = VersionExtractor::new().unwrap();
    for p in ["gtk+-3.24.33.tar.xz", "no-version-here", "noseparator", "https://github.com/a/b/archive/refs/tags/v1.0.tar.gz"] {
        let a = e.extract(p);
        let b = e.extract(p);
        match (a, b) {
            (Ok(x), Ok(y)) => assert_eq!(x, y),
            (Err(VersionError::InvalidVersion), Err(VersionError::InvalidVersion)) => {}
            _ => panic!("extraction of {} differed", p),
        }
    }
}

#[test]
fn lower_priority_number_wins() {
    let e = VersionExtractor::new().unwrap();
    // Both the compact-date pattern and the catch-all match; the date wins.
    assert_eq!(e.extract("libedit-20221030-3.1.tar.gz").unwrap(), extraction("libedit", "20221030-3.1"));
    let mut custom = VersionExtractor::new().unwrap();
    let first = VersionPattern::new(VersionStyle::Simple, r"^(?P<name>lib)(?P<version>edit)", 1).unwrap();
    custom.add_pattern(first);
    assert_eq!(custom.pattern_count(), 7);
    assert_eq!(custom.extract("libedit-20221030-3.1.tar.gz").unwrap(), extraction("lib", "edit"));
    let last = VersionPattern::new(VersionStyle::Simple, r"^(?P<name>lib)(?P<version>edit)", 200).unwrap();
    let mut later = VersionExtractor::new().unwrap();
    later.add_pattern(last);
    assert_eq!(later.extract("libedit-20221030-3.1.tar.gz").unwrap(), extraction("libedit", "20221030-3.1"));
}

#[test]
fn no_match_is_invalid_version() {
    let e = VersionExtractor::new().unwrap();
    let r = e.extract("README");
    assert!(matches!(r, Err(VersionError::InvalidVersion)));
    assert_eq!(r.unwrap_err().message(), "No version found in path");
    assert!(matches!(e.extract("https://example.org/files/"), Err(VersionError::InvalidVersion)));
}

#[test]
fn bad_pattern_is_refused() {
    let r = VersionPattern::new(VersionStyle::Semver, r"(?P<name>[", 3);
    assert!(r.is_err());
    let err = VersionError::RegexError(r.unwrap_err());
    assert!(err.message().starts_with("Invalid regex pattern: "));
    let ok = VersionPattern::new(VersionStyle::Semver, r"(?P<name>a)-(?P<version>\d)", 3).unwrap();
    assert_eq!(ok.source(), r"(?P<name>a)-(?P<version>\d)");
    assert_eq!(ok.priority, 3);
    assert_eq!(ok.style, VersionStyle::Semver);
}

#[test]
fn extract_with_given_parse() {
    let e = VersionExtractor::new().unwrap();
    let u = ParsedUrl {
        serialization: "https://github.com/o/proj/archive/refs/tags/v3.1.0.tar.gz".to_string(),
        scheme: "https".to_string(),
        host: Some("github.com".to_string()),
        path: "/o/proj/archive/refs/tags/v3.1.0.tar.gz".to_string(),
    };
    let r = e.extract_parsed("https://github.com/o/proj/archive/refs/tags/v3.1.0.tar.gz", Some(&u)).unwrap();
    assert_eq!(r, extraction("proj", "3.1.0"));
    let unparsed = e.extract_parsed("https://github.com/o/proj/archive/refs/tags/v3.1.0.tar.gz", None);
    assert!(matches!(unparsed, Err(VersionError::InvalidVersion)));
    let other = ParsedUrl {
        serialization: "https://example.org/o/proj/archive/refs/tags/proj-3.1.0.tar.gz".to_string(),
        scheme: "https".to_string(),
        host: Some("example.org".to_string()),
        path: "/o/proj/archive/refs/tags/proj-3.1.0.tar.gz".to_string(),
    };
    let r = e.extract_parsed("https://github.com/o/proj/archive/refs/tags/proj-3.1.0.tar.gz", Some(&other)).unwrap();
    assert_eq!(r, extraction("proj", "3.1.0"));
}

#[test]
fn url_parts_from_parser() {
    let u = ParsedUrl::parse("https://Example.org/a/b/c-1.0.tar.gz").unwrap();
    assert_eq!(u.scheme, "https");
    assert_eq!(u.host.as_deref(), Some("example.org"));
    assert_eq!(u.path, "/a/b/c-1.0.tar.gz");
    assert_eq!(u.serialization, "https://example.org/a/b/c-1.0.tar.gz");
    assert!(ParsedUrl::parse("not a url").is_err());
    assert_eq!(u.duplicate().path, u.path);
    assert_eq!(u.host_or_empty(), "example.org");
}

#[test]
fn first_present_capture_wins() {
    let caps = vec![
        None,
        Some(("foo".to_string(), "1.2".to_string())),
        Some(("bar".to_string(), "3".to_string())),
    ];
    assert_eq!(first_captured(&caps), Some(("foo".to_string(), "1.2".to_string())));
    assert_eq!(first_captured(&vec![None, None]), None);
    assert_eq!(first_captured(&vec![]), None);
}

#[test]
fn forge_name_without_archive_shape_is_plain() {
    let e = VersionExtractor::new().unwrap();
    assert_eq!(
        e.extract("https://github.com/o/p/releases/download/v1.0/p-1.0.tar.gz").unwrap(),
        extraction("p", "1.0")
    );
}
