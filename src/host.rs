//! The kinds of upstream host, and the choice among them for a URL.
use vstd::prelude::*;
use vstd::string::*;

use crate::location::{opt_view, path_after_host, ParsedUrl};
use crate::text::{keep_nonempty, same_text, split_on, trim_leading};

pub mod github;
pub mod gnome;
pub mod plain;

use github::{lemma_repo_segments_of_rooted_path, repo_segments, GithubHost};
use gnome::GnomeHost;
use plain::{parent_directory, PlainHost};

verus! {

/// Why a host could not be made, or could not list its versions.
#[derive(Debug, Clone, PartialEq, Eq)]
pub enum HostError {
    /// The URL does not have the shape this host needs.
    InvalidUrl(String),
    /// A part the host needs is missing from the URL, or did not parse.
    ParseError(String),
    /// The host could not be reached.
    ApiRequest { context: String, source: String },
    /// The host answered with something that could not be decoded.
    ApiResponse { context: String, source: String },
    /// The host does not offer this operation.
    Unsupported(String),
}

/// The fetcher for one upstream location.
#[derive(Debug, Clone)]
pub enum Host {
    /// A repository on GitHub.
    Github(GithubHost),
    /// A project on GNOME's download server.
    Gnome(GnomeHost),
    /// A directory on any other web server.
    Plain(PlainHost),
}

/// The host for a URL: a GitHub repository where the host is exactly
/// `github.com`, else the directory that holds the file.
pub fn from_url(url: &ParsedUrl) -> (r: Result<Host, HostError>)
    ensures
        opt_view(url.host) == Some("github.com"@) ==> (r is Ok <==> repo_segments(url.path@).len()
            >= 2),
        opt_view(url.host) == Some("github.com"@) ==> (r matches Ok(h) ==> h matches Host::Github(
            g,
        ) && g.owner@ == repo_segments(url.path@)[0] && g.repo@ == repo_segments(url.path@)[1]
            && g.url == *url),
        opt_view(url.host) == Some("github.com"@) ==> (r matches Err(e) ==> e is ParseError),
        path_after_host(*url) && opt_view(url.host) == Some("github.com"@) ==> (r is Ok
            <==> keep_nonempty(split_on(url.path@, '/')).len() >= 2) && (r matches Ok(h) ==> h matches Host::Github(
            g,
        ) && g.owner@ == keep_nonempty(split_on(url.path@, '/'))[0] && g.repo@ == keep_nonempty(
            split_on(url.path@, '/'),
        )[1]),
        opt_view(url.host) != Some("github.com"@) ==> (r matches Ok(h) && h matches Host::Plain(p)
            && p.path@ == trim_leading(url.path@, '/') && p.directory@ == parent_directory(
            url.path@,
        ) && p.url == *url),
{
    let github = match &url.host {
        Some(h) => same_text(h.as_str(), "github.com"),
        None => false,
    };
    if github {
        proof {
            if path_after_host(*url) {
                lemma_repo_segments_of_rooted_path(url.path@);
            }
        }
        match GithubHost::from_url(url) {
            Ok(g) => Ok(Host::Github(g)),
            Err(e) => Err(e),
        }
    } else {
        Ok(Host::Plain(PlainHost::from_url(url)))
    }
}

} // verus!
