//! Splits a file name or download URL into a project name and a version,
//! by a table of patterns tried in order of priority.
use vstd::prelude::*;
use vstd::string::*;

use crate::location::{opt_view, url_accepts, url_host, url_path, ParsedUrl};
use crate::text::{
    contains_str, has_infix, lemma_split_nonempty, lemma_split_pieces_lack_sep, occurs_at,
    same_text, split_on, split_str,
};

verus! {

#[verifier::external_type_specification]
#[verifier::external_body]
pub struct ExRegex(regex::Regex);

#[verifier::external_type_specification]
#[verifier::external_body]
pub struct ExRegexError(regex::Error);

/// Whether the regex engine accepts `pattern`.
pub uninterp spec fn regex_accepts(pattern: Seq<char>) -> bool;

/// What the regex compiled from `pattern` captures in `text` under the
/// groups named `first` and `second`, where it matches and both took part.
pub uninterp spec fn regex_group_pair(
    pattern: Seq<char>,
    text: Seq<char>,
    first: Seq<char>,
    second: Seq<char>,
) -> Option<(Seq<char>, Seq<char>)>;

/// The view of an optional pair of strings.
pub open spec fn pair_view(o: Option<(String, String)>) -> Option<(Seq<char>, Seq<char>)> {
    match o {
        Some((a, b)) => Some((a@, b@)),
        None => None,
    }
}

/// Relies on `regex::Regex::new`: whether a pattern compiles depends on its
/// text alone.
#[verifier::external_body]
fn compile_regex(pattern: &str) -> (r: Result<regex::Regex, regex::Error>)
    ensures
        r is Ok <==> regex_accepts(pattern@),
{
    regex::Regex::new(pattern)
}

/// Relies on `regex::Regex::captures` and `regex::Captures::name`: the groups
/// `first` and `second` of the first match of the pattern's regex in `text`.
/// The regex of a `VersionPattern` is always compiled from its `source`.
#[verifier::external_body]
fn capture_pair(p: &VersionPattern, text: &str, first: &str, second: &str) -> (r: Option<
    (String, String),
>)
    ensures
        pair_view(r) == regex_group_pair(p@.source, text@, first@, second@),
{
    let caps = p.pattern.captures(text)?;
    Some((caps.name(first)?.as_str().to_string(), caps.name(second)?.as_str().to_string()))
}

/// Relies on the `Display` of `regex::Error`, for a message only.
#[verifier::external_body]
fn regex_error_text(e: &regex::Error) -> (r: String) {
    e.to_string()
}

/// The shape of version that a pattern is meant for. It documents the
/// pattern and takes no part in matching.
#[derive(Debug, Clone, Copy, PartialEq, Eq, Structural)]
pub enum VersionStyle {
    /// Three numbers and optional qualifiers, such as `1.2.3-rc.1`.
    Semver,
    /// A date, such as `20250211` or `2024.01.31`.
    DateBased,
    /// A release series, such as `3.24.33`.
    ReleaseSeries,
    /// A plain number or two, such as `46.1`.
    Simple,
}

/// What a pattern is, as a value.
pub ghost struct PatternView {
    pub style: VersionStyle,
    pub source: Seq<char>,
    pub priority: u8,
}

/// A regex with the named groups `name` and `version`, and its priority
/// (lower is tried first).
#[derive(Debug)]
pub struct VersionPattern {
    /// The shape of version the pattern is meant for.
    pub style: VersionStyle,
    pattern: regex::Regex,
    source: String,
    /// Lower priorities are tried first.
    pub priority: u8,
}

impl View for VersionPattern {
    type V = PatternView;

    closed spec fn view(&self) -> PatternView {
        PatternView { style: self.style, source: self.source@, priority: self.priority }
    }
}

impl VersionPattern {
    /// Compiles `pattern`; fails exactly where the regex engine refuses it.
    pub fn new(style: VersionStyle, pattern: &str, priority: u8) -> (r: Result<Self, regex::Error>)
        ensures
            r is Ok <==> regex_accepts(pattern@),
            r matches Ok(p) ==> p@ == (PatternView { style, source: pattern@, priority }),
    {
        match compile_regex(pattern) {
            Ok(re) => Ok(VersionPattern {
                style,
                pattern: re,
                source: String::from_str(pattern),
                priority,
            }),
            Err(e) => Err(e),
        }
    }

    /// The text the pattern was compiled from.
    pub fn source(&self) -> (r: &str)
        ensures
            r@ == self@.source,
    {
        self.source.as_str()
    }
}

/// Why no extraction was made.
#[derive(Debug)]
pub enum VersionError {
    /// No pattern matched.
    InvalidVersion,
    /// A pattern did not compile.
    RegexError(regex::Error),
}

impl VersionError {
    /// A one-line description of the error.
    pub fn message(&self) -> (r: String) {
        match self {
            VersionError::InvalidVersion => String::from_str("No version found in path"),
            VersionError::RegexError(e) => {
                let head = String::from_str("Invalid regex pattern: ");
                head.concat(regex_error_text(e).as_str())
            },
        }
    }
}

/// A project name and a version, split from a file name or URL.
#[derive(Debug, Clone, PartialEq, Eq)]
pub struct Extraction {
    /// The project or package name.
    pub name: String,
    /// The version string.
    pub version: String,
}

/// The view of an extraction result: the name and version, or nothing.
pub open spec fn extraction_view(r: Result<Extraction, VersionError>) -> Option<
    (Seq<char>, Seq<char>),
> {
    match r {
        Ok(e) => Some((e.name@, e.version@)),
        Err(_) => None,
    }
}

/// Eight digits, optionally followed by `-N.M`.
pub const DATE_COMPACT_PATTERN: &'static str = r"(?x)
                    (?P<name>[^/]+)
                    [-_]
                    v?(?P<version>\d{8}(?:[-]\d+\.\d+)?)
                    (?:\.(?:tar(?:\.[^/]*)?|zip|tgz))?$
                ";

/// Three numbers, then any qualifiers.
pub const SEMVER_PATTERN: &'static str = r"(?x)
                    (?P<name>[^/]+)
                    [-_]
                    v?(?P<version>(?:\d+[._]\d+[._]\d+
                        (?:[-.](?:rc|alpha|beta|dev|pre|post|build|\d+))*
                    ))
                    (?:\.(?:tar(?:\.[^/]*)?|zip|tgz))?$
                ";

/// A dotted or underscored date, with an optional version-like suffix.
pub const DATE_DOTTED_PATTERN: &'static str = r"(?x)
                    (?P<name>[^/]+)
                    [-_]
                    v?(?P<version>\d{4}[._]\d{2}[._]\d{2})
                    (?:[-_.][\d.]+)?  # Optional version suffix
                    (?:\.(?:tar(?:\.[^/]*)?|zip|tgz))?$
                ";

/// Two numbers.
pub const TWO_PART_PATTERN: &'static str = r"(?x)
                    (?P<name>[^/]+)
                    [-_]
                    v?(?P<version>\d+\.\d+)
                    (?:\.(?:tar(?:\.[^/]*)?|zip|tgz))?$
                ";

/// One number.
pub const ONE_PART_PATTERN: &'static str = r"(?x)
                    (?P<name>[^/]+)
                    [-_]
                    v?(?P<version>\d+)
                    (?:\.(?:tar(?:\.[^/]*)?|zip|tgz))?$
                ";

/// Anything after the last `-`, up to an extension.
pub const CATCH_ALL_PATTERN: &'static str = r"(?x)
                    (?P<name>.*?)
                    [-]
                    (?P<version>[^-/]+?)
                    (?:\.(?:tar(?:\.[^/]*)?|zip|tgz)|\.[\w]+)?$
                ";

/// The built-in table, in the order it is tried.
pub open spec fn default_table() -> Seq<PatternView> {
    seq![
        PatternView { style: VersionStyle::DateBased, source: DATE_COMPACT_PATTERN@, priority: 5 },
        PatternView { style: VersionStyle::Semver, source: SEMVER_PATTERN@, priority: 10 },
        PatternView { style: VersionStyle::DateBased, source: DATE_DOTTED_PATTERN@, priority: 25 },
        PatternView { style: VersionStyle::Simple, source: TWO_PART_PATTERN@, priority: 30 },
        PatternView { style: VersionStyle::Simple, source: ONE_PART_PATTERN@, priority: 35 },
        PatternView { style: VersionStyle::Simple, source: CATCH_ALL_PATTERN@, priority: 100 },
    ]
}

/// Every pattern of the built-in table compiles.
pub open spec fn default_table_compiles() -> bool {
    forall|i: int| 0 <= i < default_table().len() ==> regex_accepts(#[trigger] default_table()[i].source)
}

/// Priorities never decrease along the table.
pub open spec fn sorted_by_priority(pats: Seq<PatternView>) -> bool {
    forall|i: int, j: int| 0 <= i < j < pats.len() ==> pats[i].priority <= pats[j].priority
}

/// What pattern `p` captures of `text` as name and version.
pub open spec fn pattern_captures(p: PatternView, text: Seq<char>) -> Option<(Seq<char>, Seq<char>)> {
    regex_group_pair(p.source, text, "name"@, "version"@)
}

/// The captures of the first pattern at or after index `i` that matches `text`.
pub open spec fn first_match_from(pats: Seq<PatternView>, text: Seq<char>, i: int) -> Option<
    (Seq<char>, Seq<char>),
>
    decreases pats.len() - i,
{
    if 0 <= i < pats.len() {
        match pattern_captures(pats[i], text) {
            Some(c) => Some(c),
            None => first_match_from(pats, text, i + 1),
        }
    } else {
        None
    }
}

/// Generic matching: the table tried on the last `/`-separated piece of `path`.
pub open spec fn generic_extraction(pats: Seq<PatternView>, path: Seq<char>) -> Option<
    (Seq<char>, Seq<char>),
> {
    first_match_from(pats, split_on(path, '/').last(), 0)
}

/// The project and the synthetic file name for a forge archive URL with the
/// given host and path, or nothing for any other shape.
pub open spec fn forge_rewrite(host: Option<Seq<char>>, path: Seq<char>) -> Option<
    (Seq<char>, Seq<char>),
> {
    let parts = split_on(path, '/');
    if host == Some("github.com"@) && has_infix(path, "archive/refs/tags/"@) {
        if parts.len() > 2 {
            Some((parts[2], parts[2] + "-"@ + parts.last()))
        } else {
            None
        }
    } else if host == Some("gitlab.com"@) && has_infix(path, "repository/archive.tar.gz"@) {
        if parts.len() > 2 {
            Some((parts[2], parts[2] + "-archive.tar.gz"@))
        } else {
            None
        }
    } else {
        None
    }
}

/// The text names one of the two forges and holds one of their archive
/// path shapes; only such a text is handed to the URL parser.
pub open spec fn names_forge(path: Seq<char>) -> bool {
    (has_infix(path, "github.com"@) || has_infix(path, "gitlab.com"@)) && (has_infix(
        path,
        "archive/refs/tags/"@,
    ) || has_infix(path, "repository/archive.tar.gz"@))
}

/// The first present entry at or after index `i`.
pub open spec fn first_present(caps: Seq<Option<(Seq<char>, Seq<char>)>>, i: int) -> Option<
    (Seq<char>, Seq<char>),
>
    decreases caps.len() - i,
{
    if 0 <= i < caps.len() {
        match caps[i] {
            Some(c) => Some(c),
            None => first_present(caps, i + 1),
        }
    } else {
        None
    }
}

/// The views of a list of optional pairs.
pub open spec fn pairs_view(v: Seq<Option<(String, String)>>) -> Seq<Option<(Seq<char>, Seq<char>)>> {
    v.map_values(|c: Option<(String, String)>| pair_view(c))
}

/// The first of `captures` that is present: what the table gives when
/// `captures` holds each pattern's result in table order.
pub fn first_captured(captures: &Vec<Option<(String, String)>>) -> (r: Option<(String, String)>)
    ensures
        pair_view(r) == first_present(pairs_view(captures@), 0),
{
    let ghost caps = pairs_view(captures@);
    let mut i: usize = 0;
    while i < captures.len()
        invariant
            i <= captures@.len(),
            caps == pairs_view(captures@),
            first_present(caps, 0) == first_present(caps, i as int),
        decreases captures@.len() - i,
    {
        assert(caps[i as int] == pair_view(captures@[i as int]));
        match &captures[i] {
            Some((name, version)) => {
                return Some((name.clone(), version.clone()));
            },
            None => {},
        }
        i = i + 1;
    }
    None
}

/// Trying the patterns one by one gives the first present capture.
proof fn lemma_first_present_is_first_match(
    caps: Seq<Option<(Seq<char>, Seq<char>)>>,
    pats: Seq<PatternView>,
    text: Seq<char>,
    i: int,
)
    requires
        0 <= i,
        caps.len() == pats.len(),
        forall|k: int| 0 <= k < caps.len() ==> caps[k] == pattern_captures(pats[k], text),
    ensures
        first_present(caps, i) == first_match_from(pats, text, i),
    decreases caps.len() - i,
{
    if i < caps.len() {
        lemma_first_present_is_first_match(caps, pats, text, i + 1);
    }
}

/// The forge rewrite that applies to `path`, given the host and path that
/// the URL parser made of it.
pub open spec fn rewrite_given(path: Seq<char>, parsed: Option<(Option<Seq<char>>, Seq<char>)>) -> Option<
    (Seq<char>, Seq<char>),
> {
    match parsed {
        Some((h, p)) => if names_forge(path) {
            forge_rewrite(h, p)
        } else {
            None
        },
        None => None,
    }
}

/// The extraction of `path`, given the host and path that the URL parser
/// made of it (nothing where it was not parsed or not accepted).
pub open spec fn extraction_given(
    pats: Seq<PatternView>,
    path: Seq<char>,
    parsed: Option<(Option<Seq<char>>, Seq<char>)>,
) -> Option<(Seq<char>, Seq<char>)> {
    match rewrite_given(path, parsed) {
        Some((project, faux)) => match generic_extraction(pats, faux) {
            Some((_, version)) => Some((project, version)),
            None => None,
        },
        None => generic_extraction(pats, path),
    }
}

/// What the URL parser makes of `path`, where the extractor asks it.
pub open spec fn parse_for_extraction(path: Seq<char>) -> Option<(Option<Seq<char>>, Seq<char>)> {
    if names_forge(path) && url_accepts(path) {
        Some((url_host(path), url_path(path)))
    } else {
        None
    }
}

/// The extraction of `path` by the table `pats`.
pub open spec fn extraction_of(pats: Seq<PatternView>, path: Seq<char>) -> Option<
    (Seq<char>, Seq<char>),
> {
    extraction_given(pats, path, parse_for_extraction(path))
}

/// Patterns tried in order of priority against file names and URLs.
pub struct VersionExtractor {
    patterns: Vec<VersionPattern>,
}

impl View for VersionExtractor {
    type V = Seq<PatternView>;

    closed spec fn view(&self) -> Seq<PatternView> {
        self.patterns@.map_values(|p: VersionPattern| p@)
    }
}

/// The table is in order of priority.
pub open spec fn extractor_wf(e: &VersionExtractor) -> bool {
    sorted_by_priority(e@)
}

/// The host and path of an optional parsed URL.
pub open spec fn parsed_parts(u: Option<&ParsedUrl>) -> Option<(Option<Seq<char>>, Seq<char>)> {
    match u {
        Some(u) => Some((opt_view(u.host), u.path@)),
        None => None,
    }
}

/// Whether the text names a forge and holds one of their archive path shapes.
fn forge_archive_text(path: &str) -> (r: bool)
    ensures
        r == names_forge(path@),
{
    (contains_str(path, "github.com") || contains_str(path, "gitlab.com")) && (contains_str(
        path,
        "archive/refs/tags/",
    ) || contains_str(path, "repository/archive.tar.gz"))
}

/// The project and synthetic file name for a forge archive URL.
fn forge_rewrite_exec(u: &ParsedUrl) -> (r: Option<(String, String)>)
    ensures
        pair_view(r) == forge_rewrite(opt_view(u.host), u.path@),
{
    let (github, gitlab) = match &u.host {
        Some(h) => (same_text(h.as_str(), "github.com"), same_text(h.as_str(), "gitlab.com")),
        None => (false, false),
    };
    let parts = split_str(u.path.as_str(), '/');
    proof {
        lemma_split_nonempty(u.path@, '/');
    }
    if github && contains_str(u.path.as_str(), "archive/refs/tags/") {
        if parts.len() > 2 {
            let project = parts[2].clone();
            let faux = parts[2].clone().concat("-").concat(parts[parts.len() - 1].as_str());
            Some((project, faux))
        } else {
            None
        }
    } else if gitlab && contains_str(u.path.as_str(), "repository/archive.tar.gz") {
        if parts.len() > 2 {
            let project = parts[2].clone();
            let faux = parts[2].clone().concat("-archive.tar.gz");
            Some((project, faux))
        } else {
            None
        }
    } else {
        None
    }
}

impl VersionExtractor {
    /// An extractor with the built-in table; fails only where one of its
    /// patterns does not compile.
    pub fn new() -> (r: Result<Self, VersionError>)
        ensures
            r is Ok <==> default_table_compiles(),
            r matches Ok(e) ==> e@ == default_table() && extractor_wf(&e),
            r matches Err(e) ==> e is RegexError,
    {
        let p0 = match VersionPattern::new(VersionStyle::DateBased, DATE_COMPACT_PATTERN, 5) {
            Ok(p) => p,
            Err(e) => {
                assert(!regex_accepts(default_table()[0].source));
                return Err(VersionError::RegexError(e));
            },
        };
        let p1 = match VersionPattern::new(VersionStyle::Semver, SEMVER_PATTERN, 10) {
            Ok(p) => p,
            Err(e) => {
                assert(!regex_accepts(default_table()[1].source));
                return Err(VersionError::RegexError(e));
            },
        };
        let p2 = match VersionPattern::new(VersionStyle::DateBased, DATE_DOTTED_PATTERN, 25) {
            Ok(p) => p,
            Err(e) => {
                assert(!regex_accepts(default_table()[2].source));
                return Err(VersionError::RegexError(e));
            },
        };
        let p3 = match VersionPattern::new(VersionStyle::Simple, TWO_PART_PATTERN, 30) {
            Ok(p) => p,
            Err(e) => {
                assert(!regex_accepts(default_table()[3].source));
                return Err(VersionError::RegexError(e));
            },
        };
        let p4 = match VersionPattern::new(VersionStyle::Simple, ONE_PART_PATTERN, 35) {
            Ok(p) => p,
            Err(e) => {
                assert(!regex_accepts(default_table()[4].source));
                return Err(VersionError::RegexError(e));
            },
        };
        let p5 = match VersionPattern::new(VersionStyle::Simple, CATCH_ALL_PATTERN, 100) {
            Ok(p) => p,
            Err(e) => {
                assert(!regex_accepts(default_table()[5].source));
                return Err(VersionError::RegexError(e));
            },
        };
        let patterns = vec![p0, p1, p2, p3, p4, p5];
        let e = VersionExtractor { patterns };
        assert(e@ =~= default_table());
        assert forall|i: int| 0 <= i < default_table().len() implies regex_accepts(
            #[trigger] default_table()[i].source,
        ) by {
            assert(default_table()[i] == e@[i]);
        }
        Ok(e)
    }

    /// The table, in the order it is tried.
    pub fn pattern_count(&self) -> (r: usize)
        ensures
            r == self@.len(),
    {
        self.patterns.len()
    }

    /// Adds `pattern` after every pattern of no greater priority and before
    /// the rest, as a stable sort by priority would place it.
    pub fn add_pattern(&mut self, pattern: VersionPattern)
        requires
            extractor_wf(old(self)),
        ensures
            extractor_wf(final(self)),
            exists|k: int|
                0 <= k <= old(self)@.len() && final(self)@ == old(self)@.insert(k, pattern@) && (
                forall|i: int| 0 <= i < k ==> old(self)@[i].priority <= pattern@.priority) && (
                forall|i: int| k <= i < old(self)@.len() ==> old(self)@[i].priority
                    > pattern@.priority),
    {
        let ghost old_view = self@;
        let mut k: usize = 0;
        while k < self.patterns.len() && self.patterns[k].priority <= pattern.priority
            invariant
                k <= self@.len(),
                self@ == old_view,
                sorted_by_priority(old_view),
                forall|i: int| 0 <= i < k ==> old_view[i].priority <= pattern@.priority,
            decreases self@.len() - k,
        {
            assert(self.patterns@[k as int]@ == old_view[k as int]);
            k = k + 1;
        }
        if k < self.patterns.len() {
            assert(self.patterns@[k as int]@ == old_view[k as int]);
        }
        let ghost pv = pattern@;
        self.patterns.insert(k, pattern);
        assert(self@ =~= old_view.insert(k as int, pv));
        assert forall|i: int| k <= i < old_view.len() implies old_view[i].priority > pv.priority by {
            assert(old_view[k as int].priority <= old_view[i].priority);
        }
        assert(sorted_by_priority(self@)) by {
            assert forall|i: int, j: int| 0 <= i < j < self@.len() implies self@[i].priority
                <= self@[j].priority by {
                if j < k {
                } else if j == k {
                } else if i < k {
                } else if i == k {
                    assert(self@[j] == old_view[j - 1]);
                } else {
                    assert(self@[i] == old_view[i - 1]);
                    assert(self@[j] == old_view[j - 1]);
                }
            }
        }
    }

    /// The captures of the first pattern, in table order, that matches `text`.
    fn first_match(&self, text: &str) -> (r: Option<(String, String)>)
        ensures
            pair_view(r) == first_match_from(self@, text@, 0),
    {
        let mut captures: Vec<Option<(String, String)>> = Vec::new();
        let mut i: usize = 0;
        while i < self.patterns.len()
            invariant
                i <= self@.len(),
                captures@.len() == i,
                forall|k: int|
                    0 <= k < i ==> pairs_view(captures@)[k] == pattern_captures(self@[k], text@),
            decreases self@.len() - i,
        {
            let c = capture_pair(&self.patterns[i], text, "name", "version");
            assert(self.patterns@[i as int]@ == self@[i as int]);
            let ghost before = pairs_view(captures@);
            captures.push(c);
            assert(pairs_view(captures@) =~= before.push(pair_view(c)));
            i = i + 1;
        }
        proof {
            lemma_first_present_is_first_match(pairs_view(captures@), self@, text@, 0);
        }
        first_captured(&captures)
    }

    /// Generic matching on the last `/`-separated piece of `path`.
    fn extract_generic(&self, path: &str) -> (r: Result<Extraction, VersionError>)
        ensures
            extraction_view(r) == generic_extraction(self@, path@),
            r matches Err(e) ==> e is InvalidVersion,
    {
        let pieces = split_str(path, '/');
        proof {
            lemma_split_nonempty(path@, '/');
        }
        let filename = pieces[pieces.len() - 1].as_str();
        match self.first_match(filename) {
            Some((name, version)) => Ok(Extraction { name, version }),
            None => Err(VersionError::InvalidVersion),
        }
    }

    /// Extracts from `path`, given what the URL parser made of it: `parsed`
    /// is consulted only where `path` names a forge.
    pub fn extract_parsed(&self, path: &str, parsed: Option<&ParsedUrl>) -> (r: Result<
        Extraction,
        VersionError,
    >)
        ensures
            extraction_view(r) == extraction_given(self@, path@, parsed_parts(parsed)),
            r matches Err(e) ==> e is InvalidVersion,
    {
        let forge = forge_archive_text(path);
        let rewrite = match parsed {
            Some(u) => if forge {
                forge_rewrite_exec(u)
            } else {
                None
            },
            None => None,
        };
        match rewrite {
            Some((project, faux)) => match self.extract_generic(faux.as_str()) {
                Ok(m) => Ok(Extraction { name: project, version: m.version }),
                Err(e) => Err(e),
            },
            None => self.extract_generic(path),
        }
    }

    /// Extracts a project name and version from a file name or URL.
    pub fn extract(&self, path: &str) -> (r: Result<Extraction, VersionError>)
        ensures
            extraction_view(r) == extraction_of(self@, path@),
            r matches Err(e) ==> e is InvalidVersion,
    {
        let forge = forge_archive_text(path);
        if forge {
            match ParsedUrl::parse(path) {
                Ok(u) => self.extract_parsed(path, Some(&u)),
                Err(_) => self.extract_parsed(path, None),
            }
        } else {
            self.extract_parsed(path, None)
        }
    }
}

/// Extraction is a function of the table and the text: two results that
/// meet the contract of `extract` for one table and one text are the same.
pub proof fn lemma_extraction_deterministic(
    pats: Seq<PatternView>,
    path: Seq<char>,
    r1: Option<(Seq<char>, Seq<char>)>,
    r2: Option<(Seq<char>, Seq<char>)>,
)
    requires
        r1 == extraction_of(pats, path),
        r2 == extraction_of(pats, path),
    ensures
        r1 == r2,
{
}

/// Where pattern `i` matches, the first match at or after `start` comes
/// from a matching pattern at or before `i`.
proof fn lemma_first_match_no_later(pats: Seq<PatternView>, text: Seq<char>, start: int, i: int)
    requires
        0 <= start <= i < pats.len(),
        pattern_captures(pats[i], text) is Some,
    ensures
        exists|k: int|
            start <= k <= i && first_match_from(pats, text, start) == pattern_captures(
                pats[k],
                text,
            ) && pattern_captures(pats[k], text) is Some,
    decreases i - start,
{
    if pattern_captures(pats[start], text) is Some {
        assert(first_match_from(pats, text, start) == pattern_captures(pats[start], text));
    } else {
        lemma_first_match_no_later(pats, text, start + 1, i);
    }
}

/// Where a pattern of lower priority and one of higher priority both match
/// the file name, the result comes from a matching pattern whose priority is
/// no greater than the lower one's, never from the higher one alone.
pub proof fn lemma_lower_priority_wins(pats: Seq<PatternView>, path: Seq<char>, i: int, j: int)
    requires
        sorted_by_priority(pats),
        rewrite_given(path, parse_for_extraction(path)) is None,
        0 <= i < pats.len(),
        0 <= j < pats.len(),
        pats[i].priority < pats[j].priority,
        pattern_captures(pats[i], split_on(path, '/').last()) is Some,
        pattern_captures(pats[j], split_on(path, '/').last()) is Some,
    ensures
        exists|k: int|
            0 <= k <= i && k < j && pats[k].priority <= pats[i].priority && extraction_of(pats, path)
                == pattern_captures(pats[k], split_on(path, '/').last()),
{
    let text = split_on(path, '/').last();
    if j <= i {
        assert(pats[j].priority <= pats[i].priority);
    }
    lemma_first_match_no_later(pats, text, 0, i);
    let k = choose|k: int|
        0 <= k <= i && first_match_from(pats, text, 0) == pattern_captures(pats[k], text)
            && pattern_captures(pats[k], text) is Some;
    if k < i {
        assert(pats[k].priority <= pats[i].priority);
    }
    assert(extraction_of(pats, path) == pattern_captures(pats[k], text));
}

/// A text without `/` holds no text that has one.
proof fn lemma_no_slash_no_infix(s: Seq<char>, t: Seq<char>, j: int)
    requires
        forall|q: int| 0 <= q < s.len() ==> s[q] != '/',
        0 <= j < t.len(),
        t[j] == '/',
    ensures
        !has_infix(s, t),
{
    if has_infix(s, t) {
        let i = choose|i: int| occurs_at(s, t, i);
        assert(s.subrange(i, i + t.len())[j] == s[i + j]);
    }
}

/// For a GitHub tag-archive URL `.../{owner}/{project}/archive/refs/tags/{asset}`,
/// the extracted name is `project`, and the version is the one extracted
/// from `{project}-{asset}`; failing on one means failing on the other.
pub proof fn lemma_forge_archive_rewrite(pats: Seq<PatternView>, url: Seq<char>)
    requires
        has_infix(url, "github.com"@),
        has_infix(url, "archive/refs/tags/"@),
        url_accepts(url),
        url_host(url) == Some("github.com"@),
        has_infix(url_path(url), "archive/refs/tags/"@),
        split_on(url_path(url), '/').len() > 2,
    ensures
        ({
            let parts = split_on(url_path(url), '/');
            let faux = parts[2] + "-"@ + parts.last();
            match (extraction_of(pats, url), extraction_of(pats, faux)) {
                (Some((name, version)), Some((_, faux_version))) => name == parts[2] && version
                    == faux_version,
                (None, None) => true,
                _ => false,
            }
        }),
{
    let parts = split_on(url_path(url), '/');
    let faux = parts[2] + "-"@ + parts.last();
    lemma_split_pieces_lack_sep(url_path(url), '/');
    reveal_strlit("-");
    reveal_strlit("archive/refs/tags/");
    reveal_strlit("repository/archive.tar.gz");
    assert forall|q: int| 0 <= q < faux.len() implies faux[q] != '/' by {
        if q < parts[2].len() {
            assert(faux[q] == parts[2][q]);
        } else if q == parts[2].len() {
            assert(faux[q] == '-');
        } else {
            assert(faux[q] == parts.last()[q - parts[2].len() - 1]);
        }
    }
    lemma_no_slash_no_infix(faux, "archive/refs/tags/"@, 7);
    lemma_no_slash_no_infix(faux, "repository/archive.tar.gz"@, 10);
    assert(!names_forge(faux));
}

} // verus!
