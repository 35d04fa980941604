//! Direct references to artifacts: which channel a URL is read through, how a
//! local path or download is read, how a VCS reference is taken apart, and the
//! single-entry result that a direct reference yields.

use vstd::prelude::*;
use crate::artifact::{ArtifactHashes, ArtifactInfo, ArtifactName, DistInfoMetadata, Yanked};
use crate::text::{chars_of, ends_with_chars, has_prefix, has_suffix, slice_string, starts_with_chars};
use crate::version::PypiVersion;
use crate::version_artifacts::VersionArtifacts;

verus! {

/// The channel through which a direct URL is read.
#[derive(Debug, Clone, Copy, PartialEq, Eq, Structural)]
pub enum DirectUrlKind {
    /// `file://`: the local filesystem.
    File,
    /// `https://`: a download through the HTTP cache.
    Https,
    /// `git+https://` or `git+file://`: a checkout.
    Git,
}

/// A URL whose scheme is insecure (`http`) or not supported.
#[derive(Debug, Clone, PartialEq, Eq)]
pub struct UnsupportedScheme {
    pub scheme: String,
}

impl UnsupportedScheme {
    /// The message that describes this error.
    pub fn to_string(&self) -> (r: String)
        ensures
            r@ == "Usage of insecure protocol or unsupported scheme "@ + self.scheme@,
    {
        let mut out = String::from_str("Usage of insecure protocol or unsupported scheme ");
        out.append(self.scheme.as_str());
        out
    }
}

/// The channel for a scheme, if it is supported.
pub open spec fn url_kind_of(scheme: Seq<char>) -> Option<DirectUrlKind> {
    if scheme == "file"@ {
        Some(DirectUrlKind::File)
    } else if scheme == "https"@ {
        Some(DirectUrlKind::Https)
    } else if scheme == "git+https"@ || scheme == "git+file"@ {
        Some(DirectUrlKind::Git)
    } else {
        None
    }
}

/// The channel through which a URL with this scheme is read.
pub fn classify_scheme(scheme: &str) -> (r: Result<DirectUrlKind, UnsupportedScheme>)
    ensures
        r matches Ok(k) ==> url_kind_of(scheme@) == Some(k),
        r matches Err(e) ==> url_kind_of(scheme@) is None && e.scheme@ == scheme@,
{
    if crate::text::same_text(scheme, "file") {
        Ok(DirectUrlKind::File)
    } else if crate::text::same_text(scheme, "https") {
        Ok(DirectUrlKind::Https)
    } else if crate::text::same_text(scheme, "git+https") || crate::text::same_text(scheme, "git+file") {
        Ok(DirectUrlKind::Git)
    } else {
        Err(UnsupportedScheme { scheme: scheme.to_owned() })
    }
}

/// How a directly referenced artifact is read.
#[derive(Debug, Clone, Copy, PartialEq, Eq, Structural)]
pub enum ArtifactRoute {
    Wheel,
    SDist,
    STree,
}

pub open spec fn whl_ext() -> Seq<char> {
    seq!['.', 'w', 'h', 'l']
}

fn ends_with_whl(path: &str) -> (r: bool)
    ensures
        r == has_suffix(path@, whl_ext()),
{
    let cs = chars_of(path);
    let ext = vec!['.', 'w', 'h', 'l'];
    assert(ext@ =~= whl_ext());
    ends_with_chars(&cs, &ext)
}

/// A local path: a file ending in `.whl` is a wheel, another file a source
/// archive, anything else a source tree.
pub fn file_route(path: &str, is_file: bool) -> (r: ArtifactRoute)
    ensures
        r == (if is_file && has_suffix(path@, whl_ext()) {
            ArtifactRoute::Wheel
        } else if is_file {
            ArtifactRoute::SDist
        } else {
            ArtifactRoute::STree
        }),
{
    if is_file && ends_with_whl(path) {
        ArtifactRoute::Wheel
    } else if is_file {
        ArtifactRoute::SDist
    } else {
        ArtifactRoute::STree
    }
}

/// A download: a path ending in `.whl` is a wheel, anything else a source archive.
pub fn https_route(path: &str) -> (r: ArtifactRoute)
    ensures
        r == (if has_suffix(path@, whl_ext()) { ArtifactRoute::Wheel } else { ArtifactRoute::SDist }),
{
    if ends_with_whl(path) {
        ArtifactRoute::Wheel
    } else {
        ArtifactRoute::SDist
    }
}

/// The descriptor of a directly referenced artifact: no sidecar metadata, not
/// yanked, and the given SHA-256 digest.
pub open spec fn direct_info_ok(ai: ArtifactInfo, name: ArtifactName, url: Seq<char>, digest: Seq<u8>, requires_python: Option<String>) -> bool {
    &&& ai.filename == name
    &&& ai.url@ == url
    &&& ai.hashes matches Some(h) && h.sha256 matches Some(d) && d@ == digest
    &&& ai.requires_python == requires_python
    &&& !ai.dist_info_metadata.available
    &&& ai.dist_info_metadata.hashes.sha256 is None
    &&& !ai.yanked.yanked
    &&& ai.yanked.reason is None
}

/// A single-entry result: one artifact, keyed by its URL.
pub open spec fn direct_result_ok(va: VersionArtifacts, name: ArtifactName, url: Seq<char>, digest: Seq<u8>, requires_python: Option<String>) -> bool {
    &&& va.entries@.len() == 1
    &&& va.entries@[0].0 matches PypiVersion::Url(u) && u@ == url
    &&& va.entries@[0].1@.len() == 1
    &&& direct_info_ok(va.entries@[0].1@[0], name, url, digest, requires_python)
}

/// The single-entry result of a direct reference: the artifact, keyed by its URL.
pub fn direct_artifacts(url: &str, name: ArtifactName, digest: Vec<u8>, requires_python: Option<String>) -> (r: VersionArtifacts)
    ensures
        direct_result_ok(r, name, url@, digest@, requires_python),
{
    let info = ArtifactInfo {
        filename: name,
        url: url.to_owned(),
        hashes: Some(ArtifactHashes { sha256: Some(digest) }),
        requires_python,
        dist_info_metadata: DistInfoMetadata { available: false, hashes: ArtifactHashes { sha256: None } },
        yanked: Yanked { yanked: false, reason: None },
    };
    let mut list: Vec<ArtifactInfo> = Vec::new();
    list.push(info);
    let mut entries: Vec<(PypiVersion, Vec<ArtifactInfo>)> = Vec::new();
    entries.push((PypiVersion::Url(url.to_owned()), list));
    VersionArtifacts { entries }
}

/// A VCS reference taken apart: the repository URL, the revision and the
/// subdirectory to build in.
#[derive(Debug, Clone, PartialEq, Eq)]
pub struct ParsedGitUrl {
    pub git_url: String,
    pub revision: Option<String>,
    pub subdirectory: Option<String>,
}

/// The index of the last `c` in `s`, or -1.
pub open spec fn last_index_of(s: Seq<char>, c: char) -> int
    decreases s.len(),
{
    if s.len() == 0 {
        -1
    } else if s.last() == c {
        s.len() - 1
    } else {
        last_index_of(s.drop_last(), c)
    }
}

/// The index of the first `c` in `s`, or the length of `s`.
pub open spec fn first_index_of(s: Seq<char>, c: char) -> int
    decreases s.len(),
{
    if s.len() == 0 {
        0
    } else if s[0] == c {
        0
    } else {
        1 + first_index_of(s.drop_first(), c)
    }
}

proof fn lemma_last_index_of(s: Seq<char>, c: char)
    ensures
        -1 <= last_index_of(s, c) < s.len(),
        last_index_of(s, c) >= 0 ==> s[last_index_of(s, c)] == c,
        forall|j: int| last_index_of(s, c) < j < s.len() ==> s[j] != c,
    decreases s.len(),
{
    if s.len() > 0 && s.last() != c {
        lemma_last_index_of(s.drop_last(), c);
        assert forall|j: int| last_index_of(s, c) < j < s.len() implies s[j] != c by {
            if j < s.len() - 1 {
                assert(s[j] == s.drop_last()[j]);
            }
        }
    }
}

pub proof fn lemma_first_index_of(s: Seq<char>, c: char)
    ensures
        0 <= first_index_of(s, c) <= s.len(),
        first_index_of(s, c) < s.len() ==> s[first_index_of(s, c)] == c,
        forall|j: int| 0 <= j < first_index_of(s, c) ==> s[j] != c,
    decreases s.len(),
{
    if s.len() > 0 && s[0] != c {
        lemma_first_index_of(s.drop_first(), c);
        assert forall|j: int| 0 <= j < first_index_of(s, c) implies s[j] != c by {
            if j > 0 {
                assert(s[j] == s.drop_first()[j - 1]);
            }
        }
    }
}

/// The index of the last `c` in `cs`, if any.
pub fn find_last(cs: &Vec<char>, c: char) -> (r: Option<usize>)
    ensures
        r matches Some(i) ==> i as int == last_index_of(cs@, c) && i < cs@.len(),
        r is None ==> last_index_of(cs@, c) == -1,
{
    proof {
        lemma_last_index_of(cs@, c);
    }
    let mut i: usize = cs.len();
    while i > 0
        invariant
            i <= cs@.len(),
            forall|j: int| i <= j < cs@.len() ==> cs@[j] != c,
            last_index_of(cs@, c) < i,
            last_index_of(cs@, c) >= 0 ==> cs@[last_index_of(cs@, c)] == c,
            forall|j: int| last_index_of(cs@, c) < j < cs@.len() ==> cs@[j] != c,
            -1 <= last_index_of(cs@, c),
        decreases i,
    {
        if cs[i - 1] == c {
            return Some(i - 1);
        }
        i = i - 1;
    }
    None
}

fn find_first(cs: &Vec<char>, c: char) -> (r: usize)
    ensures
        r as int == first_index_of(cs@, c),
{
    proof {
        lemma_first_index_of(cs@, c);
    }
    let mut i: usize = 0;
    while i < cs.len()
        invariant
            i <= cs@.len(),
            forall|j: int| 0 <= j < i ==> cs@[j] != c,
            i <= first_index_of(cs@, c),
            forall|j: int| 0 <= j < first_index_of(cs@, c) ==> cs@[j] != c,
            first_index_of(cs@, c) < cs@.len() ==> cs@[first_index_of(cs@, c)] == c,
            0 <= first_index_of(cs@, c) <= cs@.len(),
        decreases cs@.len() - i,
    {
        if cs[i] == c {
            return i;
        }
        i = i + 1;
    }
    i
}

pub open spec fn git_prefix() -> Seq<char> {
    seq!['g', 'i', 't', '+']
}

pub open spec fn subdirectory_key() -> Seq<char> {
    seq!['s', 'u', 'b', 'd', 'i', 'r', 'e', 'c', 't', 'o', 'r', 'y', '=']
}

/// A VCS reference `git+<url>[@<revision>][#subdirectory=<dir>]` taken apart: the
/// revision follows the last `@` after the last `/`.
pub open spec fn parse_git_url_spec(s: Seq<char>) -> Option<(Seq<char>, Option<Seq<char>>, Option<Seq<char>>)> {
    let body = s.skip(4);
    let h = first_index_of(body, '#');
    let base = body.take(h);
    let fragment = body.skip(h + 1);
    let at = last_index_of(base, '@');
    let slash = last_index_of(base, '/');
    if !has_prefix(s, git_prefix()) {
        None
    } else {
        let subdirectory = if h < body.len() && has_prefix(fragment, subdirectory_key()) {
            Some(fragment.skip(13))
        } else {
            None
        };
        if at > slash {
            Some((base.take(at), Some(base.skip(at + 1)), subdirectory))
        } else {
            Some((base, None, subdirectory))
        }
    }
}

/// Takes a VCS reference apart; `None` when it does not start with `git+`.
pub fn parse_git_url(url: &str) -> (r: Option<ParsedGitUrl>)
    ensures
        r is None <==> parse_git_url_spec(url@) is None,
        r matches Some(p) ==> parse_git_url_spec(url@) == Some((p.git_url@,
            match p.revision { Some(x) => Some(x@), None => None },
            match p.subdirectory { Some(x) => Some(x@), None => None })),
{
    let cs = chars_of(url);
    let prefix = vec!['g', 'i', 't', '+'];
    assert(prefix@ =~= git_prefix());
    if !starts_with_chars(&cs, &prefix) {
        return None;
    }
    let body_s = slice_string(&cs, 4, cs.len());
    let body = chars_of(body_s.as_str());
    assert(body@ =~= url@.skip(4));
    let h = find_first(&body, '#');
    proof {
        lemma_first_index_of(body@, '#');
    }
    let base_s = slice_string(&body, 0, h);
    let base = chars_of(base_s.as_str());
    assert(base@ =~= body@.take(h as int));
    let subdirectory = if h < body.len() {
        let fragment_s = slice_string(&body, h + 1, body.len());
        let fragment = chars_of(fragment_s.as_str());
        assert(fragment@ =~= body@.skip(h + 1));
        let key = vec!['s', 'u', 'b', 'd', 'i', 'r', 'e', 'c', 't', 'o', 'r', 'y', '='];
        assert(key@ =~= subdirectory_key());
        if starts_with_chars(&fragment, &key) {
            let dir = slice_string(&fragment, 13, fragment.len());
            assert(dir@ =~= fragment@.skip(13));
            Some(dir)
        } else {
            None
        }
    } else {
        None
    };
    let at = find_last(&base, '@');
    let slash = find_last(&base, '/');
    proof {
        lemma_last_index_of(base@, '@');
        lemma_last_index_of(base@, '/');
    }
    let revision_at = match (at, slash) {
        (Some(a), Some(b)) => if a > b { Some(a) } else { None },
        (Some(a), None) => Some(a),
        (None, _) => None,
    };
    if let Some(at) = revision_at {
        let git_url = slice_string(&base, 0, at);
        let revision = slice_string(&base, at + 1, base.len());
        assert(git_url@ =~= base@.take(at as int));
        assert(revision@ =~= base@.skip(at + 1));
        Some(ParsedGitUrl { git_url, revision: Some(revision), subdirectory })
    } else {
        Some(ParsedGitUrl { git_url: base_s, revision: None, subdirectory })
    }
}

} // verus!
