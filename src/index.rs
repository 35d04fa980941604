//! Reading the answers of a simple index: which responses hold a project page,
//! which index lists the package names, and the direct references whose bytes
//! were fetched or read.

use vstd::prelude::*;
use vstd::string::StringSliceAdditionalSpecFns;
use crate::artifact::{ArtifactHashes, ArtifactName, HashMismatch, fragment_hashes, parse_hash, sha256_digest, sha256_of};
use crate::direct_url::{direct_artifacts, direct_result_ok};
use crate::text::same_text;
use crate::version_artifacts::VersionArtifacts;

verus! {

/// The media type and subtype that a `Content-Type` value names, if it parses.
pub uninterp spec fn media_type_of(s: Seq<char>) -> Option<(Seq<char>, Seq<char>)>;

/// Relies on `mime::Mime`'s `FromStr`, `type_` and `subtype`: the type and subtype
/// of a parsed `Content-Type` value.
#[verifier::external_body]
fn parse_media_type(s: &str) -> (r: Option<(String, String)>)
    ensures
        r is None <==> media_type_of(s@) is None,
        r matches Some(p) ==> media_type_of(s@) == Some((p.0@, p.1@)),
{
    s.parse::<mime::Mime>().ok().map(|m| (m.type_().as_str().to_string(), m.subtype().as_str().to_string()))
}

/// What a simple-index response for a package holds.
#[derive(Debug, Clone, Copy, PartialEq, Eq, Structural)]
pub enum SimpleApiPage {
    /// The index does not know the package (404); skipped silently.
    NotFound,
    /// An HTML project page, to be parsed into files.
    Html,
}

/// A simple-index response that cannot be read.
#[derive(Debug, Clone, PartialEq, Eq)]
pub enum SimpleApiError {
    /// The `Content-Type` value does not parse.
    InvalidContentType(String),
    /// The page is not `text/html`.
    UnsupportedContentType(String),
}

pub open spec fn html_media_type() -> (Seq<char>, Seq<char>) {
    ("text"@, "html"@)
}

/// The `Content-Type` assumed when a response carries none.
pub open spec fn effective_content_type(content_type: Option<Seq<char>>) -> Seq<char> {
    match content_type {
        Some(c) => c,
        None => "text/html"@,
    }
}

/// Decides what a simple-index response holds from its status and `Content-Type`.
pub fn read_simple_api_response(status: u16, content_type: Option<&str>) -> (r: Result<SimpleApiPage, SimpleApiError>)
    ensures
        status == 404 ==> r == Ok::<SimpleApiPage, SimpleApiError>(SimpleApiPage::NotFound),
        status != 404 ==> {
            let ct = effective_content_type(match content_type { Some(c) => Some(c@), None => None });
            &&& (r == Ok::<SimpleApiPage, SimpleApiError>(SimpleApiPage::Html)) == (media_type_of(ct) == Some(html_media_type()))
            &&& r matches Err(SimpleApiError::InvalidContentType(t)) ==> t@ == ct && media_type_of(ct) is None
            &&& r matches Err(SimpleApiError::UnsupportedContentType(t)) ==> t@ == ct && media_type_of(ct) is Some
                && media_type_of(ct) != Some(html_media_type())
            &&& r != Ok::<SimpleApiPage, SimpleApiError>(SimpleApiPage::NotFound)
        },
{
    if status == 404 {
        return Ok(SimpleApiPage::NotFound);
    }
    let ct = match content_type {
        Some(c) => c,
        None => "text/html",
    };
    match parse_media_type(ct) {
        None => Err(SimpleApiError::InvalidContentType(ct.to_owned())),
        Some(p) => {
            if same_text(p.0.as_str(), "text") && same_text(p.1.as_str(), "html") {
                Ok(SimpleApiPage::Html)
            } else {
                Err(SimpleApiError::UnsupportedContentType(ct.to_owned()))
            }
        },
    }
}

/// The index whose root page lists the package names: the first one, if any.
pub fn package_names_index(index_urls: &Vec<String>) -> (r: Option<&String>)
    ensures
        r is None <==> index_urls@.len() == 0,
        r matches Some(u) ==> *u == index_urls@[0],
{
    if index_urls.len() == 0 {
        None
    } else {
        Some(&index_urls[0])
    }
}

/// A direct download: its digest is that of the downloaded bytes, and a digest
/// declared in the URL fragment (`#sha256=<hex>`) must agree with it.
pub fn direct_download_artifacts(
    url: &str,
    fragment: Option<&str>,
    bytes: &[u8],
    name: ArtifactName,
    requires_python: Option<String>,
) -> (r: Result<VersionArtifacts, HashMismatch>)
    ensures
        r is Err <==> (fragment matches Some(f) && fragment_hashes(f@) matches Some(d) && d != sha256_of(bytes@)),
        r matches Ok(va) ==> direct_result_ok(va, name, url@, sha256_of(bytes@), requires_python),
        r matches Err(m) ==> m.actual@ == sha256_of(bytes@),
{
    let digest = sha256_digest(bytes);
    let declared = match fragment {
        Some(f) => parse_hash(f),
        None => None,
    };
    match declared {
        Some(ArtifactHashes { sha256: Some(expected) }) => {
            if !crate::artifact::same_digest(&expected, &digest) {
                return Err(HashMismatch { expected, actual: digest });
            }
        },
        _ => {},
    }
    Ok(direct_artifacts(url, name, digest, requires_python))
}

/// A local file or source tree: its digest is that of the core metadata blob read
/// from it, under which the blob is cached.
pub fn direct_file_artifacts(url: &str, name: ArtifactName, metadata_blob: &[u8], requires_python: Option<String>) -> (r: VersionArtifacts)
    ensures
        direct_result_ok(r, name, url@, sha256_of(metadata_blob@), requires_python),
{
    let digest = sha256_digest(metadata_blob);
    direct_artifacts(url, name, digest, requires_python)
}

/// A VCS checkout: its digest is that of the URL text.
pub fn direct_git_artifacts(url: &str, name: ArtifactName, requires_python: Option<String>) -> (r: VersionArtifacts)
    ensures
        direct_result_ok(r, name, url@, sha256_of(url.spec_bytes()), requires_python),
{
    let digest = sha256_digest(url.as_bytes());
    direct_artifacts(url, name, digest, requires_python)
}

} // verus!
