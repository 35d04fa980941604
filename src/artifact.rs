//! Artifact names and descriptors: wheels, source distributions and source trees,
//! their content hashes, and the check of retrieved bytes against those hashes.

use vstd::prelude::*;
use crate::text::{chars_of, ends_with_chars, has_prefix, has_suffix, slice_string, starts_with_chars};
use crate::wheel_name::{ParseArtifactNameError, WheelFilename, WheelFilenameView, wheel_filename_text};

verus! {

/// The archive formats of a source distribution.
#[derive(Debug, Clone, Copy, PartialEq, Eq, Hash, Structural)]
pub enum SDistFormat {
    Zip,
    TarGz,
    TarBz2,
    TarXz,
}

pub open spec fn zip_ext() -> Seq<char> {
    seq!['.', 'z', 'i', 'p']
}

pub open spec fn tar_gz_ext() -> Seq<char> {
    seq!['.', 't', 'a', 'r', '.', 'g', 'z']
}

pub open spec fn tar_bz2_ext() -> Seq<char> {
    seq!['.', 't', 'a', 'r', '.', 'b', 'z', '2']
}

pub open spec fn tar_xz_ext() -> Seq<char> {
    seq!['.', 't', 'a', 'r', '.', 'x', 'z']
}

/// The extension that a source archive of format `f` carries.
pub open spec fn sdist_extension(f: SDistFormat) -> Seq<char> {
    match f {
        SDistFormat::Zip => zip_ext(),
        SDistFormat::TarGz => tar_gz_ext(),
        SDistFormat::TarBz2 => tar_bz2_ext(),
        SDistFormat::TarXz => tar_xz_ext(),
    }
}

/// The format of a source archive named `path`, by its extension.
pub open spec fn sdist_format_of(path: Seq<char>) -> Option<SDistFormat> {
    if has_suffix(path, zip_ext()) {
        Some(SDistFormat::Zip)
    } else if has_suffix(path, tar_gz_ext()) {
        Some(SDistFormat::TarGz)
    } else if has_suffix(path, tar_bz2_ext()) {
        Some(SDistFormat::TarBz2)
    } else if has_suffix(path, tar_xz_ext()) {
        Some(SDistFormat::TarXz)
    } else {
        None
    }
}

impl SDistFormat {
    /// The format of a source archive named `path`, by its extension.
    pub fn get_extension(path: &str) -> (r: Result<SDistFormat, ParseArtifactNameError>)
        ensures
            r matches Ok(f) ==> sdist_format_of(path@) == Some(f),
            r matches Err(e) ==> sdist_format_of(path@) is None
                && e == ParseArtifactNameError::InvalidExtension,
    {
        let cs = chars_of(path);
        let zip = vec!['.', 'z', 'i', 'p'];
        let gz = vec!['.', 't', 'a', 'r', '.', 'g', 'z'];
        let bz2 = vec!['.', 't', 'a', 'r', '.', 'b', 'z', '2'];
        let xz = vec!['.', 't', 'a', 'r', '.', 'x', 'z'];
        assert(zip@ =~= zip_ext());
        assert(gz@ =~= tar_gz_ext());
        assert(bz2@ =~= tar_bz2_ext());
        assert(xz@ =~= tar_xz_ext());
        if ends_with_chars(&cs, &zip) {
            Ok(SDistFormat::Zip)
        } else if ends_with_chars(&cs, &gz) {
            Ok(SDistFormat::TarGz)
        } else if ends_with_chars(&cs, &bz2) {
            Ok(SDistFormat::TarBz2)
        } else if ends_with_chars(&cs, &xz) {
            Ok(SDistFormat::TarXz)
        } else {
            Err(ParseArtifactNameError::InvalidExtension)
        }
    }

    /// The extension that an archive of this format carries.
    pub fn extension(&self) -> (r: &'static str)
        ensures
            r@ == sdist_extension(*self),
    {
        proof {
            reveal_strlit(".zip");
            reveal_strlit(".tar.gz");
            reveal_strlit(".tar.bz2");
            reveal_strlit(".tar.xz");
        }
        match self {
            SDistFormat::Zip => ".zip",
            SDistFormat::TarGz => ".tar.gz",
            SDistFormat::TarBz2 => ".tar.bz2",
            SDistFormat::TarXz => ".tar.xz",
        }
    }
}

/// The name of a source distribution: `{distribution}-{version}{extension}`.
#[derive(Debug, Clone, PartialEq, Eq, Hash)]
pub struct SDistFilename {
    pub distribution: String,
    pub version: String,
    pub format: SDistFormat,
}

/// The name of a source tree: a directory or checkout reached through `url`.
#[derive(Debug, Clone, PartialEq, Eq, Hash)]
pub struct STreeFilename {
    pub distribution: String,
    pub version: String,
    pub url: String,
}

/// The name of an artifact, by kind.
#[derive(Debug, Clone, PartialEq, Eq, Hash)]
pub enum ArtifactName {
    Wheel(WheelFilename),
    SDist(SDistFilename),
    STree(STreeFilename),
}

/// The text that an artifact name is written as.
pub open spec fn artifact_name_text(n: ArtifactName) -> Seq<char> {
    match n {
        ArtifactName::Wheel(w) => wheel_filename_text(w@),
        ArtifactName::SDist(s) => s.distribution@.push('-') + s.version@ + sdist_extension(s.format),
        ArtifactName::STree(t) => t.url@,
    }
}

/// The version text that an artifact name carries.
pub open spec fn artifact_version_text(n: ArtifactName) -> Seq<char> {
    match n {
        ArtifactName::Wheel(w) => w.version@,
        ArtifactName::SDist(s) => s.version@,
        ArtifactName::STree(t) => t.version@,
    }
}

/// Wheels come first, then source distributions, then source trees.
pub open spec fn artifact_kind_rank(n: ArtifactName) -> int {
    match n {
        ArtifactName::Wheel(_) => 0,
        ArtifactName::SDist(_) => 1,
        ArtifactName::STree(_) => 2,
    }
}

impl ArtifactName {
    /// The text that this name is written as.
    pub fn to_string(&self) -> (r: String)
        ensures
            r@ == artifact_name_text(*self),
    {
        match self {
            ArtifactName::Wheel(w) => w.to_string(),
            ArtifactName::SDist(s) => {
                let mut out = s.distribution.clone();
                out.push('-');
                out.append(s.version.as_str());
                out.append(s.format.extension());
                out
            },
            ArtifactName::STree(t) => t.url.clone(),
        }
    }

    /// The version text that this name carries.
    pub fn version_text(&self) -> (r: &str)
        ensures
            r@ == artifact_version_text(*self),
    {
        match self {
            ArtifactName::Wheel(w) => w.version.as_str(),
            ArtifactName::SDist(s) => s.version.as_str(),
            ArtifactName::STree(t) => t.version.as_str(),
        }
    }

    pub fn is_wheel(&self) -> (r: bool)
        ensures
            r == (*self is Wheel),
    {
        matches!(self, ArtifactName::Wheel(_))
    }

    pub fn is_sdist(&self) -> (r: bool)
        ensures
            r == (*self is SDist),
    {
        matches!(self, ArtifactName::SDist(_))
    }
}

/// Named digests of an artifact; SHA-256 is the canonical one.
#[derive(Debug, Clone, PartialEq, Eq, Hash)]
pub struct ArtifactHashes {
    pub sha256: Option<Vec<u8>>,
}

/// Whether an index serves the core metadata of an artifact beside it.
#[derive(Debug, Clone, PartialEq, Eq)]
pub struct DistInfoMetadata {
    pub available: bool,
    pub hashes: ArtifactHashes,
}

/// Whether an artifact was withdrawn from its index, and why.
#[derive(Debug, Clone, PartialEq, Eq)]
pub struct Yanked {
    pub yanked: bool,
    pub reason: Option<String>,
}

/// An artifact of a package as an index or a direct reference describes it.
#[derive(Debug, Clone, PartialEq, Eq)]
pub struct ArtifactInfo {
    pub filename: ArtifactName,
    pub url: String,
    pub hashes: Option<ArtifactHashes>,
    pub requires_python: Option<String>,
    pub dist_info_metadata: DistInfoMetadata,
    pub yanked: Yanked,
}

/// The SHA-256 digest that an artifact descriptor declares, if any.
pub open spec fn declared_sha256(ai: ArtifactInfo) -> Option<Seq<u8>> {
    match ai.hashes {
        Some(h) => match h.sha256 {
            Some(d) => Some(d@),
            None => None,
        },
        None => None,
    }
}

/// The SHA-256 digest of some bytes.
pub uninterp spec fn sha256_of(data: Seq<u8>) -> Seq<u8>;

/// Relies on `rattler_digest::compute_bytes_digest::<Sha256>`: the SHA-256 digest of
/// the bytes, which is 32 bytes long.
#[verifier::external_body]
pub(crate) fn sha256_digest(data: &[u8]) -> (r: Vec<u8>)
    ensures
        r@ == sha256_of(data@),
        r@.len() == 32,
{
    rattler_digest::compute_bytes_digest::<rattler_digest::Sha256>(data).to_vec()
}

pub open spec fn is_hex_digit(c: char) -> bool {
    ('0' <= c && c <= '9') || ('a' <= c && c <= 'f') || ('A' <= c && c <= 'F')
}

pub open spec fn hex_value(c: char) -> int {
    if '0' <= c && c <= '9' {
        c as int - '0' as int
    } else if 'a' <= c && c <= 'f' {
        c as int - 'a' as int + 10
    } else {
        c as int - 'A' as int + 10
    }
}

/// The bytes that a string of hex digit pairs spells.
pub open spec fn hex_bytes(s: Seq<char>) -> Seq<u8> {
    Seq::new(s.len() / 2, |i: int| (hex_value(s[2 * i]) * 16 + hex_value(s[2 * i + 1])) as u8)
}

/// Relies on `rattler_digest::parse_digest_from_hex::<Sha256>`, which decodes exactly
/// 64 hex digits (either case) into the 32 digest bytes and fails on anything else.
#[verifier::external_body]
fn sha256_from_hex(s: &str) -> (r: Option<Vec<u8>>)
    ensures
        r is Some <==> (s@.len() == 64 && forall|i: int| 0 <= i < s@.len() ==> is_hex_digit(#[trigger] s@[i])),
        r matches Some(d) ==> d@ == hex_bytes(s@),
{
    rattler_digest::parse_digest_from_hex::<rattler_digest::Sha256>(s).map(|d| d.to_vec())
}

pub open spec fn sha256_prefix() -> Seq<char> {
    seq!['s', 'h', 'a', '2', '5', '6', '=']
}

/// The hashes that a URL fragment of the form `sha256=<hex>` declares.
pub open spec fn fragment_hashes(fragment: Seq<char>) -> Option<Seq<u8>> {
    let digits = fragment.skip(7);
    if has_prefix(fragment, sha256_prefix()) && digits.len() == 64
        && forall|i: int| 0 <= i < digits.len() ==> is_hex_digit(#[trigger] digits[i]) {
        Some(hex_bytes(digits))
    } else {
        None
    }
}

/// Reads the hash that a URL fragment (`sha256=<hex>`) declares.
pub fn parse_hash(fragment: &str) -> (r: Option<ArtifactHashes>)
    ensures
        r matches Some(h) ==> h.sha256 matches Some(d) && fragment_hashes(fragment@) == Some(d@),
        r is None ==> fragment_hashes(fragment@) is None,
{
    let cs = chars_of(fragment);
    let prefix = vec!['s', 'h', 'a', '2', '5', '6', '='];
    assert(prefix@ =~= sha256_prefix());
    if !starts_with_chars(&cs, &prefix) {
        return None;
    }
    let digits = slice_string(&cs, 7, cs.len());
    assert(digits@ =~= fragment@.skip(7));
    match sha256_from_hex(digits.as_str()) {
        Some(d) => Some(ArtifactHashes { sha256: Some(d) }),
        None => None,
    }
}

/// Retrieved bytes whose digest disagrees with the one their descriptor declares.
#[derive(Debug, Clone, PartialEq, Eq)]
pub struct HashMismatch {
    pub expected: Vec<u8>,
    pub actual: Vec<u8>,
}

/// Whether two digests are equal.
pub fn same_digest(a: &Vec<u8>, b: &Vec<u8>) -> (r: bool)
    ensures
        r == (a@ == b@),
{
    if a.len() != b.len() {
        return false;
    }
    let mut i: usize = 0;
    while i < a.len()
        invariant
            a@.len() == b@.len(),
            i <= a@.len(),
            forall|j: int| 0 <= j < i ==> a@[j] == b@[j],
        decreases a@.len() - i,
    {
        if a[i] != b[i] {
            return false;
        }
        i = i + 1;
    }
    assert(a@ =~= b@);
    true
}

fn copy_bytes(a: &Vec<u8>) -> (r: Vec<u8>)
    ensures
        r@ == a@,
{
    let mut r: Vec<u8> = Vec::new();
    let mut i: usize = 0;
    while i < a.len()
        invariant
            i <= a@.len(),
            r@ == a@.take(i as int),
        decreases a@.len() - i,
    {
        r.push(a[i]);
        i = i + 1;
        assert(r@ =~= a@.take(i as int));
    }
    assert(r@ =~= a@);
    r
}

/// Checks a computed digest against the SHA-256 digest that `ai` declares: bytes
/// of an artifact without a declared digest always pass.
pub fn check_sha256(ai: &ArtifactInfo, digest: &Vec<u8>) -> (r: Result<(), HashMismatch>)
    ensures
        r is Ok <==> (declared_sha256(*ai) is None || declared_sha256(*ai) == Some(digest@)),
        r matches Err(m) ==> Some(m.expected@) == declared_sha256(*ai) && m.actual@ == digest@,
{
    match &ai.hashes {
        Some(h) => match &h.sha256 {
            Some(expected) => {
                if same_digest(expected, digest) {
                    Ok(())
                } else {
                    Err(HashMismatch { expected: copy_bytes(expected), actual: copy_bytes(digest) })
                }
            },
            None => Ok(()),
        },
        None => Ok(()),
    }
}

/// Checks retrieved bytes of an artifact against the SHA-256 digest it declares.
pub fn verify_artifact_bytes(ai: &ArtifactInfo, bytes: &[u8]) -> (r: Result<(), HashMismatch>)
    ensures
        r is Ok <==> (declared_sha256(*ai) is None || declared_sha256(*ai) == Some(sha256_of(bytes@))),
{
    let digest = sha256_digest(bytes);
    check_sha256(ai, &digest)
}

} // verus!
