//! Versions, ordered by the rules of the ecosystem's version scheme, and the key
//! under which artifacts of one release are grouped.

use vstd::prelude::*;
use std::str::FromStr;

verus! {

#[verifier::external_type_specification]
#[verifier::external_body]
pub struct ExPep440Version(pep440_rs::Version);

/// Relies on the derived `Clone` of `pep440_rs::Version`, which copies every part.
pub assume_specification[ <pep440_rs::Version as Clone>::clone ](v: &pep440_rs::Version) -> pep440_rs::Version;

/// Whether a text is a valid version.
pub uninterp spec fn is_valid_version(s: Seq<char>) -> bool;

/// How two version texts compare: -1, 0 or 1.
pub uninterp spec fn version_cmp(a: Seq<char>, b: Seq<char>) -> int;

/// Whether a version is a pre-release or a development release.
pub uninterp spec fn version_is_prerelease(s: Seq<char>) -> bool;

/// A version, kept with the text it was read from.
#[derive(Debug, Clone)]
pub struct PackageVersion {
    text: String,
    parsed: pep440_rs::Version,
}

impl View for PackageVersion {
    type V = Seq<char>;

    closed spec fn view(&self) -> Seq<char> {
        self.text@
    }
}

/// Relies on `pep440_rs::Version::from_str`, which accepts a text exactly when it
/// is a valid version.
#[verifier::external_body]
fn pep440_parse(s: &str) -> (r: Option<PackageVersion>)
    ensures
        r is Some <==> is_valid_version(s@),
        r matches Some(v) ==> v@ == s@,
{
    pep440_rs::Version::from_str(s).ok().map(|parsed| PackageVersion { text: s.to_string(), parsed })
}

/// Relies on `Ord::cmp` of `pep440_rs::Version`: a lexicographic comparison of
/// epoch, zero-padded release and suffix tuple, hence a total preorder. It is
/// antisymmetric; versions comparing equal compare alike to every other version;
/// and a version newer than one that is at least as new as a third is newer than
/// the third.
#[verifier::external_body]
fn pep440_compare(a: &PackageVersion, b: &PackageVersion) -> (r: i8)
    requires
        is_valid_version(a@),
        is_valid_version(b@),
    ensures
        r as int == version_cmp(a@, b@),
        version_cmp(b@, a@) == -r,
        -1 <= r <= 1,
        r == 0 ==> forall|c: Seq<char>| is_valid_version(c) ==> #[trigger] version_cmp(b@, c) == version_cmp(a@, c),
        r == -1 ==> forall|c: Seq<char>| is_valid_version(c) && version_cmp(a@, c) >= 0 ==> #[trigger] version_cmp(b@, c) == 1,
{
    match a.parsed.cmp(&b.parsed) {
        std::cmp::Ordering::Less => -1,
        std::cmp::Ordering::Equal => 0,
        std::cmp::Ordering::Greater => 1,
    }
}

/// Relies on `pep440_rs::Version::any_prerelease`: a pre-release or development part.
#[verifier::external_body]
fn pep440_any_prerelease(v: &PackageVersion) -> (r: bool)
    ensures
        r == version_is_prerelease(v@),
{
    v.parsed.any_prerelease()
}

impl PackageVersion {
    /// Reads a version from its text.
    pub fn parse(s: &str) -> (r: Option<PackageVersion>)
        ensures
            r is Some <==> is_valid_version(s@),
            r matches Some(v) ==> v@ == s@ && v.valid(),
    {
        pep440_parse(s)
    }

    /// Whether this version was read from a valid version text.
    pub open spec fn valid(&self) -> bool {
        is_valid_version(self@)
    }

    /// How this version compares to `other`: -1 (older), 0 (same) or 1 (newer).
    pub fn compare(&self, other: &PackageVersion) -> (r: i8)
        requires
            self.valid(),
            other.valid(),
        ensures
            r as int == version_cmp(self@, other@),
            version_cmp(other@, self@) == -r,
            -1 <= r <= 1,
            r == 0 ==> forall|c: Seq<char>| is_valid_version(c) ==> #[trigger] version_cmp(other@, c) == version_cmp(self@, c),
            r == -1 ==> forall|c: Seq<char>| is_valid_version(c) && version_cmp(self@, c) >= 0 ==> #[trigger] version_cmp(other@, c) == 1,
    {
        pep440_compare(self, other)
    }

    /// Whether this is a pre-release or development release.
    pub fn any_prerelease(&self) -> (r: bool)
        ensures
            r == version_is_prerelease(self@),
    {
        pep440_any_prerelease(self)
    }

    /// A copy of this version.
    pub fn copy(&self) -> (r: PackageVersion)
        ensures
            r@ == self@,
    {
        PackageVersion { text: self.text.clone(), parsed: self.parsed.clone() }
    }

    pub fn as_str(&self) -> (r: &str)
        ensures
            r@ == self@,
    {
        self.text.as_str()
    }
}

/// The version under which artifacts are grouped: a release found on an index, or
/// the URL of a direct reference, whose version is unknown until its metadata is read.
#[derive(Debug, Clone)]
pub enum PypiVersion {
    Version { version: PackageVersion, package_allows_prerelease: bool },
    Url(String),
}

} // verus!
