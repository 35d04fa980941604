//! The decisions of the wheel builder: the options under which build
//! dependencies are resolved, the build requirements of a source, how the exit of
//! a backend hook is read, and the name of the wheel that a build produced.

use vstd::prelude::*;
use pep508_rs::{MarkerTree, Requirement, VersionOrUrl};
use pyproject_toml::BuildSystem;
use crate::name::{NormalizedPackageName, normalized};
use crate::resolve::{PythonLocation, ResolveOptions, SDistResolution};
use crate::text::{chars_of, same_text, slice_string};
use crate::wheel_name::{ParseArtifactNameError, WheelFilename, WheelFilenameView, parse_wheel_filename};
use crate::direct_url::{find_last, last_index_of};
use crate::metadata::MetadataError;
use crate::artifact::{sha256_digest, sha256_of};

verus! {

#[verifier::external_type_specification]
pub struct ExRequirement(Requirement);

#[verifier::external_type_specification]
pub struct ExBuildSystem(BuildSystem);

#[verifier::external_type_specification]
#[verifier::external_body]
pub struct ExVersionOrUrl(VersionOrUrl);

#[verifier::external_type_specification]
#[verifier::external_body]
pub struct ExMarkerTree(MarkerTree);

/// An error that can occur while building a wheel.
#[derive(Debug, Clone, PartialEq, Eq)]
pub enum WheelBuildError {
    /// A backend hook failed; holds what it wrote to stderr, or a description.
    Error(String),
    /// The build dependencies could not be resolved.
    CouldNotResolveEnvironment(Vec<String>),
    /// The source artifact could not be obtained.
    CouldNotGetArtifact(String),
    /// The name of the produced wheel does not parse or names another package.
    ArtifactError(ParseArtifactNameError),
    /// The metadata that a hook produced does not parse.
    WheelCoreMetadataError(MetadataError),
}

/// The options under which the build dependencies of a source are resolved: the
/// caller's, except that wheels are preferred whatever the caller's mode. A source
/// may need its own build backend, and must be buildable without first building
/// that backend from source.
pub fn build_resolve_options(options: &ResolveOptions) -> (r: ResolveOptions)
    ensures
        r.sdist_resolution == SDistResolution::PreferWheels,
        r.python_location == options.python_location,
        r.clean_env == options.clean_env,
{
    let sdist_resolution = SDistResolution::PreferWheels;
    let python_location = match &options.python_location {
        PythonLocation::System => PythonLocation::System,
        PythonLocation::Custom(p) => PythonLocation::Custom(p.clone()),
    };
    ResolveOptions { sdist_resolution, python_location, clean_env: options.clean_env }
}

/// A requirement on a distribution by name alone.
pub open spec fn is_bare_requirement(r: Requirement, name: Seq<char>) -> bool {
    &&& r.name@ == name
    &&& r.extras is None
    &&& r.version_or_url is None
    &&& r.marker is None
}

fn bare_requirement(name: &str) -> (r: Requirement)
    ensures
        is_bare_requirement(r, name@),
{
    Requirement { name: name.to_owned(), extras: None, version_or_url: None, marker: None }
}

/// The requirements of a build system: those it declares, or `setuptools` and
/// `wheel` when it declares none.
pub fn build_requirements(build_system: BuildSystem) -> (r: Vec<Requirement>)
    ensures
        build_system.requires@.len() > 0 ==> r@ == build_system.requires@,
        build_system.requires@.len() == 0 ==> r@.len() == 2 && is_bare_requirement(r@[0], "setuptools"@)
            && is_bare_requirement(r@[1], "wheel"@),
{
    let declared = build_system.requires;
    if declared.len() == 0 {
        let mut r: Vec<Requirement> = Vec::new();
        r.push(bare_requirement("setuptools"));
        r.push(bare_requirement("wheel"));
        r
    } else {
        declared
    }
}

/// The exit code by which a backend says that it does not implement a hook.
pub const HOOK_UNSUPPORTED: i32 = 50;

/// What follows the metadata hook.
#[derive(Debug, Clone, PartialEq, Eq)]
pub enum MetadataHookOutcome {
    /// The hook succeeded: read the metadata directory it names.
    ReadMetadata,
    /// The backend has no metadata hook: build the wheel and read its metadata.
    BuildWheel,
    /// The hook failed.
    Failed(WheelBuildError),
}

/// Reads the exit of the metadata hook.
pub fn metadata_hook_outcome(success: bool, code: Option<i32>, stderr: &str) -> (r: MetadataHookOutcome)
    ensures
        success ==> r == MetadataHookOutcome::ReadMetadata,
        !success && code == Some(HOOK_UNSUPPORTED) ==> r == MetadataHookOutcome::BuildWheel,
        !success && code != Some(HOOK_UNSUPPORTED) ==> (r matches MetadataHookOutcome::Failed(WheelBuildError::Error(m)) && m@ == stderr@),
{
    if success {
        MetadataHookOutcome::ReadMetadata
    } else {
        match code {
            Some(c) => {
                if c == HOOK_UNSUPPORTED {
                    MetadataHookOutcome::BuildWheel
                } else {
                    MetadataHookOutcome::Failed(WheelBuildError::Error(stderr.to_owned()))
                }
            },
            None => MetadataHookOutcome::Failed(WheelBuildError::Error(stderr.to_owned())),
        }
    }
}

/// Reads the exit of the wheel hook.
pub fn wheel_hook_outcome(success: bool, stderr: &str) -> (r: Result<(), WheelBuildError>)
    ensures
        success <==> r is Ok,
        r matches Err(WheelBuildError::Error(m)) ==> m@ == stderr@,
        r matches Err(e) ==> e is Error,
{
    if success {
        Ok(())
    } else {
        Err(WheelBuildError::Error(stderr.to_owned()))
    }
}

/// A text with leading and trailing whitespace removed.
pub uninterp spec fn trimmed(s: Seq<char>) -> Seq<char>;

/// `part` is a contiguous part of `whole`.
pub open spec fn contiguous_part(part: Seq<char>, whole: Seq<char>) -> bool {
    exists|i: int, j: int| 0 <= i <= j <= whole.len() && part == whole.subrange(i, j)
}

/// Relies on `str::trim`: the text without leading and trailing whitespace, a
/// contiguous part of it.
#[verifier::external_body]
fn trim_text(s: &str) -> (r: &str)
    ensures
        r@ == trimmed(s@),
        contiguous_part(r@, s@),
{
    s.trim()
}

/// The last `/`-separated component of a path, if it is not empty.
pub open spec fn file_component(path: Seq<char>) -> Option<Seq<char>> {
    let c = path.skip(last_index_of(path, '/') + 1);
    if c.len() == 0 {
        None
    } else {
        Some(c)
    }
}

/// The path component of a build's result file: the wheel's filename.
pub open spec fn built_wheel_component(result: Seq<char>) -> Option<Seq<char>> {
    file_component(trimmed(result))
}

/// The name of the wheel that a build wrote, read from the path in its result
/// file, and checked to name `package`.
pub fn built_wheel_filename(result: &str, package: &NormalizedPackageName) -> (r: Result<WheelFilename, WheelBuildError>)
    ensures
        built_wheel_component(result@) is None <==> r is Err && r->Err_0 is Error,
        r matches Ok(w) ==> built_wheel_component(result@) matches Some(c)
            && parse_wheel_filename(c) == Ok::<WheelFilenameView, ParseArtifactNameError>(w@)
            && normalized(w@.distribution) == package@,
        r matches Err(WheelBuildError::ArtifactError(e)) ==> built_wheel_component(result@) matches Some(c) && (
            parse_wheel_filename(c) == Err::<WheelFilenameView, ParseArtifactNameError>(e)
            || (e == ParseArtifactNameError::PackageNameMismatch && parse_wheel_filename(c) is Ok
                && normalized(parse_wheel_filename(c)->Ok_0.distribution) != package@)),
        r is Err ==> r->Err_0 is Error || r->Err_0 is ArtifactError,
{
    let path = trim_text(result);
    let cs = chars_of(path);
    let start: usize = match find_last(&cs, '/') {
        Some(i) => i + 1,
        None => 0,
    };
    let component = slice_string(&cs, start, cs.len());
    assert(component@ =~= path@.skip(last_index_of(path@, '/') + 1));
    if component.as_str().is_empty() {
        let mut msg = String::from_str("Could not get extract file component from ");
        msg.append(path);
        return Err(WheelBuildError::Error(msg));
    }
    match WheelFilename::from_filename(component.as_str(), package) {
        Ok(w) => Ok(w),
        Err(e) => Err(WheelBuildError::ArtifactError(e)),
    }
}


/// How far the work on a source has come.
#[derive(Debug, Clone, Copy, PartialEq, Eq, Structural)]
pub enum BuildStage {
    /// Its build environment is prepared.
    Prepared,
    /// Its metadata was produced.
    MetadataExtracted,
    /// Its wheel was built.
    Built,
}

/// The stage after `stage` once `reached` is done; a built source stays built.
pub open spec fn advance_spec(stage: BuildStage, reached: BuildStage) -> BuildStage {
    if stage == BuildStage::Built || reached == BuildStage::Prepared {
        stage
    } else {
        reached
    }
}

/// The build environments of a session, one per source, by source name.
pub struct BuildEnvironments {
    entries: Vec<(String, BuildStage)>,
}

pub open spec fn env_names_unique(es: Seq<(Seq<char>, BuildStage)>) -> bool {
    forall|i: int, j: int| 0 <= i < j < es.len() ==> (#[trigger] es[i]).0 != (#[trigger] es[j]).0
}

impl View for BuildEnvironments {
    type V = Seq<(Seq<char>, BuildStage)>;

    closed spec fn view(&self) -> Seq<(Seq<char>, BuildStage)> {
        self.entries@.map_values(|e: (String, BuildStage)| (e.0@, e.1))
    }
}

impl BuildEnvironments {
    /// Whether each source has at most one environment.
    pub open spec fn wf(&self) -> bool {
        env_names_unique(self@)
    }

    /// No environments yet.
    pub fn new() -> (r: BuildEnvironments)
        ensures
            r@.len() == 0,
            r.wf(),
    {
        BuildEnvironments { entries: Vec::new() }
    }

    /// The slot of the environment for `source`, and whether it has to be set up
    /// now: an environment is set up once per source and reused afterwards.
    pub fn prepare(&mut self, source: &str) -> (r: (usize, bool))
        requires
            old(self).wf(),
        ensures
            final(self).wf(),
            r.1 <==> forall|i: int| 0 <= i < old(self)@.len() ==> (#[trigger] old(self)@[i]).0 != source@,
            r.1 ==> r.0 == old(self)@.len() && final(self)@ == old(self)@.push((source@, BuildStage::Prepared)),
            !r.1 ==> r.0 < old(self)@.len() && old(self)@[r.0 as int].0 == source@ && final(self)@ == old(self)@,
    {
        let ghost v = self@;
        let mut i: usize = 0;
        while i < self.entries.len()
            invariant
                v == self@,
                env_names_unique(v),
                self.entries@.len() == v.len(),
                i <= v.len(),
                forall|j: int| 0 <= j < i ==> (#[trigger] v[j]).0 != source@,
            decreases v.len() - i,
        {
            assert(v[i as int].0 == self.entries@[i as int].0@);
            if same_text(self.entries[i].0.as_str(), source) {
                return (i, false);
            }
            i = i + 1;
        }
        self.entries.push((source.to_owned(), BuildStage::Prepared));
        proof {
            assert(self@ =~= v.push((source@, BuildStage::Prepared)));
            assert forall|a: int, b: int| 0 <= a < b < self@.len() implies (#[trigger] self@[a]).0 != (#[trigger] self@[b]).0 by {
                if b < v.len() {
                    assert(self@[a] == v[a] && self@[b] == v[b]);
                } else {
                    assert(self@[a] == v[a]);
                }
            }
        }
        (self.entries.len() - 1, true)
    }

    /// Records that the work on the source in `slot` reached `reached`.
    pub fn record(&mut self, slot: usize, reached: BuildStage)
        requires
            old(self).wf(),
            slot < old(self)@.len(),
        ensures
            final(self).wf(),
            final(self)@ == old(self)@.update(slot as int, (old(self)@[slot as int].0, advance_spec(old(self)@[slot as int].1, reached))),
    {
        let ghost v = self@;
        let (name, stage) = self.entries.remove(slot);
        let next = if stage == BuildStage::Built || reached == BuildStage::Prepared { stage } else { reached };
        self.entries.insert(slot, (name, next));
        proof {
            assert(self@ =~= v.update(slot as int, (v[slot as int].0, advance_spec(v[slot as int].1, reached))));
            assert forall|a: int, b: int| 0 <= a < b < self@.len() implies (#[trigger] self@[a]).0 != (#[trigger] self@[b]).0 by {
                assert(self@[a].0 == v[a].0 && self@[b].0 == v[b].0);
            }
        }
    }

    /// How far the work on the source in `slot` has come.
    pub fn stage(&self, slot: usize) -> (r: BuildStage)
        requires
            slot < self@.len(),
        ensures
            r == self@[slot as int].1,
    {
        self.entries[slot].1
    }
}


/// The kind of source that a built wheel came from.
#[derive(Debug, Clone, Copy, PartialEq, Eq, Hash, Structural)]
pub enum SourceKind {
    /// A source archive.
    SDist,
    /// A source tree.
    STree,
}

/// The key under which a wheel built from a source is cached: the kind of the
/// source and the SHA-256 digest of its bytes (of the archive, or of a summary of
/// the tree).
#[derive(Debug, Clone, PartialEq, Eq, Hash)]
pub struct WheelKey {
    pub kind: SourceKind,
    pub digest: Vec<u8>,
}

impl WheelKey {
    /// The key of the wheel built from a source whose bytes are `source`.
    pub fn from_bytes(kind: SourceKind, source: &[u8]) -> (r: WheelKey)
        ensures
            r.kind == kind,
            r.digest@ == sha256_of(source@),
    {
        WheelKey { kind, digest: sha256_digest(source) }
    }

    /// The name of the cache directory that holds the wheels of this key: the
    /// kind, a `-`, and the digest in lowercase hex.
    pub fn directory_name(&self) -> (r: String)
        ensures
            r@ == key_directory_name(self.kind, self.digest@),
    {
        let mut out = match self.kind {
            SourceKind::SDist => String::from_str("sdist-"),
            SourceKind::STree => String::from_str("stree-"),
        };
        let mut i: usize = 0;
        while i < self.digest.len()
            invariant
                i <= self.digest@.len(),
                out@ == kind_prefix(self.kind) + hex_text(self.digest@.take(i as int)),
            decreases self.digest@.len() - i,
        {
            let b = self.digest[i];
            out.push(hex_digit(b / 16));
            out.push(hex_digit(b % 16));
            assert(self.digest@.take(i as int + 1).drop_last() =~= self.digest@.take(i as int));
            i = i + 1;
        }
        assert(self.digest@.take(i as int) =~= self.digest@);
        out
    }
}

pub open spec fn kind_prefix(k: SourceKind) -> Seq<char> {
    match k {
        SourceKind::SDist => "sdist-"@,
        SourceKind::STree => "stree-"@,
    }
}

/// The lowercase hex digit of a value below 16.
pub open spec fn hex_char(v: int) -> char {
    if v < 10 { ((v + 48) as u8) as char } else { ((v + 87) as u8) as char }
}

/// Bytes in lowercase hex, two digits each.
pub open spec fn hex_text(bytes: Seq<u8>) -> Seq<char>
    decreases bytes.len(),
{
    if bytes.len() == 0 {
        Seq::empty()
    } else {
        hex_text(bytes.drop_last()).push(hex_char(bytes.last() as int / 16)).push(hex_char(bytes.last() as int % 16))
    }
}

pub open spec fn key_directory_name(k: SourceKind, digest: Seq<u8>) -> Seq<char> {
    kind_prefix(k) + hex_text(digest)
}

fn hex_digit(v: u8) -> (r: char)
    requires
        v < 16,
    ensures
        r == hex_char(v as int),
{
    if v < 10 { (v + 48) as char } else { (v + 87) as char }
}

} // verus!
