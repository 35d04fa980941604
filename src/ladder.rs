//! The metadata ladder: the order in which the sources of core metadata are
//! tried for one version, and what each answer along the way leads to. Every
//! rung is tried to completion before the next.

use vstd::prelude::*;
use crate::artifact::{ArtifactInfo, ArtifactName, HashMismatch, declared_sha256, same_digest, sha256_digest, sha256_of};
use crate::text::{chars_of, ends_with_chars, has_suffix, join, join_with, views};

verus! {

/// The rungs of the ladder, cheapest first.
#[derive(Debug, Clone, Copy, PartialEq, Eq, Structural)]
pub enum Rung {
    /// Metadata blobs cached by artifact hash.
    MetadataCache,
    /// Artifacts downloaded before, read from the HTTP cache only.
    CachedArtifacts,
    /// Wheels: sidecar file, sparse read, or full download.
    Wheels,
    /// Source distributions, through the wheel builder.
    BuildSources,
}

/// The rung after `r`; building sources needs a wheel builder.
pub open spec fn next_rung_spec(r: Rung, has_builder: bool) -> Option<Rung> {
    match r {
        Rung::MetadataCache => Some(Rung::CachedArtifacts),
        Rung::CachedArtifacts => Some(Rung::Wheels),
        Rung::Wheels => if has_builder { Some(Rung::BuildSources) } else { None },
        Rung::BuildSources => None,
    }
}

/// The rung to try after `r` found nothing; `None` when the ladder is exhausted.
pub fn next_rung(r: Rung, has_builder: bool) -> (n: Option<Rung>)
    ensures
        n == next_rung_spec(r, has_builder),
{
    match r {
        Rung::MetadataCache => Some(Rung::CachedArtifacts),
        Rung::CachedArtifacts => Some(Rung::Wheels),
        Rung::Wheels => if has_builder { Some(Rung::BuildSources) } else { None },
        Rung::BuildSources => None,
    }
}

/// The key under which the metadata of an artifact is cached: its SHA-256 digest.
/// Artifacts without a digest have their metadata not cached.
pub fn metadata_cache_key(ai: &ArtifactInfo) -> (r: Option<&Vec<u8>>)
    ensures
        r matches Some(k) ==> declared_sha256(*ai) == Some(k@),
        r is None ==> declared_sha256(*ai) is None,
{
    match &ai.hashes {
        Some(h) => match &h.sha256 {
            Some(d) => Some(d),
            None => None,
        },
        None => None,
    }
}

/// The metadata store after writing `blob` for `ai`: written only when the
/// artifact has a digest and nothing is stored under it yet.
pub open spec fn metadata_put(store: Map<Seq<u8>, Seq<u8>>, ai: ArtifactInfo, blob: Seq<u8>) -> Map<Seq<u8>, Seq<u8>> {
    match declared_sha256(ai) {
        None => store,
        Some(k) => if store.contains_key(k) { store } else { store.insert(k, blob) },
    }
}

/// Whether a write of metadata for `ai` goes to the store, given whether an entry
/// is present under its key already.
pub fn metadata_write_needed(ai: &ArtifactInfo, present: bool) -> (r: bool)
    ensures
        r == (declared_sha256(*ai) is Some && !present),
        forall|store: Map<Seq<u8>, Seq<u8>>, blob: Seq<u8>|
            declared_sha256(*ai) is Some && store.contains_key(declared_sha256(*ai)->Some_0) == present
                ==> (#[trigger] metadata_put(store, *ai, blob)) == (if r {
                    store.insert(declared_sha256(*ai)->Some_0, blob)
                } else {
                    store
                }),
{
    match metadata_cache_key(ai) {
        Some(_) => !present,
        None => false,
    }
}

/// Writing metadata a second time under the same hash changes nothing.
pub proof fn lemma_metadata_put_idempotent(store: Map<Seq<u8>, Seq<u8>>, ai: ArtifactInfo, first: Seq<u8>, second: Seq<u8>)
    ensures
        metadata_put(metadata_put(store, ai, first), ai, second) == metadata_put(store, ai, first),
{
}

/// What reading one artifact from the HTTP cache alone gave.
#[derive(Debug, Clone, Copy, PartialEq, Eq, Structural)]
pub enum CachedRead {
    /// The artifact was never downloaded.
    NotCached,
    /// Reading failed otherwise.
    Failed,
    /// A wheel was read; `parsed` tells whether its metadata parsed.
    Wheel { parsed: bool },
    /// A source distribution was read; `pep643` tells whether it carries
    /// reliable static metadata.
    SDist { pep643: bool },
}

/// What follows an answer on the way down the ladder.
#[derive(Debug, Clone, Copy, PartialEq, Eq, Structural)]
pub enum LadderAction {
    /// Go on with the next artifact.
    Next,
    /// Cache the metadata, then go on with the next artifact.
    StoreAndNext,
    /// Cache the metadata and return it.
    StoreAndReturn,
    /// Stop the ladder with the error.
    Fail,
}

/// The action after reading one artifact from the HTTP cache: a parsed wheel
/// ends the ladder, a source distribution only fills the metadata cache.
pub fn cached_read_action(read: CachedRead) -> (r: LadderAction)
    ensures
        r == match read {
            CachedRead::NotCached => LadderAction::Next,
            CachedRead::Failed => LadderAction::Fail,
            CachedRead::Wheel { parsed } => if parsed { LadderAction::StoreAndReturn } else { LadderAction::Next },
            CachedRead::SDist { pep643 } => if pep643 { LadderAction::StoreAndNext } else { LadderAction::Next },
        },
        read is SDist ==> r != LadderAction::StoreAndReturn,
{
    match read {
        CachedRead::NotCached => LadderAction::Next,
        CachedRead::Failed => LadderAction::Fail,
        CachedRead::Wheel { parsed } => if parsed { LadderAction::StoreAndReturn } else { LadderAction::Next },
        CachedRead::SDist { pep643 } => if pep643 { LadderAction::StoreAndNext } else { LadderAction::Next },
    }
}

/// The ways of reading the metadata of one wheel over the network.
#[derive(Debug, Clone, Copy, PartialEq, Eq, Structural)]
pub enum WheelStep {
    /// Fetch the sidecar metadata file next to the wheel.
    Sidecar,
    /// Read only the metadata entry, by range requests.
    SparseRead,
    /// Download the whole wheel.
    Download,
}

/// How a step on a wheel ended.
#[derive(Debug, Clone, Copy, PartialEq, Eq, Structural)]
pub enum StepResult {
    /// The metadata was read.
    Read,
    /// The step could not read it, and a cheaper failure is not fatal.
    Unavailable,
    /// The step failed.
    Failed,
}

/// What follows a step on a wheel.
#[derive(Debug, Clone, Copy, PartialEq, Eq, Structural)]
pub enum WheelNext {
    /// Cache the metadata and return it.
    StoreAndReturn,
    /// Try the given step on the same wheel.
    Then(WheelStep),
    /// Go on with the next wheel.
    NextWheel,
    /// Stop the ladder with the error.
    Fail,
}

/// The first step on a wheel: its sidecar when the index announces one, else a
/// sparse read.
pub fn first_wheel_step(has_sidecar: bool) -> (r: WheelStep)
    ensures
        r == (if has_sidecar { WheelStep::Sidecar } else { WheelStep::SparseRead }),
{
    if has_sidecar {
        WheelStep::Sidecar
    } else {
        WheelStep::SparseRead
    }
}

/// What follows a step on a wheel: a failed sparse read falls back to a full
/// download; a download whose metadata does not parse moves to the next wheel.
pub fn after_wheel_step(step: WheelStep, result: StepResult) -> (r: WheelNext)
    ensures
        result == StepResult::Read ==> r == WheelNext::StoreAndReturn,
        result == StepResult::Failed ==> r == WheelNext::Fail,
        result == StepResult::Unavailable ==> r == match step {
            WheelStep::Sidecar => WheelNext::Fail,
            WheelStep::SparseRead => WheelNext::Then(WheelStep::Download),
            WheelStep::Download => WheelNext::NextWheel,
        },
{
    match result {
        StepResult::Read => WheelNext::StoreAndReturn,
        StepResult::Failed => WheelNext::Fail,
        StepResult::Unavailable => match step {
            WheelStep::Sidecar => WheelNext::Fail,
            WheelStep::SparseRead => WheelNext::Then(WheelStep::Download),
            WheelStep::Download => WheelNext::NextWheel,
        },
    }
}

pub open spec fn whl_suffix() -> Seq<char> {
    seq!['.', 'w', 'h', 'l']
}

pub open spec fn metadata_suffix() -> Seq<char> {
    seq!['.', 'm', 'e', 't', 'a', 'd', 'a', 't', 'a']
}

/// The path of the sidecar metadata of a wheel at `path`: `X.whl` becomes
/// `X.whl.metadata`. Paths that do not end in `.whl` have none.
pub fn sidecar_path(path: &str) -> (r: Option<String>)
    ensures
        r is Some <==> has_suffix(path@, whl_suffix()),
        r matches Some(p) ==> p@ == path@ + metadata_suffix(),
{
    let cs = chars_of(path);
    let ext = vec!['.', 'w', 'h', 'l'];
    assert(ext@ =~= whl_suffix());
    if !ends_with_chars(&cs, &ext) {
        return None;
    }
    let mut out = path.to_owned();
    out.append(".metadata");
    proof {
        reveal_strlit(".metadata");
        assert(".metadata"@ =~= metadata_suffix());
    }
    Some(out)
}

/// The SHA-256 digest that an index declares for the sidecar metadata of `ai`.
pub open spec fn declared_sidecar_sha256(ai: ArtifactInfo) -> Option<Seq<u8>> {
    match ai.dist_info_metadata.hashes.sha256 {
        Some(d) => Some(d@),
        None => None,
    }
}

/// Checks fetched sidecar metadata against the digest the index declares for it.
pub fn check_sidecar(ai: &ArtifactInfo, bytes: &[u8]) -> (r: Result<(), HashMismatch>)
    ensures
        r is Ok <==> (declared_sidecar_sha256(*ai) is None || declared_sidecar_sha256(*ai) == Some(sha256_of(bytes@))),
{
    match &ai.dist_info_metadata.hashes.sha256 {
        Some(expected) => {
            let digest = sha256_digest(bytes);
            if same_digest(expected, &digest) {
                Ok(())
            } else {
                Err(HashMismatch { expected: expected.clone(), actual: digest })
            }
        },
        None => Ok(()),
    }
}

/// The positions of the wheels among `artifacts`, in order.
pub fn wheel_positions(artifacts: &Vec<ArtifactInfo>) -> (r: Vec<usize>)
    ensures
        forall|i: int| 0 <= i < r@.len() ==> (#[trigger] r@[i]) < artifacts@.len() && artifacts@[r@[i] as int].filename is Wheel,
        forall|i: int, j: int| 0 <= i < j < r@.len() ==> (#[trigger] r@[i]) < (#[trigger] r@[j]),
        forall|k: int| 0 <= k < artifacts@.len() && (#[trigger] artifacts@[k]).filename is Wheel ==> r@.contains(k as usize),
{
    positions_of(artifacts, true)
}

/// The positions of the source distributions among `artifacts`, in order.
pub fn sdist_positions(artifacts: &Vec<ArtifactInfo>) -> (r: Vec<usize>)
    ensures
        forall|i: int| 0 <= i < r@.len() ==> (#[trigger] r@[i]) < artifacts@.len() && artifacts@[r@[i] as int].filename is SDist,
        forall|i: int, j: int| 0 <= i < j < r@.len() ==> (#[trigger] r@[i]) < (#[trigger] r@[j]),
        forall|k: int| 0 <= k < artifacts@.len() && (#[trigger] artifacts@[k]).filename is SDist ==> r@.contains(k as usize),
{
    positions_of(artifacts, false)
}

pub open spec fn kind_matches(n: ArtifactName, wheels: bool) -> bool {
    if wheels { n is Wheel } else { n is SDist }
}

fn positions_of(artifacts: &Vec<ArtifactInfo>, wheels: bool) -> (r: Vec<usize>)
    ensures
        forall|i: int| 0 <= i < r@.len() ==> (#[trigger] r@[i]) < artifacts@.len() && kind_matches(artifacts@[r@[i] as int].filename, wheels),
        forall|i: int, j: int| 0 <= i < j < r@.len() ==> (#[trigger] r@[i]) < (#[trigger] r@[j]),
        forall|k: int| 0 <= k < artifacts@.len() && kind_matches((#[trigger] artifacts@[k]).filename, wheels) ==> r@.contains(k as usize),
{
    let mut r: Vec<usize> = Vec::new();
    let mut k: usize = 0;
    while k < artifacts.len()
        invariant
            k <= artifacts@.len(),
            forall|i: int| 0 <= i < r@.len() ==> (#[trigger] r@[i]) < k && kind_matches(artifacts@[r@[i] as int].filename, wheels),
            forall|i: int, j: int| 0 <= i < j < r@.len() ==> (#[trigger] r@[i]) < (#[trigger] r@[j]),
            forall|m: int| 0 <= m < k && kind_matches((#[trigger] artifacts@[m]).filename, wheels) ==> r@.contains(m as usize),
        decreases artifacts@.len() - k,
    {
        let hit = if wheels { artifacts[k].filename.is_wheel() } else { artifacts[k].filename.is_sdist() };
        if hit {
            let ghost before = r@;
            r.push(k);
            proof {
                assert forall|m: int| 0 <= m < k + 1 && kind_matches((#[trigger] artifacts@[m]).filename, wheels) implies r@.contains(m as usize) by {
                    if m < k {
                        assert(before.contains(m as usize));
                        let t = choose|t: int| 0 <= t < before.len() && before[t] == m as usize;
                        assert(r@[t] == m as usize);
                    } else {
                        assert(r@[before.len() as int] == k);
                    }
                }
            }
        }
        k = k + 1;
    }
    r
}

/// The report of one source distribution that could not be built.
pub fn sdist_error_message(filename: &str, error: &str) -> (r: String)
    ensures
        r@ == "error while processing source distribution '"@ + filename@ + "': \n "@ + error@,
{
    let mut out = String::from_str("error while processing source distribution '");
    out.append(filename);
    out.append("': \n ");
    out.append(error);
    out
}

/// The error that ends the last rung when no source distribution could be
/// built: every report, one per line. `None` when nothing failed.
pub fn combine_sdist_errors(errors: &Vec<String>) -> (r: Option<String>)
    ensures
        r is None <==> errors@.len() == 0,
        r matches Some(m) ==> m@ == join(views(errors@), '\n'),
{
    if errors.len() == 0 {
        None
    } else {
        Some(join_with(errors, '\n'))
    }
}

/// How a wheel for an artifact is obtained.
#[derive(Debug, Clone, Copy, PartialEq, Eq, Structural)]
pub enum WheelSource {
    /// Download the wheel itself.
    Download,
    /// Download the source distribution and build it.
    Build,
}

/// A source distribution was asked for as a wheel without a builder.
#[derive(Debug, Clone, Copy, PartialEq, Eq, Structural)]
pub struct NoWheelBuilder;

/// How to obtain a wheel for `ai`: wheels are downloaded, source distributions
/// built, which needs a builder.
pub fn wheel_source(ai: &ArtifactInfo, has_builder: bool) -> (r: Result<WheelSource, NoWheelBuilder>)
    ensures
        ai.filename is SDist ==> r == (if has_builder {
            Ok::<WheelSource, NoWheelBuilder>(WheelSource::Build)
        } else {
            Err::<WheelSource, NoWheelBuilder>(NoWheelBuilder)
        }),
        !(ai.filename is SDist) ==> r == Ok::<WheelSource, NoWheelBuilder>(WheelSource::Download),
{
    if ai.filename.is_sdist() {
        if has_builder {
            Ok(WheelSource::Build)
        } else {
            Err(NoWheelBuilder)
        }
    } else {
        Ok(WheelSource::Download)
    }
}

} // verus!
