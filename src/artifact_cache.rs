//! The per-package memo of index results. Entries are written once: a later
//! insertion under the same name leaves the first result in place.

use vstd::prelude::*;
use elsa::sync::FrozenMap;
use crate::name::NormalizedPackageName;
use crate::version_artifacts::VersionArtifacts;

verus! {

#[verifier::external_type_specification]
#[verifier::external_body]
#[verifier::reject_recursive_types(K)]
#[verifier::reject_recursive_types(V)]
pub struct ExFrozenMap<K, V>(FrozenMap<K, V>);

/// What a frozen map of index results holds, by package name.
pub uninterp spec fn frozen_contents(m: FrozenMap<String, Box<VersionArtifacts>>) -> Map<Seq<char>, VersionArtifacts>;

/// The contents after inserting `v` under `k`: an existing entry is never overwritten.
pub open spec fn insert_once(m: Map<Seq<char>, VersionArtifacts>, k: Seq<char>, v: VersionArtifacts) -> Map<Seq<char>, VersionArtifacts> {
    if m.contains_key(k) {
        m
    } else {
        m.insert(k, v)
    }
}

/// Relies on `elsa::sync::FrozenMap::new`: an empty map.
#[verifier::external_body]
fn frozen_new() -> (r: FrozenMap<String, Box<VersionArtifacts>>)
    ensures
        frozen_contents(r).dom().is_empty(),
{
    FrozenMap::new()
}

/// Relies on `elsa::sync::FrozenMap::get`: the value stored under the key, if any.
#[verifier::external_body]
fn frozen_get<'a>(m: &'a FrozenMap<String, Box<VersionArtifacts>>, k: &str) -> (r: Option<&'a VersionArtifacts>)
    ensures
        r is None <==> !frozen_contents(*m).contains_key(k@),
        r matches Some(v) ==> *v == frozen_contents(*m)[k@],
{
    m.get(k)
}

/// Relies on `elsa::sync::FrozenMap::insert`: inserts only when the key is absent, and
/// returns the value stored under the key afterwards.
#[verifier::external_body]
fn frozen_insert<'a>(m: &'a mut FrozenMap<String, Box<VersionArtifacts>>, k: String, v: VersionArtifacts) -> (r: &'a VersionArtifacts)
    ensures
        frozen_contents(*final(m)) == insert_once(frozen_contents(*old(m)), k@, v),
        *r == frozen_contents(*final(m))[k@],
{
    m.insert(k, Box::new(v))
}

/// Index results by normalized package name.
pub struct ArtifactCache {
    map: FrozenMap<String, Box<VersionArtifacts>>,
}

impl View for ArtifactCache {
    type V = Map<Seq<char>, VersionArtifacts>;

    closed spec fn view(&self) -> Map<Seq<char>, VersionArtifacts> {
        frozen_contents(self.map)
    }
}

impl ArtifactCache {
    /// An empty cache.
    pub fn new() -> (r: ArtifactCache)
        ensures
            r@.dom().is_empty(),
    {
        ArtifactCache { map: frozen_new() }
    }

    /// The results cached for `name`, if any.
    pub fn get(&self, name: &NormalizedPackageName) -> (r: Option<&VersionArtifacts>)
        ensures
            r is None <==> !self@.contains_key(name@),
            r matches Some(v) ==> *v == self@[name@],
    {
        frozen_get(&self.map, name.as_str())
    }

    /// Caches `artifacts` for `name` unless results are cached for it already, and
    /// returns the results cached for `name` afterwards.
    pub fn insert(&mut self, name: &NormalizedPackageName, artifacts: VersionArtifacts) -> (r: &VersionArtifacts)
        ensures
            final(self)@ == insert_once(old(self)@, name@, artifacts),
            *r == final(self)@[name@],
            old(self)@.contains_key(name@) ==> *r == old(self)@[name@],
            !old(self)@.contains_key(name@) ==> *r == artifacts,
    {
        let key = name.as_str().to_owned();
        frozen_insert(&mut self.map, key, artifacts)
    }
}

/// Once results are cached for a name, later insertions under that name leave
/// the cache unchanged, and a lookup returns the first results.
pub proof fn lemma_cached_results_stable(
    m: Map<Seq<char>, VersionArtifacts>,
    k: Seq<char>,
    first: VersionArtifacts,
    later: VersionArtifacts,
)
    ensures
        insert_once(insert_once(m, k, first), k, later) == insert_once(m, k, first),
        insert_once(m, k, first).contains_key(k),
        insert_once(insert_once(m, k, later), k, first)[k] == insert_once(m, k, later)[k],
        !m.contains_key(k) ==> insert_once(m, k, first)[k] == first,
        m.contains_key(k) ==> insert_once(m, k, first)[k] == m[k],
{
}

} // verus!
