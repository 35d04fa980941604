//! Options of the resolver and the pinned packages it yields. The search itself
//! belongs to the solver; this module turns its solution into one pinned package
//! per distribution, with the extras that were selected for it.

use vstd::prelude::*;
use crate::artifact::ArtifactInfo;
use crate::name::{NormalizedPackageName, normalized};
use pep508_rs::Requirement;
use crate::text::same_text;
use crate::version::PypiVersion;

verus! {

/// Defines how to handle source distributions during resolution.
#[derive(Debug, Clone, Copy, PartialEq, Eq, Structural)]
pub enum SDistResolution {
    /// Versions with wheels and versions with only source distributions are
    /// treated alike; metadata is read from wheels where there are any.
    Normal,
    /// Source distributions only when no version with wheels can be selected.
    PreferWheels,
    /// Wheels only when no version with a source distribution can be selected.
    PreferSDists,
    /// Never select source distributions.
    OnlyWheels,
    /// Only select source distributions.
    OnlySDists,
}

impl Default for SDistResolution {
    fn default() -> (r: SDistResolution)
        ensures
            r == SDistResolution::Normal,
    {
        SDistResolution::Normal
    }
}

impl SDistResolution {
    /// Returns true if source distributions may be selected during resolution.
    pub fn allow_sdists(&self) -> (r: bool)
        ensures
            r == (*self != SDistResolution::OnlyWheels),
    {
        !matches!(self, SDistResolution::OnlyWheels)
    }

    /// Returns true if wheels may be selected during resolution.
    pub fn allow_wheels(&self) -> (r: bool)
        ensures
            r == (*self != SDistResolution::OnlySDists),
    {
        !matches!(self, SDistResolution::OnlySDists)
    }
}

/// Which Python interpreter resolution and builds use.
#[derive(Debug, Clone, PartialEq, Eq)]
pub enum PythonLocation {
    /// The interpreter found on the system.
    System,
    /// The interpreter at the given path.
    Custom(String),
}

/// Options that influence the solver.
#[derive(Debug, Clone)]
pub struct ResolveOptions {
    /// How source distributions are treated; by default like wheels.
    pub sdist_resolution: SDistResolution,
    /// The interpreter used for resolution and for building wheels.
    pub python_location: PythonLocation,
    /// Whether builds run without the inherited environment variables.
    pub clean_env: bool,
}

impl Default for ResolveOptions {
    fn default() -> (r: ResolveOptions)
        ensures
            r.sdist_resolution == SDistResolution::Normal,
            r.python_location == PythonLocation::System,
            !r.clean_env,
    {
        ResolveOptions {
            sdist_resolution: SDistResolution::Normal,
            python_location: PythonLocation::System,
            clean_env: false,
        }
    }
}

/// One solvable of a solution: a distribution, or one extra of it, at a version.
#[derive(Debug, Clone)]
pub struct SolvedPackage {
    pub name: NormalizedPackageName,
    pub extra: Option<String>,
    pub version: PypiVersion,
    pub artifacts: Vec<ArtifactInfo>,
}

/// A distribution locked down by resolution.
#[derive(Debug, Clone)]
pub struct PinnedPackage {
    /// The name of the package.
    pub name: NormalizedPackageName,
    /// The selected version.
    pub version: PypiVersion,
    /// The extras selected for it, each once.
    pub extras: Vec<String>,
    /// The artifacts that may be installed for it.
    pub artifacts: Vec<ArtifactInfo>,
}

/// Solvable `s` selects extra `e` of the distribution `name`.
pub open spec fn selects_extra(s: SolvedPackage, name: Seq<char>, e: Seq<char>) -> bool {
    &&& s.name@ == name
    &&& s.extra matches Some(x) && x@ == e
}

/// Some solvable selects extra `e` of the distribution `name`.
pub open spec fn extra_selected(solution: Seq<SolvedPackage>, name: Seq<char>, e: Seq<char>) -> bool {
    exists|k: int| 0 <= k < solution.len() && #[trigger] selects_extra(solution[k], name, e)
}

/// Some pinned package has the name `name`.
pub open spec fn is_pinned(pins: Seq<PinnedPackage>, name: Seq<char>) -> bool {
    exists|i: int| 0 <= i < pins.len() && (#[trigger] pins[i]).name@ == name
}

/// Solvable `k` is the first one named like `p`, and `p` has its version and artifacts.
pub open spec fn first_of_name(solution: Seq<SolvedPackage>, k: int, p: PinnedPackage) -> bool {
    &&& 0 <= k < solution.len()
    &&& solution[k].name@ == p.name@
    &&& solution[k].version == p.version
    &&& solution[k].artifacts == p.artifacts
    &&& forall|k2: int| 0 <= k2 < k ==> (#[trigger] solution[k2]).name@ != p.name@
}

/// `p` takes version and artifacts from the first solvable of its name.
pub open spec fn from_first_solvable(solution: Seq<SolvedPackage>, p: PinnedPackage) -> bool {
    exists|k: int| #[trigger] first_of_name(solution, k, p)
}

/// The pinned packages of a solution: one per distinct name, taking version and
/// artifacts from the first solvable of that name, with every extra selected for
/// it, each once.
pub open spec fn pins_ok(solution: Seq<SolvedPackage>, pins: Seq<PinnedPackage>) -> bool {
    &&& forall|i: int, j: int| 0 <= i < j < pins.len() ==> (#[trigger] pins[i]).name@ != (#[trigger] pins[j]).name@
    &&& forall|k: int| 0 <= k < solution.len() ==> is_pinned(pins, (#[trigger] solution[k]).name@)
    &&& forall|i: int| 0 <= i < pins.len() ==> from_first_solvable(solution, #[trigger] pins[i])
    &&& forall|i: int, e: Seq<char>| 0 <= i < pins.len() ==>
        (#[trigger] extras_view(pins[i]).contains(e) <==> extra_selected(solution, pins[i].name@, e))
    &&& forall|i: int| 0 <= i < pins.len() ==> no_duplicate_extras(#[trigger] pins[i])
}

pub open spec fn extras_view(p: PinnedPackage) -> Seq<Seq<char>> {
    p.extras@.map_values(|x: String| x@)
}

pub open spec fn no_duplicate_extras(p: PinnedPackage) -> bool {
    forall|a: int, b: int| 0 <= a < b < p.extras@.len() ==> (#[trigger] p.extras@[a])@ != (#[trigger] p.extras@[b])@
}

proof fn lemma_extra_selected_push(prefix: Seq<SolvedPackage>, item: SolvedPackage, name: Seq<char>, e: Seq<char>)
    ensures
        extra_selected(prefix.push(item), name, e) == (extra_selected(prefix, name, e) || selects_extra(item, name, e)),
{
    let next = prefix.push(item);
    if extra_selected(next, name, e) {
        let k = choose|k: int| 0 <= k < next.len() && #[trigger] selects_extra(next[k], name, e);
        if k < prefix.len() {
            assert(next[k] == prefix[k]);
            assert(selects_extra(prefix[k], name, e));
        }
    }
    if extra_selected(prefix, name, e) {
        let k = choose|k: int| 0 <= k < prefix.len() && #[trigger] selects_extra(prefix[k], name, e);
        assert(next[k] == prefix[k]);
        assert(selects_extra(next[k], name, e));
    }
    if selects_extra(item, name, e) {
        assert(next[prefix.len() as int] == item);
        assert(selects_extra(next[prefix.len() as int], name, e));
    }
}

proof fn lemma_first_solvable_push(prefix: Seq<SolvedPackage>, item: SolvedPackage, p: PinnedPackage)
    requires
        from_first_solvable(prefix, p),
    ensures
        from_first_solvable(prefix.push(item), p),
{
    let next = prefix.push(item);
    let k = choose|k: int| #[trigger] first_of_name(prefix, k, p);
    assert forall|k2: int| 0 <= k2 < k implies (#[trigger] next[k2]).name@ != p.name@ by {
        assert(next[k2] == prefix[k2]);
    }
    assert(first_of_name(next, k, p));
}

fn find_pin(pins: &Vec<PinnedPackage>, name: &NormalizedPackageName) -> (r: Option<usize>)
    ensures
        r matches Some(i) ==> i < pins@.len() && pins@[i as int].name@ == name@,
        r is None ==> forall|i: int| 0 <= i < pins@.len() ==> (#[trigger] pins@[i]).name@ != name@,
{
    let mut i: usize = 0;
    while i < pins.len()
        invariant
            i <= pins@.len(),
            forall|j: int| 0 <= j < i ==> (#[trigger] pins@[j]).name@ != name@,
        decreases pins@.len() - i,
    {
        if same_text(pins[i].name.as_str(), name.as_str()) {
            return Some(i);
        }
        i = i + 1;
    }
    None
}

fn has_extra(extras: &Vec<String>, e: &String) -> (r: bool)
    ensures
        r == exists|j: int| 0 <= j < extras@.len() && (#[trigger] extras@[j])@ == e@,
{
    let mut i: usize = 0;
    while i < extras.len()
        invariant
            i <= extras@.len(),
            forall|j: int| 0 <= j < i ==> (#[trigger] extras@[j])@ != e@,
        decreases extras@.len() - i,
    {
        if same_text(extras[i].as_str(), e.as_str()) {
            return true;
        }
        i = i + 1;
    }
    false
}

proof fn lemma_pin_update(prefix: Seq<SolvedPackage>, item: SolvedPackage, old_pins: Seq<PinnedPackage>, i: int, p: PinnedPackage)
    requires
        pins_ok(prefix, old_pins),
        0 <= i < old_pins.len(),
        old_pins[i].name@ == item.name@,
        p.name@ == old_pins[i].name@,
        p.version == old_pins[i].version,
        p.artifacts == old_pins[i].artifacts,
        forall|e: Seq<char>| #[trigger] extras_view(p).contains(e)
            <==> (extras_view(old_pins[i]).contains(e) || selects_extra(item, p.name@, e)),
        no_duplicate_extras(p),
    ensures
        pins_ok(prefix.push(item), old_pins.update(i, p)),
{
    let next = prefix.push(item);
    let pins = old_pins.update(i, p);
    assert forall|a: int, b: int| 0 <= a < b < pins.len() implies (#[trigger] pins[a]).name@ != (#[trigger] pins[b]).name@ by {
        assert(pins[a].name@ == old_pins[a].name@);
        assert(pins[b].name@ == old_pins[b].name@);
    }
    assert forall|k: int| 0 <= k < next.len() implies is_pinned(pins, (#[trigger] next[k]).name@) by {
        if k < prefix.len() {
            assert(next[k] == prefix[k]);
            assert(is_pinned(old_pins, prefix[k].name@));
            let j = choose|j: int| 0 <= j < old_pins.len() && (#[trigger] old_pins[j]).name@ == prefix[k].name@;
            assert(pins[j].name@ == next[k].name@);
        } else {
            assert(pins[i].name@ == next[k].name@);
        }
    }
    assert forall|j: int| 0 <= j < pins.len() implies from_first_solvable(next, #[trigger] pins[j]) by {
        assert(from_first_solvable(prefix, old_pins[j]));
        lemma_first_solvable_push(prefix, item, old_pins[j]);
        if j == i {
            let k = choose|k: int| #[trigger] first_of_name(next, k, old_pins[j]);
            assert(first_of_name(next, k, p));
        }
    }
    assert forall|j: int, e: Seq<char>| 0 <= j < pins.len() implies
        (#[trigger] extras_view(pins[j]).contains(e) <==> extra_selected(next, pins[j].name@, e)) by {
        lemma_extra_selected_push(prefix, item, pins[j].name@, e);
        assert(extras_view(old_pins[j]).contains(e) <==> extra_selected(prefix, old_pins[j].name@, e));
        if j != i {
            assert(pins[j] == old_pins[j]);
            assert(old_pins[j].name@ != old_pins[i].name@);
        }
    }
    assert forall|j: int| 0 <= j < pins.len() implies no_duplicate_extras(#[trigger] pins[j]) by {
        if j != i {
            assert(pins[j] == old_pins[j]);
        }
    }
}

proof fn lemma_pin_push(prefix: Seq<SolvedPackage>, item: SolvedPackage, old_pins: Seq<PinnedPackage>, p: PinnedPackage)
    requires
        pins_ok(prefix, old_pins),
        forall|j: int| 0 <= j < old_pins.len() ==> (#[trigger] old_pins[j]).name@ != item.name@,
        p.name@ == item.name@,
        p.version == item.version,
        p.artifacts == item.artifacts,
        forall|e: Seq<char>| #[trigger] extras_view(p).contains(e) <==> selects_extra(item, p.name@, e),
        no_duplicate_extras(p),
    ensures
        pins_ok(prefix.push(item), old_pins.push(p)),
{
    let next = prefix.push(item);
    let pins = old_pins.push(p);
    assert forall|k2: int| 0 <= k2 < prefix.len() implies (#[trigger] next[k2]).name@ != p.name@ by {
        assert(next[k2] == prefix[k2]);
        assert(is_pinned(old_pins, prefix[k2].name@));
    }
    assert(first_of_name(next, prefix.len() as int, p));
    assert forall|a: int, b: int| 0 <= a < b < pins.len() implies (#[trigger] pins[a]).name@ != (#[trigger] pins[b]).name@ by {
        assert(pins[a] == old_pins[a]);
        if b < old_pins.len() {
            assert(pins[b] == old_pins[b]);
        }
    }
    assert forall|k: int| 0 <= k < next.len() implies is_pinned(pins, (#[trigger] next[k]).name@) by {
        if k < prefix.len() {
            assert(next[k] == prefix[k]);
            assert(is_pinned(old_pins, prefix[k].name@));
            let j = choose|j: int| 0 <= j < old_pins.len() && (#[trigger] old_pins[j]).name@ == prefix[k].name@;
            assert(pins[j].name@ == next[k].name@);
        } else {
            assert(pins[old_pins.len() as int].name@ == next[k].name@);
        }
    }
    assert forall|j: int| 0 <= j < pins.len() implies from_first_solvable(next, #[trigger] pins[j]) by {
        if j < old_pins.len() {
            assert(pins[j] == old_pins[j]);
            lemma_first_solvable_push(prefix, item, old_pins[j]);
        } else {
            assert(first_of_name(next, prefix.len() as int, pins[j]));
        }
    }
    assert forall|j: int, e: Seq<char>| 0 <= j < pins.len() implies
        (#[trigger] extras_view(pins[j]).contains(e) <==> extra_selected(next, pins[j].name@, e)) by {
        lemma_extra_selected_push(prefix, item, pins[j].name@, e);
        if j < old_pins.len() {
            assert(pins[j] == old_pins[j]);
        } else {
            if extra_selected(prefix, p.name@, e) {
                let k = choose|k: int| 0 <= k < prefix.len() && #[trigger] selects_extra(prefix[k], p.name@, e);
                assert(is_pinned(old_pins, prefix[k].name@));
            }
        }
    }
    assert forall|j: int| 0 <= j < pins.len() implies no_duplicate_extras(#[trigger] pins[j]) by {
        if j < old_pins.len() {
            assert(pins[j] == old_pins[j]);
        }
    }
}

/// Turns a solution into pinned packages, one per distinct name in the order the
/// names first occur.
pub fn pin_solution(solution: Vec<SolvedPackage>) -> (r: Vec<PinnedPackage>)
    ensures
        pins_ok(solution@, r@),
{
    let ghost all = solution@;
    let mut rest = solution;
    let mut pins: Vec<PinnedPackage> = Vec::new();
    let ghost mut done: int = 0;
    while rest.len() > 0
        invariant
            all == solution@,
            0 <= done <= all.len(),
            rest@ == all.skip(done),
            pins_ok(all.take(done), pins@),
        decreases rest@.len(),
    {
        let item = rest.remove(0);
        let ghost it = item;
        let ghost prefix = all.take(done);
        assert(all.take(done + 1) =~= prefix.push(it));
        let ghost old_pins = pins@;
        let SolvedPackage { name, extra, version, artifacts } = item;
        match find_pin(&pins, &name) {
            Some(i) => {
                let mut p = pins.remove(i);
                assert(p == old_pins[i as int]);
                match extra {
                    Some(e) => {
                        if !has_extra(&p.extras, &e) {
                            p.extras.push(e);
                        }
                    },
                    None => {},
                }
                pins.insert(i, p);
                proof {
                    let op = old_pins[i as int];
                    assert forall|e2: Seq<char>| #[trigger] extras_view(p).contains(e2)
                        <==> (extras_view(op).contains(e2) || selects_extra(it, p.name@, e2)) by {
                        if extras_view(p).contains(e2) {
                            let t = choose|t: int| 0 <= t < extras_view(p).len() && extras_view(p)[t] == e2;
                            if t < op.extras@.len() {
                                assert(extras_view(op)[t] == e2);
                            }
                        }
                        if extras_view(op).contains(e2) {
                            let t = choose|t: int| 0 <= t < extras_view(op).len() && extras_view(op)[t] == e2;
                            assert(extras_view(p)[t] == e2);
                        }
                        if selects_extra(it, p.name@, e2) {
                            if p.extras@.len() > op.extras@.len() {
                                assert(extras_view(p)[p.extras@.len() - 1] == e2);
                            } else {
                                let t = choose|t: int| 0 <= t < op.extras@.len() && (#[trigger] op.extras@[t])@ == e2;
                                assert(extras_view(p)[t] == e2);
                            }
                        }
                    }
                    assert forall|a: int, b: int| 0 <= a < b < p.extras@.len() implies (#[trigger] p.extras@[a])@ != (#[trigger] p.extras@[b])@ by {
                        assert(p.extras@[a] == op.extras@[a]);
                        if b < op.extras@.len() {
                            assert(p.extras@[b] == op.extras@[b]);
                        }
                    }
                    assert(pins@ =~= old_pins.update(i as int, p));
                    lemma_pin_update(prefix, it, old_pins, i as int, p);
                }
            },
            None => {
                let mut extras: Vec<String> = Vec::new();
                match extra {
                    Some(e) => extras.push(e),
                    None => {},
                }
                let p = PinnedPackage { name, version, extras, artifacts };
                pins.push(p);
                proof {
                    assert forall|e2: Seq<char>| #[trigger] extras_view(p).contains(e2) <==> selects_extra(it, p.name@, e2) by {
                        if extras_view(p).contains(e2) {
                            let t = choose|t: int| 0 <= t < extras_view(p).len() && extras_view(p)[t] == e2;
                        }
                        if selects_extra(it, p.name@, e2) {
                            assert(extras_view(p)[0] == e2);
                        }
                    }
                    lemma_pin_push(prefix, it, old_pins, p);
                }
            },
        }
        proof {
            done = done + 1;
            assert(rest@ =~= all.skip(done));
        }
    }
    assert(all.take(done) =~= all);
    pins
}


/// A requirement that the solution must meet: a distribution, or one extra of it.
#[derive(Debug, Clone)]
pub struct RootRequirement {
    pub name: NormalizedPackageName,
    pub extra: Option<String>,
}

/// The root requirements of one requirement, as (name, extra) texts: the
/// distribution itself, then each of its extras.
pub open spec fn requirement_roots(r: Requirement) -> Seq<(Seq<char>, Option<Seq<char>>)> {
    let extras: Seq<Seq<char>> = match r.extras {
        Some(v) => v@.map_values(|e: String| e@),
        None => Seq::empty(),
    };
    seq![(normalized(r.name@), None::<Seq<char>>)]
        + extras.map_values(|e: Seq<char>| (normalized(r.name@), Some(e)))
}

/// The root requirements of all requirements, in order.
pub open spec fn all_roots(rs: Seq<Requirement>) -> Seq<(Seq<char>, Option<Seq<char>>)>
    decreases rs.len(),
{
    if rs.len() == 0 {
        Seq::empty()
    } else {
        all_roots(rs.drop_last()) + requirement_roots(rs.last())
    }
}

pub open spec fn root_view(r: RootRequirement) -> (Seq<char>, Option<Seq<char>>) {
    (r.name@, match r.extra { Some(e) => Some(e@), None => None })
}

/// The root requirements of the requirements a caller asks for: each names its
/// distribution once, and once more for each extra it selects.
pub fn root_requirements(requirements: &Vec<Requirement>) -> (r: Vec<RootRequirement>)
    ensures
        r@.map_values(|x: RootRequirement| root_view(x)) == all_roots(requirements@),
{
    let mut out: Vec<RootRequirement> = Vec::new();
    let mut i: usize = 0;
    while i < requirements.len()
        invariant
            i <= requirements@.len(),
            out@.map_values(|x: RootRequirement| root_view(x)) == all_roots(requirements@.take(i as int)),
        decreases requirements@.len() - i,
    {
        let req = &requirements[i];
        assert(requirements@.take(i as int + 1).drop_last() =~= requirements@.take(i as int));
        let ghost before = out@.map_values(|x: RootRequirement| root_view(x));
        let base = NormalizedPackageName::from_name(req.name.as_str());
        out.push(RootRequirement { name: base, extra: None });
        let ghost roots = requirement_roots(*req);
        assert(out@.map_values(|x: RootRequirement| root_view(x)) =~= before + roots.take(1));
        match &req.extras {
            Some(extras) => {
                let mut j: usize = 0;
                while j < extras.len()
                    invariant
                        j <= extras@.len(),
                        req.extras == Some(*extras),
                        roots == requirement_roots(*req),
                        roots.len() == 1 + extras@.len(),
                        out@.map_values(|x: RootRequirement| root_view(x)) == before + roots.take(1 + j as int),
                    decreases extras@.len() - j,
                {
                    let name = NormalizedPackageName::from_name(req.name.as_str());
                    let ghost prev = out@.map_values(|x: RootRequirement| root_view(x));
                    let extra = extras[j].clone();
                    let item = RootRequirement { name, extra: Some(extra) };
                    assert(root_view(item) == (normalized(req.name@), Some(extras@[j as int]@)));
                    out.push(item);
                    assert(out@.map_values(|x: RootRequirement| root_view(x)) =~= prev.push(root_view(item)));
                    let ghost ev = extras@.map_values(|e: String| e@);
                    assert(ev[j as int] == extras@[j as int]@);
                    assert(roots[1 + j as int] == (normalized(req.name@), Some(extras@[j as int]@)));
                    assert(out@.map_values(|x: RootRequirement| root_view(x)) =~= before + roots.take(2 + j as int));
                    j = j + 1;
                }
                assert(roots.take(1 + j as int) =~= roots);
            },
            None => {
                assert(roots.take(1) =~= roots);
            },
        }
        i = i + 1;
    }
    assert(requirements@.take(i as int) =~= requirements@);
    out
}

} // verus!
