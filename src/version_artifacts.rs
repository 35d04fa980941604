//! The artifacts of a package grouped by version: newest version first, and within a
//! version the artifacts in a fixed order, so that downstream output is deterministic.

use vstd::prelude::*;
use vstd::multiset::Multiset;
use crate::artifact::{ArtifactInfo, ArtifactName, SDistFormat, artifact_kind_rank, artifact_version_text};
use crate::text::{chars_of, views};
use crate::version::{PackageVersion, PypiVersion, is_valid_version, version_cmp, version_is_prerelease};

verus! {

broadcast use vstd::seq_lib::group_to_multiset_ensures;

/// Three-way lexicographic comparison of texts, by character code: -1, 0 or 1.
pub open spec fn text_cmp(a: Seq<char>, b: Seq<char>) -> int
    decreases a.len(),
{
    if a.len() == 0 {
        if b.len() == 0 { 0 } else { -1 }
    } else if b.len() == 0 {
        1
    } else if a[0] != b[0] {
        if a[0] < b[0] { -1 } else { 1 }
    } else {
        text_cmp(a.drop_first(), b.drop_first())
    }
}

pub proof fn lemma_text_cmp(a: Seq<char>, b: Seq<char>)
    ensures
        text_cmp(b, a) == -text_cmp(a, b),
        (text_cmp(a, b) == 0) == (a == b),
        -1 <= text_cmp(a, b) <= 1,
    decreases a.len(),
{
    if a.len() > 0 && b.len() > 0 && a[0] == b[0] {
        lemma_text_cmp(a.drop_first(), b.drop_first());
        if a.drop_first() == b.drop_first() {
            assert(a =~= seq![a[0]] + a.drop_first());
            assert(b =~= seq![b[0]] + b.drop_first());
        }
    }
    if a.len() == 0 && b.len() == 0 {
        assert(a =~= b);
    }
}

pub proof fn lemma_text_cmp_trans(a: Seq<char>, b: Seq<char>, c: Seq<char>)
    ensures
        text_cmp(a, b) <= 0 && text_cmp(b, c) <= 0 ==> text_cmp(a, c) <= 0,
    decreases a.len(),
{
    if a.len() > 0 && b.len() > 0 && c.len() > 0 && a[0] == b[0] && b[0] == c[0] {
        lemma_text_cmp_trans(a.drop_first(), b.drop_first(), c.drop_first());
    }
}

/// Three-way lexicographic comparison of sequences of texts.
pub open spec fn texts_cmp(a: Seq<Seq<char>>, b: Seq<Seq<char>>) -> int
    decreases a.len(),
{
    if a.len() == 0 {
        if b.len() == 0 { 0 } else { -1 }
    } else if b.len() == 0 {
        1
    } else if text_cmp(a[0], b[0]) != 0 {
        text_cmp(a[0], b[0])
    } else {
        texts_cmp(a.drop_first(), b.drop_first())
    }
}

pub proof fn lemma_texts_cmp(a: Seq<Seq<char>>, b: Seq<Seq<char>>)
    ensures
        texts_cmp(b, a) == -texts_cmp(a, b),
        (texts_cmp(a, b) == 0) == (a == b),
        -1 <= texts_cmp(a, b) <= 1,
    decreases a.len(),
{
    if a.len() > 0 && b.len() > 0 {
        lemma_text_cmp(a[0], b[0]);
        if text_cmp(a[0], b[0]) == 0 {
            lemma_texts_cmp(a.drop_first(), b.drop_first());
            if a.drop_first() == b.drop_first() {
                assert(a =~= seq![a[0]] + a.drop_first());
                assert(b =~= seq![b[0]] + b.drop_first());
            }
        }
    }
    if a.len() == 0 && b.len() == 0 {
        assert(a =~= b);
    }
}

pub proof fn lemma_texts_cmp_trans(a: Seq<Seq<char>>, b: Seq<Seq<char>>, c: Seq<Seq<char>>)
    ensures
        texts_cmp(a, b) <= 0 && texts_cmp(b, c) <= 0 ==> texts_cmp(a, c) <= 0,
    decreases a.len(),
{
    if a.len() > 0 && b.len() > 0 && c.len() > 0 {
        lemma_text_cmp(a[0], b[0]);
        lemma_text_cmp(b[0], c[0]);
        lemma_text_cmp(a[0], c[0]);
        lemma_text_cmp_trans(a[0], b[0], c[0]);
        lemma_text_cmp_trans(c[0], b[0], a[0]);
        lemma_texts_cmp_trans(a.drop_first(), b.drop_first(), c.drop_first());
    }
}

/// Three-way comparison of optional texts: absent first.
pub open spec fn opt_text_cmp(a: Option<Seq<char>>, b: Option<Seq<char>>) -> int {
    match (a, b) {
        (None, None) => 0,
        (None, Some(_)) => -1,
        (Some(_), None) => 1,
        (Some(x), Some(y)) => text_cmp(x, y),
    }
}

pub open spec fn int_cmp(a: int, b: int) -> int {
    if a < b { -1 } else if a > b { 1 } else { 0 }
}

/// The first comparison that tells two values apart.
pub open spec fn then_cmp(first: int, second: int) -> int {
    if first != 0 { first } else { second }
}

pub open spec fn format_rank(f: SDistFormat) -> int {
    match f {
        SDistFormat::Zip => 0,
        SDistFormat::TarGz => 1,
        SDistFormat::TarBz2 => 2,
        SDistFormat::TarXz => 3,
    }
}

/// The order of artifact names within one version: by kind (wheels, then source
/// distributions, then source trees), then field by field. Wheels compare by
/// distribution, build tag (none first), python, abi and platform tags; source
/// distributions by distribution and format; source trees by distribution and URL.
pub open spec fn artifact_cmp(a: ArtifactName, b: ArtifactName) -> int {
    if artifact_kind_rank(a) != artifact_kind_rank(b) {
        int_cmp(artifact_kind_rank(a), artifact_kind_rank(b))
    } else {
        match (a, b) {
            (ArtifactName::Wheel(x), ArtifactName::Wheel(y)) =>
                then_cmp(text_cmp(x@.distribution, y@.distribution),
                then_cmp(opt_text_cmp(x@.build_tag, y@.build_tag),
                then_cmp(texts_cmp(x@.py_tags, y@.py_tags),
                then_cmp(texts_cmp(x@.abi_tags, y@.abi_tags), texts_cmp(x@.arch_tags, y@.arch_tags))))),
            (ArtifactName::SDist(x), ArtifactName::SDist(y)) =>
                then_cmp(text_cmp(x.distribution@, y.distribution@), int_cmp(format_rank(x.format), format_rank(y.format))),
            (ArtifactName::STree(x), ArtifactName::STree(y)) =>
                then_cmp(text_cmp(x.distribution@, y.distribution@), text_cmp(x.url@, y.url@)),
            _ => 0,
        }
    }
}

proof fn lemma_opt_text_cmp(a: Option<Seq<char>>, b: Option<Seq<char>>, c: Option<Seq<char>>)
    ensures
        opt_text_cmp(b, a) == -opt_text_cmp(a, b),
        (opt_text_cmp(a, b) == 0) == (a == b),
        opt_text_cmp(a, b) <= 0 && opt_text_cmp(b, c) <= 0 ==> opt_text_cmp(a, c) <= 0,
{
    if let (Some(x), Some(y)) = (a, b) {
        lemma_text_cmp(x, y);
    }
    if let (Some(x), Some(y), Some(z)) = (a, b, c) {
        lemma_text_cmp_trans(x, y, z);
    }
}

proof fn lemma_texts3(a: Seq<Seq<char>>, b: Seq<Seq<char>>, c: Seq<Seq<char>>)
    ensures
        texts_cmp(b, a) == -texts_cmp(a, b),
        texts_cmp(c, b) == -texts_cmp(b, c),
        texts_cmp(c, a) == -texts_cmp(a, c),
        (texts_cmp(a, b) == 0) == (a == b),
        (texts_cmp(b, c) == 0) == (b == c),
        (texts_cmp(a, c) == 0) == (a == c),
        texts_cmp(a, b) <= 0 && texts_cmp(b, c) <= 0 ==> texts_cmp(a, c) <= 0,
{
    lemma_texts_cmp(a, b);
    lemma_texts_cmp(b, c);
    lemma_texts_cmp(a, c);
    lemma_texts_cmp_trans(a, b, c);
}

proof fn lemma_text3(a: Seq<char>, b: Seq<char>, c: Seq<char>)
    ensures
        text_cmp(b, a) == -text_cmp(a, b),
        text_cmp(c, b) == -text_cmp(b, c),
        text_cmp(c, a) == -text_cmp(a, c),
        (text_cmp(a, b) == 0) == (a == b),
        (text_cmp(b, c) == 0) == (b == c),
        (text_cmp(a, c) == 0) == (a == c),
        text_cmp(a, b) <= 0 && text_cmp(b, c) <= 0 ==> text_cmp(a, c) <= 0,
{
    lemma_text_cmp(a, b);
    lemma_text_cmp(b, c);
    lemma_text_cmp(a, c);
    lemma_text_cmp_trans(a, b, c);
}

/// Artifact names compare antisymmetrically.
pub proof fn lemma_artifact_cmp_antisymmetric(a: ArtifactName, b: ArtifactName)
    ensures
        artifact_cmp(b, a) == -artifact_cmp(a, b),
{
    match (a, b) {
        (ArtifactName::Wheel(x), ArtifactName::Wheel(y)) => {
            lemma_text_cmp(x@.distribution, y@.distribution);
            lemma_opt_text_cmp(x@.build_tag, y@.build_tag, y@.build_tag);
            lemma_texts_cmp(x@.py_tags, y@.py_tags);
            lemma_texts_cmp(x@.abi_tags, y@.abi_tags);
            lemma_texts_cmp(x@.arch_tags, y@.arch_tags);
        },
        (ArtifactName::SDist(x), ArtifactName::SDist(y)) => {
            lemma_text_cmp(x.distribution@, y.distribution@);
        },
        (ArtifactName::STree(x), ArtifactName::STree(y)) => {
            lemma_text_cmp(x.distribution@, y.distribution@);
            lemma_text_cmp(x.url@, y.url@);
        },
        _ => {},
    }
}

/// The order of artifact names is transitive.
pub proof fn lemma_artifact_cmp_transitive(a: ArtifactName, b: ArtifactName, c: ArtifactName)
    ensures
        artifact_cmp(a, b) <= 0 && artifact_cmp(b, c) <= 0 ==> artifact_cmp(a, c) <= 0,
{
    match (a, b, c) {
        (ArtifactName::Wheel(x), ArtifactName::Wheel(y), ArtifactName::Wheel(z)) => {
            lemma_text3(x@.distribution, y@.distribution, z@.distribution);
            lemma_opt_text_cmp(x@.build_tag, y@.build_tag, z@.build_tag);
            lemma_opt_text_cmp(y@.build_tag, z@.build_tag, x@.build_tag);
            lemma_opt_text_cmp(x@.build_tag, z@.build_tag, y@.build_tag);
            lemma_texts3(x@.py_tags, y@.py_tags, z@.py_tags);
            lemma_texts3(x@.abi_tags, y@.abi_tags, z@.abi_tags);
            lemma_texts3(x@.arch_tags, y@.arch_tags, z@.arch_tags);
        },
        (ArtifactName::SDist(x), ArtifactName::SDist(y), ArtifactName::SDist(z)) => {
            lemma_text3(x.distribution@, y.distribution@, z.distribution@);
        },
        (ArtifactName::STree(x), ArtifactName::STree(y), ArtifactName::STree(z)) => {
            lemma_text3(x.distribution@, y.distribution@, z.distribution@);
            lemma_text3(x.url@, y.url@, z.url@);
        },
        _ => {},
    }
}

/// The order of artifacts within one version.
pub open spec fn artifact_le(a: ArtifactInfo, b: ArtifactInfo) -> bool {
    artifact_cmp(a.filename, b.filename) <= 0
}

fn text_cmp_exec(a: &str, b: &str) -> (r: i8)
    ensures
        r as int == text_cmp(a@, b@),
{
    let x = chars_of(a);
    let y = chars_of(b);
    let mut i: usize = 0;
    assert(x@.skip(0) =~= x@);
    assert(y@.skip(0) =~= y@);
    while i < x.len() && i < y.len() && x[i] == y[i]
        invariant
            i <= x@.len(),
            i <= y@.len(),
            text_cmp(x@, y@) == text_cmp(x@.skip(i as int), y@.skip(i as int)),
        decreases x@.len() - i,
    {
        assert(x@.skip(i as int).drop_first() =~= x@.skip(i as int + 1));
        assert(y@.skip(i as int).drop_first() =~= y@.skip(i as int + 1));
        i = i + 1;
    }
    if i == x.len() {
        assert(x@.skip(i as int).len() == 0);
        if i == y.len() {
            assert(y@.skip(i as int).len() == 0);
            0
        } else {
            -1
        }
    } else if i == y.len() {
        assert(y@.skip(i as int).len() == 0);
        1
    } else {
        assert(x@.skip(i as int)[0] == x@[i as int]);
        assert(y@.skip(i as int)[0] == y@[i as int]);
        if x[i] < y[i] { -1 } else { 1 }
    }
}

fn texts_cmp_exec(a: &Vec<String>, b: &Vec<String>) -> (r: i8)
    ensures
        r as int == texts_cmp(views(a@), views(b@)),
{
    let ghost av = views(a@);
    let ghost bv = views(b@);
    let mut i: usize = 0;
    assert(av.skip(0) =~= av);
    assert(bv.skip(0) =~= bv);
    while i < a.len() && i < b.len()
        invariant
            av == views(a@),
            bv == views(b@),
            i <= a@.len(),
            i <= b@.len(),
            texts_cmp(av, bv) == texts_cmp(av.skip(i as int), bv.skip(i as int)),
        decreases a@.len() - i,
    {
        let c = text_cmp_exec(a[i].as_str(), b[i].as_str());
        assert(av.skip(i as int)[0] == a@[i as int]@);
        assert(bv.skip(i as int)[0] == b@[i as int]@);
        if c != 0 {
            return c;
        }
        assert(av.skip(i as int).drop_first() =~= av.skip(i as int + 1));
        assert(bv.skip(i as int).drop_first() =~= bv.skip(i as int + 1));
        i = i + 1;
    }
    if i == a.len() {
        assert(av.skip(i as int).len() == 0);
        if i == b.len() {
            assert(bv.skip(i as int).len() == 0);
            0
        } else {
            -1
        }
    } else {
        assert(bv.skip(i as int).len() == 0);
        1
    }
}

fn opt_text_cmp_exec(a: &Option<String>, b: &Option<String>) -> (r: i8)
    ensures
        r as int == opt_text_cmp(match a { Some(x) => Some(x@), None => None }, match b { Some(x) => Some(x@), None => None }),
{
    match (a, b) {
        (None, None) => 0,
        (None, Some(_)) => -1,
        (Some(_), None) => 1,
        (Some(x), Some(y)) => text_cmp_exec(x.as_str(), y.as_str()),
    }
}

fn format_rank_exec(f: SDistFormat) -> (r: i8)
    ensures
        r as int == format_rank(f),
{
    match f {
        SDistFormat::Zip => 0,
        SDistFormat::TarGz => 1,
        SDistFormat::TarBz2 => 2,
        SDistFormat::TarXz => 3,
    }
}

fn kind_rank(n: &ArtifactName) -> (r: i8)
    ensures
        r as int == artifact_kind_rank(*n),
{
    match n {
        ArtifactName::Wheel(_) => 0,
        ArtifactName::SDist(_) => 1,
        ArtifactName::STree(_) => 2,
    }
}

fn int_cmp_exec(a: i8, b: i8) -> (r: i8)
    ensures
        r as int == int_cmp(a as int, b as int),
{
    if a < b { -1 } else if a > b { 1 } else { 0 }
}

/// How artifact name `a` compares to `b` in the order within one version.
pub fn artifact_cmp_exec(a: &ArtifactName, b: &ArtifactName) -> (r: i8)
    ensures
        r as int == artifact_cmp(*a, *b),
{
    let ra = kind_rank(a);
    let rb = kind_rank(b);
    if ra != rb {
        return int_cmp_exec(ra, rb);
    }
    match (a, b) {
        (ArtifactName::Wheel(x), ArtifactName::Wheel(y)) => {
            let c = text_cmp_exec(x.distribution.as_str(), y.distribution.as_str());
            if c != 0 {
                return c;
            }
            let c = opt_text_cmp_exec(&x.build_tag, &y.build_tag);
            if c != 0 {
                return c;
            }
            let c = texts_cmp_exec(&x.py_tags, &y.py_tags);
            if c != 0 {
                return c;
            }
            let c = texts_cmp_exec(&x.abi_tags, &y.abi_tags);
            if c != 0 {
                return c;
            }
            texts_cmp_exec(&x.arch_tags, &y.arch_tags)
        },
        (ArtifactName::SDist(x), ArtifactName::SDist(y)) => {
            let c = text_cmp_exec(x.distribution.as_str(), y.distribution.as_str());
            if c != 0 {
                return c;
            }
            int_cmp_exec(format_rank_exec(x.format), format_rank_exec(y.format))
        },
        (ArtifactName::STree(x), ArtifactName::STree(y)) => {
            let c = text_cmp_exec(x.distribution.as_str(), y.distribution.as_str());
            if c != 0 {
                return c;
            }
            text_cmp_exec(x.url.as_str(), y.url.as_str())
        },
        _ => 0,
    }
}

/// Artifacts in the order `artifact_le`, every earlier one no later than every
/// later one.
pub open spec fn artifacts_ordered(l: Seq<ArtifactInfo>) -> bool {
    forall|i: int, j: int| 0 <= i < j < l.len() ==> #[trigger] artifact_le(l[i], l[j])
}

/// Inserts `a` into an ordered list of artifacts, after the artifacts that come
/// no later than it, keeping the list ordered.
pub fn insert_ordered(list: &mut Vec<ArtifactInfo>, a: ArtifactInfo)
    requires
        artifacts_ordered(old(list)@),
    ensures
        artifacts_ordered(final(list)@),
        final(list)@.to_multiset() == old(list)@.to_multiset().insert(a),
        final(list)@.len() == old(list)@.len() + 1,
{
    let mut k: usize = 0;
    while k < list.len() && artifact_cmp_exec(&list[k].filename, &a.filename) <= 0
        invariant
            k <= list@.len(),
            forall|j: int| 0 <= j < k ==> artifact_le(#[trigger] list@[j], a),
        decreases list@.len() - k,
    {
        k = k + 1;
    }
    let ghost before = list@;
    list.insert(k, a);
    proof {
        vstd::seq_lib::to_multiset_insert(before, k as int, a);
        let l = list@;
        assert(l == before.insert(k as int, a));
        if k < before.len() {
            lemma_artifact_cmp_antisymmetric(before[k as int].filename, a.filename);
        }
        assert forall|i: int, j: int| 0 <= i < j < l.len() implies #[trigger] artifact_le(l[i], l[j]) by {
            if j < k {
                assert(l[i] == before[i] && l[j] == before[j]);
                assert(artifact_le(before[i], before[j]));
            } else if j == k {
                assert(l[i] == before[i] && l[j] == a);
            } else if i == k {
                assert(l[i] == a && l[j] == before[j - 1]);
                if j - 1 > k {
                    assert(artifact_le(before[k as int], before[j - 1]));
                }
                lemma_artifact_cmp_transitive(a.filename, before[k as int].filename, before[j - 1].filename);
            } else if i < k {
                assert(l[i] == before[i] && l[j] == before[j - 1]);
                assert(artifact_le(before[i], before[j - 1]));
            } else {
                assert(l[i] == before[i - 1] && l[j] == before[j - 1]);
                assert(artifact_le(before[i - 1], before[j - 1]));
            }
        }
    }
}

/// The text of a grouping key: the version text, or the URL of a direct reference.
pub open spec fn pypi_version_text(v: PypiVersion) -> Seq<char> {
    match v {
        PypiVersion::Version { version, .. } => version@,
        PypiVersion::Url(u) => u@,
    }
}

/// Artifacts grouped by version.
#[derive(Debug, Clone)]
pub struct VersionArtifacts {
    pub entries: Vec<(PypiVersion, Vec<ArtifactInfo>)>,
}

/// Every artifact of the groups, counted with multiplicity.
pub open spec fn grouped_multiset(es: Seq<(PypiVersion, Vec<ArtifactInfo>)>) -> Multiset<ArtifactInfo>
    decreases es.len(),
{
    if es.len() == 0 {
        Multiset::empty()
    } else {
        grouped_multiset(es.drop_last()).add(es.last().1@.to_multiset())
    }
}

/// Whether a grouping key is marked as a pre-release.
pub open spec fn pypi_version_flag(v: PypiVersion) -> bool {
    match v {
        PypiVersion::Version { package_allows_prerelease, .. } => package_allows_prerelease,
        PypiVersion::Url(_) => false,
    }
}

/// Key `(t1, f1)` comes before key `(t2, f2)`: a newer version, or the same
/// version with the pre-release mark.
pub open spec fn key_before(t1: Seq<char>, f1: bool, t2: Seq<char>, f2: bool) -> bool {
    version_cmp(t1, t2) == 1 || (version_cmp(t1, t2) == 0 && f1 && !f2)
}

pub open spec fn group_before(a: PypiVersion, b: PypiVersion) -> bool {
    key_before(pypi_version_text(a), pypi_version_flag(a), pypi_version_text(b), pypi_version_flag(b))
}

/// Every group comes before every later one: newest version first.
pub open spec fn versions_descending(es: Seq<(PypiVersion, Vec<ArtifactInfo>)>) -> bool {
    forall|i: int, j: int| 0 <= i < j < es.len() ==> #[trigger] group_before(es[i].0, es[j].0)
}

/// A group of the index: a valid release version, whether it is a pre-release,
/// and a non-empty ordered list of artifacts of that version, each with that
/// pre-release status.
pub open spec fn index_group_ok(e: (PypiVersion, Vec<ArtifactInfo>)) -> bool {
    &&& e.0 matches PypiVersion::Version { version, package_allows_prerelease }
        && package_allows_prerelease == version_is_prerelease(version@)
        && is_valid_version(version@)
    &&& e.1@.len() > 0
    &&& artifacts_ordered(e.1@)
    &&& forall|j: int| 0 <= j < e.1@.len() ==>
        version_cmp(artifact_version_text((#[trigger] e.1@[j]).filename), pypi_version_text(e.0)) == 0
        && version_is_prerelease(artifact_version_text(e.1@[j].filename)) == pypi_version_flag(e.0)
}

pub open spec fn index_groups_ok(es: Seq<(PypiVersion, Vec<ArtifactInfo>)>) -> bool {
    &&& versions_descending(es)
    &&& forall|i: int| 0 <= i < es.len() ==> index_group_ok(#[trigger] es[i])
}

proof fn lemma_grouped_update(es: Seq<(PypiVersion, Vec<ArtifactInfo>)>, i: int, e: (PypiVersion, Vec<ArtifactInfo>), a: ArtifactInfo)
    requires
        0 <= i < es.len(),
        e.1@.to_multiset() == es[i].1@.to_multiset().insert(a),
    ensures
        grouped_multiset(es.update(i, e)) == grouped_multiset(es).insert(a),
    decreases es.len(),
{
    let u = es.update(i, e);
    if i == es.len() - 1 {
        assert(u.drop_last() =~= es.drop_last());
    } else {
        lemma_grouped_update(es.drop_last(), i, e, a);
        assert(u.drop_last() =~= es.drop_last().update(i, e));
    }
    assert(grouped_multiset(u) =~= grouped_multiset(es).insert(a));
}

proof fn lemma_grouped_insert(es: Seq<(PypiVersion, Vec<ArtifactInfo>)>, k: int, e: (PypiVersion, Vec<ArtifactInfo>), a: ArtifactInfo)
    requires
        0 <= k <= es.len(),
        e.1@.to_multiset() == Multiset::<ArtifactInfo>::empty().insert(a),
    ensures
        grouped_multiset(es.insert(k, e)) == grouped_multiset(es).insert(a),
    decreases es.len(),
{
    let u = es.insert(k, e);
    if k == es.len() {
        assert(u.drop_last() =~= es);
    } else {
        lemma_grouped_insert(es.drop_last(), k, e, a);
        assert(u.drop_last() =~= es.drop_last().insert(k, e));
    }
    assert(grouped_multiset(u) =~= grouped_multiset(es).insert(a));
}

/// An artifact whose filename carries a text that is not a valid version.
#[derive(Debug, Clone, PartialEq, Eq)]
pub struct InvalidVersion {
    pub text: String,
}

fn group_cmp(e: &(PypiVersion, Vec<ArtifactInfo>), v: &PackageVersion) -> (r: i8)
    requires
        index_group_ok(*e),
        v.valid(),
    ensures
        r as int == version_cmp(pypi_version_text(e.0), v@),
        version_cmp(v@, pypi_version_text(e.0)) == -r,
        -1 <= r <= 1,
        r == 0 ==> forall|c: Seq<char>| is_valid_version(c) ==> #[trigger] version_cmp(v@, c) == version_cmp(pypi_version_text(e.0), c),
        r == -1 ==> forall|c: Seq<char>| is_valid_version(c) && version_cmp(pypi_version_text(e.0), c) >= 0 ==> #[trigger] version_cmp(v@, c) == 1,
{
    match &e.0 {
        PypiVersion::Version { version, .. } => version.compare(v),
        PypiVersion::Url(_) => 0,
    }
}

fn group_flag(e: &(PypiVersion, Vec<ArtifactInfo>)) -> (r: bool)
    ensures
        r == pypi_version_flag(e.0),
{
    match &e.0 {
        PypiVersion::Version { package_allows_prerelease, .. } => *package_allows_prerelease,
        PypiVersion::Url(_) => false,
    }
}

/// Whether the group `e` comes before the key `(v, prerelease)`.
fn comes_before(e: &(PypiVersion, Vec<ArtifactInfo>), v: &PackageVersion, prerelease: bool) -> (r: bool)
    requires
        index_group_ok(*e),
        v.valid(),
    ensures
        r == key_before(pypi_version_text(e.0), pypi_version_flag(e.0), v@, prerelease),
{
    let c = group_cmp(e, v);
    c == 1 || (c == 0 && group_flag(e) && !prerelease)
}

impl VersionArtifacts {
    /// Groups the files that the indexes list by version and pre-release status,
    /// newest version first, each group ordered by `artifact_le`. A group is keyed
    /// by the version text of its first file. Fails on the first file whose version
    /// text is not a valid version.
    pub fn from_index_files(files: Vec<ArtifactInfo>) -> (r: Result<VersionArtifacts, InvalidVersion>)
        ensures
            r is Ok <==> forall|i: int| 0 <= i < files@.len()
                ==> is_valid_version(artifact_version_text((#[trigger] files@[i]).filename)),
            r matches Ok(va) ==> index_groups_ok(va.entries@)
                && grouped_multiset(va.entries@) == files@.to_multiset()
                && va.entries@.len() <= files@.len(),
            r matches Err(e) ==> exists|i: int| 0 <= i < files@.len()
                && !is_valid_version(artifact_version_text((#[trigger] files@[i]).filename))
                && e.text@ == artifact_version_text(files@[i].filename),
    {
        let ghost all = files@;
        let mut rest = files;
        let mut entries: Vec<(PypiVersion, Vec<ArtifactInfo>)> = Vec::new();
        let ghost mut done: int = 0;
        while rest.len() > 0
            invariant
                all == files@,
                0 <= done <= all.len(),
                rest@ == all.skip(done),
                entries@.len() <= done,
                index_groups_ok(entries@),
                grouped_multiset(entries@) == all.take(done).to_multiset(),
                forall|i: int| 0 <= i < done ==> is_valid_version(artifact_version_text((#[trigger] all[i]).filename)),
            decreases rest@.len(),
        {
            let a = rest.remove(0);
            assert(a == all[done]);
            let v = match PackageVersion::parse(a.filename.version_text()) {
                Some(v) => v,
                None => {
                    assert(!is_valid_version(artifact_version_text(all[done].filename)));
                    return Err(InvalidVersion { text: a.filename.version_text().to_owned() });
                },
            };
            let prerelease = v.any_prerelease();
            let mut k: usize = 0;
            while k < entries.len() && comes_before(&entries[k], &v, prerelease)
                invariant
                    k <= entries@.len(),
                    v.valid(),
                    index_groups_ok(entries@),
                    forall|j: int| 0 <= j < k ==> key_before(pypi_version_text((#[trigger] entries@[j]).0), pypi_version_flag(entries@[j].0), v@, prerelease),
                decreases entries@.len() - k,
            {
                k = k + 1;
            }
            let ghost old_entries = entries@;
            assert(all.take(done + 1) =~= all.take(done).push(a));
            let c: i8 = if k < entries.len() { group_cmp(&entries[k], &v) } else { -1 };
            let same_group = k < entries.len() && c == 0 && group_flag(&entries[k]) == prerelease;
            if same_group {
                let mut e = entries.remove(k);
                assert(old_entries.remove(k as int) == entries@);
                insert_ordered(&mut e.1, a);
                entries.insert(k, e);
                proof {
                    assert(entries@ =~= old_entries.update(k as int, e));
                    lemma_grouped_update(old_entries, k as int, e, a);
                    assert forall|i: int| 0 <= i < entries@.len() implies index_group_ok(#[trigger] entries@[i]) by {
                        if i == k {
                            let oe = old_entries[i];
                            assert forall|j: int| 0 <= j < e.1@.len() implies
                                version_cmp(artifact_version_text((#[trigger] e.1@[j]).filename), pypi_version_text(e.0)) == 0
                                && version_is_prerelease(artifact_version_text(e.1@[j].filename)) == pypi_version_flag(e.0) by {
                                assert(e.1@.to_multiset().count(e.1@[j]) > 0);
                                if e.1@[j] != a {
                                    assert(oe.1@.to_multiset().count(e.1@[j]) > 0);
                                    assert(oe.1@.contains(e.1@[j]));
                                }
                            }
                        }
                    }
                    assert forall|i: int, j: int| 0 <= i < j < entries@.len() implies #[trigger] group_before(entries@[i].0, entries@[j].0) by {
                        assert(entries@[i].0 == old_entries[i].0);
                        assert(entries@[j].0 == old_entries[j].0);
                        assert(group_before(old_entries[i].0, old_entries[j].0));
                    }
                }
            } else {
                // a version compares equal to itself
                let same = v.compare(&v);
                let mut list: Vec<ArtifactInfo> = Vec::new();
                list.push(a);
                let ghost vt = v@;
                let e = (PypiVersion::Version { version: v, package_allows_prerelease: prerelease }, list);
                proof {
                    assert(same == 0);
                    assert(list@ =~= Seq::<ArtifactInfo>::empty().push(a));
                    vstd::multiset::lemma_multiset_empty_len(Seq::<ArtifactInfo>::empty().to_multiset());
                    assert(list@.to_multiset() =~= Multiset::<ArtifactInfo>::empty().insert(a));
                    assert(index_group_ok(e));
                    if k < old_entries.len() {
                        let ok = old_entries[k as int];
                        assert(!key_before(pypi_version_text(ok.0), pypi_version_flag(ok.0), vt, prerelease));
                        assert(key_before(vt, prerelease, pypi_version_text(ok.0), pypi_version_flag(ok.0)));
                        assert forall|j: int| k < j < old_entries.len() implies
                            key_before(vt, prerelease, pypi_version_text((#[trigger] old_entries[j]).0), pypi_version_flag(old_entries[j].0)) by {
                            assert(group_before(ok.0, old_entries[j].0));
                            assert(index_group_ok(old_entries[j]));
                            let tj = pypi_version_text(old_entries[j].0);
                            assert(is_valid_version(tj));
                            assert(version_cmp(vt, tj) == 1);
                        }
                    }
                }
                entries.insert(k, e);
                proof {
                    lemma_grouped_insert(old_entries, k as int, e, a);
                    assert(entries@ == old_entries.insert(k as int, e));
                    assert forall|i: int| 0 <= i < entries@.len() implies index_group_ok(#[trigger] entries@[i]) by {
                        if i < k {
                            assert(entries@[i] == old_entries[i]);
                        } else if i > k {
                            assert(entries@[i] == old_entries[i - 1]);
                        }
                    }
                    assert forall|i: int, j: int| 0 <= i < j < entries@.len() implies #[trigger] group_before(entries@[i].0, entries@[j].0) by {
                        if j < k {
                            assert(entries@[i] == old_entries[i] && entries@[j] == old_entries[j]);
                            assert(group_before(old_entries[i].0, old_entries[j].0));
                        } else if j == k {
                            assert(entries@[i] == old_entries[i]);
                        } else if i == k {
                            assert(entries@[j] == old_entries[j - 1]);
                        } else if i < k {
                            assert(entries@[i] == old_entries[i] && entries@[j] == old_entries[j - 1]);
                            assert(group_before(old_entries[i].0, old_entries[j - 1].0));
                        } else {
                            assert(entries@[i] == old_entries[i - 1] && entries@[j] == old_entries[j - 1]);
                            assert(group_before(old_entries[i - 1].0, old_entries[j - 1].0));
                        }
                    }
                }
            }
            proof {
                done = done + 1;
                assert(rest@ =~= all.skip(done));
            }
        }
        assert(all.take(done) =~= all);
        Ok(VersionArtifacts { entries })
    }
}

} // verus!
