use rattler_installs_packages::artifact::{
    parse_hash, verify_artifact_bytes, ArtifactHashes, ArtifactInfo, ArtifactName, DistInfoMetadata,
    SDistFilename, SDistFormat, Yanked,
};
use rattler_installs_packages::artifact_cache::ArtifactCache;
use rattler_installs_packages::name::NormalizedPackageName;
use rattler_installs_packages::version::{PackageVersion, PypiVersion};
use rattler_installs_packages::version_artifacts::{InvalidVersion, VersionArtifacts};
use rattler_installs_packages::wheel_name::WheelFilename;

const ABC_SHA256: &str = "ba7816bf8f01cfea414140de5dae2223b00361a396177a9cb410ff61f20015ad";

fn hex(bytes: &[u8]) -> String {
    bytes.iter().map(|b| format!("{:02x}", b)).collect()
}

fn info(name: ArtifactName, sha256: Option<Vec<u8>>) -> ArtifactInfo {
    ArtifactInfo {
        filename: name,
        url: "https://example.org/files/x".to_string(),
        hashes: Some(ArtifactHashes { sha256 }),
        requires_python: None,
        dist_info_metadata: DistInfoMetadata { available: false, hashes: ArtifactHashes { sha256: None } },
        yanked: Yanked { yanked: false, reason: None },
    }
}

fn wheel(s: &str) -> ArtifactInfo {
    info(ArtifactName::Wheel(WheelFilename::parse(s).unwrap()), None)
}

fn sdist(dist: &str, version: &str) -> ArtifactInfo {
    info(
        ArtifactName::SDist(SDistFilename {
            distribution: dist.to_string(),
            version: version.to_string(),
            format: SDistFormat::TarGz,
        }),
        None,
    )
}

fn version_of(v: &PypiVersion) -> String {
    match v {
        PypiVersion::Version { version, .. } => version.as_str().to_string(),
        PypiVersion::Url(u) => u.clone(),
    }
}

#[test]
fn versions_compare_by_release_rules() {
    let a = PackageVersion::parse("1.10").unwrap();
    let b = PackageVersion::parse("1.9").unwrap();
    assert_eq!(a.compare(&b), 1);
    assert_eq!(b.compare(&a), -1);
    let c = PackageVersion::parse("1.0").unwrap();
    let d = PackageVersion::parse("1.0.0").unwrap();
    assert_eq!(c.compare(&d), 0);
    assert!(PackageVersion::parse("2.0rc1").unwrap().any_prerelease());
    assert!(!c.any_prerelease());
    assert!(PackageVersion::parse("not a version").is_none());
}

#[test]
fn index_files_grouped_newest_first() {
    let files = vec![
        sdist("foo", "1.0"),
        wheel("foo-1.9-py3-none-any.whl"),
        wheel("foo-1.0-py3-none-any.whl"),
        sdist("foo", "2.0rc1"),
        wheel("foo-1.10-py3-none-any.whl"),
        wheel("foo-1.0.0-cp311-cp311-any.whl"),
    ];
    let va = VersionArtifacts::from_index_files(files).unwrap();
    let keys: Vec<String> = va.entries.iter().map(|(v, _)| version_of(v)).collect();
    assert_eq!(keys, vec!["2.0rc1", "1.10", "1.9", "1.0"]);
    match &va.entries[0].0 {
        PypiVersion::Version { package_allows_prerelease, .. } => assert!(*package_allows_prerelease),
        PypiVersion::Url(_) => panic!("index versions are keyed by version"),
    }
    let oldest: Vec<String> = va.entries[3].1.iter().map(|a| a.filename.to_string()).collect();
    assert_eq!(
        oldest,
        vec!["foo-1.0.0-cp311-cp311-any.whl", "foo-1.0-py3-none-any.whl", "foo-1.0.tar.gz"]
    );
    let total: usize = va.entries.iter().map(|(_, l)| l.len()).sum();
    assert_eq!(total, 6);
}

#[test]
fn index_files_empty_gives_empty_result() {
    let va = VersionArtifacts::from_index_files(vec![]).unwrap();
    assert!(va.entries.is_empty());
}

#[test]
fn index_files_with_invalid_version_fail() {
    let r = VersionArtifacts::from_index_files(vec![sdist("foo", "1.0"), sdist("foo", "banana!")]);
    assert_eq!(r.unwrap_err(), InvalidVersion { text: "banana!".to_string() });
}

#[test]
fn cache_keeps_first_result() {
    let mut cache = ArtifactCache::new();
    let name = NormalizedPackageName::from_name("Foo");
    assert!(cache.get(&name).is_none());
    let first = VersionArtifacts::from_index_files(vec![sdist("foo", "1.0")]).unwrap();
    let stored_len = cache.insert(&name, first).entries.len();
    assert_eq!(stored_len, 1);
    let second = VersionArtifacts::from_index_files(vec![]).unwrap();
    let again = cache.insert(&NormalizedPackageName::from_name("foo"), second);
    assert_eq!(again.entries.len(), 1);
    assert_eq!(cache.get(&name).unwrap().entries.len(), 1);
}

#[test]
fn fragment_hash_parses() {
    let h = parse_hash(&format!("sha256={}", ABC_SHA256)).unwrap();
    assert_eq!(hex(&h.sha256.unwrap()), ABC_SHA256);
    assert!(parse_hash("md5=abcd").is_none());
    assert!(parse_hash("sha256=zz").is_none());
}

#[test]
fn retrieved_bytes_checked_against_sha256() {
    let h = parse_hash(&format!("sha256={}", ABC_SHA256)).unwrap();
    let ai = info(ArtifactName::SDist(SDistFilename {
        distribution: "foo".to_string(),
        version: "1.0".to_string(),
        format: SDistFormat::Zip,
    }), h.sha256);
    assert!(verify_artifact_bytes(&ai, b"abc").is_ok());
    let err = verify_artifact_bytes(&ai, b"abd").unwrap_err();
    assert_eq!(hex(&err.expected), ABC_SHA256);
    assert_ne!(hex(&err.actual), ABC_SHA256);
    let unhashed = sdist("foo", "1.0");
    assert!(verify_artifact_bytes(&unhashed, b"anything").is_ok());
}

#[test]
fn wheels_without_build_tag_come_first() {
    let va = VersionArtifacts::from_index_files(vec![
        wheel("foo-1.0-1-py3-none-any.whl"),
        wheel("foo-1.0-py3-none-any.whl"),
    ])
    .unwrap();
    let names: Vec<String> = va.entries[0].1.iter().map(|a| a.filename.to_string()).collect();
    assert_eq!(names, vec!["foo-1.0-py3-none-any.whl", "foo-1.0-1-py3-none-any.whl"]);
}

#[test]
fn equal_versions_with_different_prerelease_status_are_kept_apart() {
    let va = VersionArtifacts::from_index_files(vec![
        sdist("foo", "1.0.post1"),
        sdist("foo", "1.0.post1.dev18446744073709551615"),
    ])
    .unwrap();
    assert_eq!(va.entries.len(), 2);
    let flags: Vec<bool> = va
        .entries
        .iter()
        .map(|(v, _)| match v {
            PypiVersion::Version { package_allows_prerelease, .. } => *package_allows_prerelease,
            PypiVersion::Url(_) => panic!("index versions are keyed by version"),
        })
        .collect();
    assert_eq!(flags, vec![true, false]);
}

#[test]
fn same_files_same_result() {
    let make = || {
        vec![
            sdist("foo", "2.0"),
            wheel("foo-2.0-cp311-cp311-any.whl"),
            wheel("foo-1.0-py3-none-any.whl"),
            wheel("foo-2.0-py3-none-any.whl"),
        ]
    };
    let a = VersionArtifacts::from_index_files(make()).unwrap();
    let b = VersionArtifacts::from_index_files(make()).unwrap();
    let show = |va: &VersionArtifacts| -> Vec<(String, Vec<String>)> {
        va.entries
            .iter()
            .map(|(v, l)| (version_of(v), l.iter().map(|x| x.filename.to_string()).collect()))
            .collect()
    };
    assert_eq!(show(&a), show(&b));
    assert_eq!(
        show(&a)[0].1,
        vec!["foo-2.0-cp311-cp311-any.whl", "foo-2.0-py3-none-any.whl", "foo-2.0.tar.gz"]
    );
}
