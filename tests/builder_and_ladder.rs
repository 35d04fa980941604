use pep508_rs::Requirement;
use pyproject_toml::BuildSystem;
use rattler_installs_packages::artifact::{
    ArtifactHashes, ArtifactInfo, ArtifactName, DistInfoMetadata, SDistFilename, SDistFormat, Yanked,
};
use rattler_installs_packages::ladder::{
    after_wheel_step, cached_read_action, check_sidecar, combine_sdist_errors, first_wheel_step,
    metadata_cache_key, metadata_write_needed, next_rung, sdist_error_message, sdist_positions, sidecar_path,
    wheel_positions, wheel_source, CachedRead, LadderAction, NoWheelBuilder, Rung, StepResult, WheelNext,
    WheelSource, WheelStep,
};
use rattler_installs_packages::name::NormalizedPackageName;
use rattler_installs_packages::resolve::{
    pin_solution, root_requirements, PythonLocation, ResolveOptions, SDistResolution, SolvedPackage,
};
use rattler_installs_packages::version::{PackageVersion, PypiVersion};
use rattler_installs_packages::wheel_builder::{
    SourceKind, WheelKey, BuildEnvironments, BuildStage, build_requirements, build_resolve_options, built_wheel_filename, metadata_hook_outcome, wheel_hook_outcome,
    MetadataHookOutcome, WheelBuildError,
};
use rattler_installs_packages::wheel_name::{ParseArtifactNameError, WheelFilename};
use std::str::FromStr;

fn artifact(name: ArtifactName, sha256: Option<Vec<u8>>) -> ArtifactInfo {
    ArtifactInfo {
        filename: name,
        url: "https://example.org/x".to_string(),
        hashes: sha256.map(|d| ArtifactHashes { sha256: Some(d) }),
        requires_python: None,
        dist_info_metadata: DistInfoMetadata { available: false, hashes: ArtifactHashes { sha256: None } },
        yanked: Yanked { yanked: false, reason: None },
    }
}

fn sdist() -> ArtifactName {
    ArtifactName::SDist(SDistFilename {
        distribution: "rich".to_string(),
        version: "13.6.0".to_string(),
        format: SDistFormat::TarGz,
    })
}

fn wheel() -> ArtifactName {
    ArtifactName::Wheel(WheelFilename::parse("rich-13.6.0-py3-none-any.whl").unwrap())
}

fn solved(name: &str, extra: Option<&str>, version: &str) -> SolvedPackage {
    SolvedPackage {
        name: NormalizedPackageName::from_name(name),
        extra: extra.map(|e| e.to_string()),
        version: PypiVersion::Version {
            version: PackageVersion::parse(version).unwrap(),
            package_allows_prerelease: false,
        },
        artifacts: vec![],
    }
}

#[test]
fn sdist_resolution_flags() {
    assert!(SDistResolution::Normal.allow_sdists());
    assert!(!SDistResolution::OnlyWheels.allow_sdists());
    assert!(SDistResolution::OnlyWheels.allow_wheels());
    assert!(!SDistResolution::OnlySDists.allow_wheels());
    assert!(SDistResolution::OnlySDists.allow_sdists());
    assert_eq!(SDistResolution::default(), SDistResolution::Normal);
}

#[test]
fn builder_never_requires_sources() {
    let options = ResolveOptions {
        sdist_resolution: SDistResolution::OnlySDists,
        python_location: PythonLocation::Custom("/usr/bin/python3".to_string()),
        clean_env: true,
    };
    let b = build_resolve_options(&options);
    assert_eq!(b.sdist_resolution, SDistResolution::PreferWheels);
    assert_eq!(b.python_location, PythonLocation::Custom("/usr/bin/python3".to_string()));
    assert!(b.clean_env);
    let d = build_resolve_options(&ResolveOptions::default());
    assert_eq!(d.sdist_resolution, SDistResolution::PreferWheels);
    for mode in [
        SDistResolution::Normal,
        SDistResolution::PreferSDists,
        SDistResolution::OnlyWheels,
        SDistResolution::PreferWheels,
    ] {
        let o = ResolveOptions { sdist_resolution: mode, python_location: PythonLocation::System, clean_env: false };
        assert_eq!(build_resolve_options(&o).sdist_resolution, SDistResolution::PreferWheels);
    }
    assert_eq!(d.python_location, PythonLocation::System);
}

#[test]
fn default_build_requirements() {
    let none = BuildSystem { requires: vec![], build_backend: None, backend_path: None };
    let r = build_requirements(none);
    let names: Vec<&str> = r.iter().map(|x| x.name.as_str()).collect();
    assert_eq!(names, vec!["setuptools", "wheel"]);
    assert!(r.iter().all(|x| x.extras.is_none() && x.version_or_url.is_none() && x.marker.is_none()));
    let declared = vec![Requirement::from_str("hatchling>=1.0").unwrap()];
    let system = BuildSystem {
        requires: declared.clone(),
        build_backend: Some("hatchling.build".to_string()),
        backend_path: None,
    };
    assert_eq!(build_requirements(system), declared);
}

#[test]
fn hook_exit_codes() {
    assert_eq!(metadata_hook_outcome(true, Some(0), ""), MetadataHookOutcome::ReadMetadata);
    assert_eq!(metadata_hook_outcome(false, Some(50), "no hook"), MetadataHookOutcome::BuildWheel);
    assert_eq!(
        metadata_hook_outcome(false, Some(1), "boom"),
        MetadataHookOutcome::Failed(WheelBuildError::Error("boom".to_string()))
    );
    assert_eq!(
        metadata_hook_outcome(false, None, "killed"),
        MetadataHookOutcome::Failed(WheelBuildError::Error("killed".to_string()))
    );
    assert_eq!(wheel_hook_outcome(true, ""), Ok(()));
    assert_eq!(wheel_hook_outcome(false, "err"), Err(WheelBuildError::Error("err".to_string())));
}

#[test]
fn built_wheel_name_parses_against_package() {
    let rich = NormalizedPackageName::from_name("rich");
    let w = built_wheel_filename("  /tmp/build/dist/rich-13.6.0-py3-none-any.whl\n", &rich).unwrap();
    assert_eq!(w.to_string(), "rich-13.6.0-py3-none-any.whl");
    assert_eq!(
        built_wheel_filename("/tmp/numpy-1.0-py3-none-any.whl", &rich),
        Err(WheelBuildError::ArtifactError(ParseArtifactNameError::PackageNameMismatch))
    );
    assert!(matches!(built_wheel_filename("/tmp/dist/", &rich), Err(WheelBuildError::Error(_))));
    assert_eq!(
        built_wheel_filename("rich.tar.gz", &rich),
        Err(WheelBuildError::ArtifactError(ParseArtifactNameError::InvalidExtension))
    );
}

#[test]
fn pinning_merges_extras() {
    let pins = pin_solution(vec![
        solved("Rich", None, "13.6.0"),
        solved("rich", Some("jupyter"), "13.6.0"),
        solved("pygments", None, "2.16.1"),
        solved("rich", Some("jupyter"), "13.6.0"),
    ]);
    assert_eq!(pins.len(), 2);
    assert_eq!(pins[0].name.as_str(), "rich");
    assert_eq!(pins[0].extras, vec!["jupyter".to_string()]);
    assert_eq!(pins[1].name.as_str(), "pygments");
    assert!(pins[1].extras.is_empty());
}

#[test]
fn ladder_order() {
    assert_eq!(next_rung(Rung::MetadataCache, false), Some(Rung::CachedArtifacts));
    assert_eq!(next_rung(Rung::CachedArtifacts, false), Some(Rung::Wheels));
    assert_eq!(next_rung(Rung::Wheels, false), None);
    assert_eq!(next_rung(Rung::Wheels, true), Some(Rung::BuildSources));
    assert_eq!(next_rung(Rung::BuildSources, true), None);
}

#[test]
fn cached_reads() {
    assert_eq!(cached_read_action(CachedRead::NotCached), LadderAction::Next);
    assert_eq!(cached_read_action(CachedRead::Failed), LadderAction::Fail);
    assert_eq!(cached_read_action(CachedRead::Wheel { parsed: true }), LadderAction::StoreAndReturn);
    assert_eq!(cached_read_action(CachedRead::Wheel { parsed: false }), LadderAction::Next);
    assert_eq!(cached_read_action(CachedRead::SDist { pep643: true }), LadderAction::StoreAndNext);
    assert_eq!(cached_read_action(CachedRead::SDist { pep643: false }), LadderAction::Next);
}

#[test]
fn wheel_steps() {
    assert_eq!(first_wheel_step(true), WheelStep::Sidecar);
    assert_eq!(first_wheel_step(false), WheelStep::SparseRead);
    assert_eq!(after_wheel_step(WheelStep::Sidecar, StepResult::Read), WheelNext::StoreAndReturn);
    assert_eq!(after_wheel_step(WheelStep::SparseRead, StepResult::Unavailable), WheelNext::Then(WheelStep::Download));
    assert_eq!(after_wheel_step(WheelStep::Download, StepResult::Unavailable), WheelNext::NextWheel);
    assert_eq!(after_wheel_step(WheelStep::Download, StepResult::Failed), WheelNext::Fail);
}

#[test]
fn sidecar_location() {
    assert_eq!(
        sidecar_path("/packages/rich-13.6.0-py3-none-any.whl").as_deref(),
        Some("/packages/rich-13.6.0-py3-none-any.whl.metadata")
    );
    assert_eq!(sidecar_path("/packages/rich-13.6.0.tar.gz"), None);
}

#[test]
fn sidecar_digest_checked() {
    let mut ai = artifact(wheel(), None);
    assert!(check_sidecar(&ai, b"abc").is_ok());
    let digest = rattler_digest::compute_bytes_digest::<rattler_digest::Sha256>(b"abc").to_vec();
    ai.dist_info_metadata = DistInfoMetadata { available: true, hashes: ArtifactHashes { sha256: Some(digest) } };
    assert!(check_sidecar(&ai, b"abc").is_ok());
    assert!(check_sidecar(&ai, b"abd").is_err());
}

#[test]
fn metadata_cache_writes_once() {
    let keyed = artifact(wheel(), Some(vec![1, 2, 3]));
    assert_eq!(metadata_cache_key(&keyed), Some(&vec![1, 2, 3]));
    assert!(metadata_write_needed(&keyed, false));
    assert!(!metadata_write_needed(&keyed, true));
    let unkeyed = artifact(wheel(), None);
    assert_eq!(metadata_cache_key(&unkeyed), None);
    assert!(!metadata_write_needed(&unkeyed, false));
}

#[test]
fn artifact_positions_by_kind() {
    let list = vec![artifact(wheel(), None), artifact(sdist(), None), artifact(wheel(), None)];
    assert_eq!(wheel_positions(&list), vec![0, 2]);
    assert_eq!(sdist_positions(&list), vec![1]);
}

#[test]
fn sdist_errors_combined() {
    assert_eq!(combine_sdist_errors(&vec![]), None);
    let a = sdist_error_message("a-1.0.tar.gz", "boom");
    assert_eq!(a, "error while processing source distribution 'a-1.0.tar.gz': \n boom");
    let b = sdist_error_message("b-1.0.tar.gz", "bang");
    assert_eq!(combine_sdist_errors(&vec![a.clone(), b.clone()]), Some(format!("{}\n{}", a, b)));
}

#[test]
fn wheels_for_artifacts() {
    assert_eq!(wheel_source(&artifact(sdist(), None), true), Ok(WheelSource::Build));
    assert_eq!(wheel_source(&artifact(sdist(), None), false), Err(NoWheelBuilder));
    assert_eq!(wheel_source(&artifact(wheel(), None), false), Ok(WheelSource::Download));
}

#[test]
fn build_environments_set_up_once_per_source() {
    let mut envs = BuildEnvironments::new();
    assert_eq!(envs.prepare("rich-13.6.0.tar.gz"), (0, true));
    assert_eq!(envs.prepare("numpy-1.26.0.tar.gz"), (1, true));
    assert_eq!(envs.prepare("rich-13.6.0.tar.gz"), (0, false));
    assert_eq!(envs.stage(0), BuildStage::Prepared);
    envs.record(0, BuildStage::MetadataExtracted);
    assert_eq!(envs.stage(0), BuildStage::MetadataExtracted);
    envs.record(0, BuildStage::Built);
    envs.record(0, BuildStage::MetadataExtracted);
    assert_eq!(envs.stage(0), BuildStage::Built);
    assert_eq!(envs.stage(1), BuildStage::Prepared);
}

#[test]
fn root_requirements_per_extra() {
    let reqs = vec![
        Requirement::from_str("Rich[jupyter]>=13").unwrap(),
        Requirement::from_str("numpy").unwrap(),
    ];
    let roots = root_requirements(&reqs);
    let flat: Vec<(String, Option<String>)> =
        roots.iter().map(|r| (r.name.as_str().to_string(), r.extra.clone())).collect();
    assert_eq!(
        flat,
        vec![
            ("rich".to_string(), None),
            ("rich".to_string(), Some("jupyter".to_string())),
            ("numpy".to_string(), None),
        ]
    );
}

#[test]
fn wheel_keys_from_source_bytes() {
    let k = WheelKey::from_bytes(SourceKind::SDist, b"abc");
    assert_eq!(k.kind, SourceKind::SDist);
    assert_eq!(
        k.directory_name(),
        "sdist-ba7816bf8f01cfea414140de5dae2223b00361a396177a9cb410ff61f20015ad"
    );
    let t = WheelKey::from_bytes(SourceKind::STree, b"abc");
    assert!(t.directory_name().starts_with("stree-ba7816bf"));
    assert_ne!(WheelKey::from_bytes(SourceKind::SDist, b"abd"), k);
}
