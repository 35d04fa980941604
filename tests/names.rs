use rattler_installs_packages::artifact::{ArtifactName, SDistFilename, SDistFormat};
use rattler_installs_packages::name::{normalize, NormalizedPackageName};
use rattler_installs_packages::wheel_name::{ParseArtifactNameError, WheelFilename};

#[test]
fn normalize_lowercases_and_collapses_separators() {
    assert_eq!(normalize("Foo__Bar.-baz"), "foo-bar-baz");
    assert_eq!(normalize("scikit_learn"), "scikit-learn");
    assert_eq!(normalize("Django"), "django");
    assert_eq!(normalize(""), "");
    assert_eq!(normalize("a..b"), "a-b");
}

#[test]
fn normalize_is_idempotent_on_examples() {
    for name in ["Foo__Bar.-baz", "ZOPE.interface", "-_x_-", "already-normal"] {
        let once = normalize(name);
        assert_eq!(normalize(&once), once);
    }
}

#[test]
fn normalized_package_name_holds_normal_form() {
    let n = NormalizedPackageName::from_name("Scikit_Learn");
    assert_eq!(n.as_str(), "scikit-learn");
}

#[test]
fn wheel_filename_round_trip() {
    for s in [
        "rich-13.6.0-py3-none-any.whl",
        "numpy-1.26.0-cp311-cp311-manylinux_2_17_x86_64.manylinux2014_x86_64.whl",
        "pkg-1.0-1abc-py2.py3-none-any.whl",
    ] {
        let w = WheelFilename::parse(s).unwrap();
        assert_eq!(w.to_string(), s);
    }
}

#[test]
fn wheel_filename_parts() {
    let w = WheelFilename::parse("pkg-1.0-1abc-py2.py3-none-any.whl").unwrap();
    assert_eq!(w.distribution, "pkg");
    assert_eq!(w.version, "1.0");
    assert_eq!(w.build_tag.as_deref(), Some("1abc"));
    assert_eq!(w.py_tags, vec!["py2".to_string(), "py3".to_string()]);
    assert_eq!(w.abi_tags, vec!["none".to_string()]);
    assert_eq!(w.arch_tags, vec!["any".to_string()]);
    let plain = WheelFilename::parse("rich-13.6.0-py3-none-any.whl").unwrap();
    assert_eq!(plain.build_tag, None);
}

#[test]
fn wheel_filename_errors() {
    assert_eq!(WheelFilename::parse("rich-13.6.0.tar.gz"), Err(ParseArtifactNameError::InvalidExtension));
    assert_eq!(WheelFilename::parse("rich-13.6.0-py3.whl"), Err(ParseArtifactNameError::InvalidComponentCount));
    assert_eq!(WheelFilename::parse("rich--py3-none-any.whl"), Err(ParseArtifactNameError::EmptyComponent));
    assert_eq!(WheelFilename::parse("rich-1.0-x1-py3-none-any.whl"), Err(ParseArtifactNameError::InvalidBuildTag));
}

#[test]
fn wheel_filename_checks_package() {
    let rich = NormalizedPackageName::from_name("rich");
    assert!(WheelFilename::from_filename("rich-13.6.0-py3-none-any.whl", &rich).is_ok());
    let other = NormalizedPackageName::from_name("Zope.Interface");
    assert!(WheelFilename::from_filename("zope_interface-6.0-py3-none-any.whl", &other).is_ok());
    assert_eq!(
        WheelFilename::from_filename("numpy-1.0-py3-none-any.whl", &rich),
        Err(ParseArtifactNameError::PackageNameMismatch)
    );
}

#[test]
fn sdist_formats() {
    assert_eq!(SDistFormat::get_extension("/tmp/foo-1.0.tar.gz"), Ok(SDistFormat::TarGz));
    assert_eq!(SDistFormat::get_extension("foo-1.0.zip"), Ok(SDistFormat::Zip));
    assert_eq!(SDistFormat::get_extension("foo-1.0.tar.bz2"), Ok(SDistFormat::TarBz2));
    assert_eq!(SDistFormat::get_extension("foo-1.0.tar.xz"), Ok(SDistFormat::TarXz));
    assert_eq!(SDistFormat::get_extension("foo-1.0.rar"), Err(ParseArtifactNameError::InvalidExtension));
}

#[test]
fn sdist_name_text() {
    let n = ArtifactName::SDist(SDistFilename {
        distribution: "foo".to_string(),
        version: "1.0".to_string(),
        format: SDistFormat::TarGz,
    });
    assert_eq!(n.to_string(), "foo-1.0.tar.gz");
    assert_eq!(n.version_text(), "1.0");
    assert!(n.is_sdist());
    assert!(!n.is_wheel());
}
