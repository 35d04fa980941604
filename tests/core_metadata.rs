use rattler_installs_packages::artifact::{ArtifactName, SDistFormat};
use rattler_installs_packages::metadata::{sdist_name_from_metadata, stree_name_from_metadata};
use rattler_installs_packages::metadata::{CoreMetadata, MetadataError};
use rattler_installs_packages::name::NormalizedPackageName;

const RICH: &str = "Metadata-Version: 2.1\r\nName: rich\r\nVersion: 13.6.0\r\nSummary: Render rich text\r\nRequires-Python: >=3.7.0\r\nDescription: first line\r\n        continued: here\r\nProvides-Extra: jupyter\r\nRequires-Dist: markdown-it-py (>=2.2.0)\r\nRequires-Dist: pygments (>=2.13.0,<3.0.0)\r\nRequires-Dist: ipywidgets (>=7.5.1,<9) ; extra == \"jupyter\"\r\n\r\nName: not-a-header\n";

#[test]
fn parses_header_block() {
    let m = CoreMetadata::parse(RICH).unwrap();
    assert_eq!(m.metadata_version, "2.1");
    assert_eq!(m.name, "rich");
    assert_eq!(m.version, "13.6.0");
    assert_eq!(m.summary.as_deref(), Some("Render rich text"));
    assert_eq!(m.requires_python.as_deref(), Some(">=3.7.0"));
    assert_eq!(m.provides_extras, vec!["jupyter".to_string()]);
    assert_eq!(
        m.requires_dist,
        vec![
            "markdown-it-py (>=2.2.0)".to_string(),
            "pygments (>=2.13.0,<3.0.0)".to_string(),
            "ipywidgets (>=7.5.1,<9) ; extra == \"jupyter\"".to_string(),
        ]
    );
}

#[test]
fn metadata_name_matches_requested_package() {
    let m = CoreMetadata::parse("Metadata-Version: 2.1\nName: Scikit_Learn\nVersion: 1.3.0\n").unwrap();
    assert!(m.names_package(&NormalizedPackageName::from_name("scikit-learn")));
    assert!(!m.names_package(&NormalizedPackageName::from_name("numpy")));
}

#[test]
fn missing_required_fields() {
    assert_eq!(
        CoreMetadata::parse("Metadata-Version: 2.1\nVersion: 1.0\n"),
        Err(MetadataError::MissingField("Name".to_string()))
    );
    assert_eq!(
        CoreMetadata::parse("Name: x\nVersion: 1.0\n"),
        Err(MetadataError::MissingField("Metadata-Version".to_string()))
    );
    assert_eq!(
        CoreMetadata::parse("Metadata-Version: 2.1\n\nName: x\nVersion: 1.0\n"),
        Err(MetadataError::MissingField("Name".to_string()))
    );
}

#[test]
fn malformed_header_line() {
    assert_eq!(
        CoreMetadata::parse("Metadata-Version: 2.1\nthis line has no colon\n"),
        Err(MetadataError::MalformedHeader("this line has no colon".to_string()))
    );
}

#[test]
fn direct_reference_names_from_metadata() {
    let m = CoreMetadata::parse("Metadata-Version: 2.1\nName: foo\nVersion: 1.0\n").unwrap();
    let s = sdist_name_from_metadata(&m, SDistFormat::TarGz);
    assert_eq!(s.to_string(), "foo-1.0.tar.gz");
    match stree_name_from_metadata(&m, "git+https://example.org/foo.git") {
        ArtifactName::STree(t) => {
            assert_eq!(t.distribution, "foo");
            assert_eq!(t.version, "1.0");
            assert_eq!(t.url, "git+https://example.org/foo.git");
        }
        _ => panic!("a source tree is named as one"),
    }
}
