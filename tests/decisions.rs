use rattler_installs_packages::http_cache::{max_age, stored_response};
use rattler_installs_packages::artifact::{
    ArtifactHashes, ArtifactInfo, ArtifactName, DistInfoMetadata, SDistFilename, SDistFormat, Yanked,
};
use rattler_installs_packages::direct_url::{
    classify_scheme, file_route, https_route, parse_git_url, ArtifactRoute, DirectUrlKind, ParsedGitUrl,
};
use rattler_installs_packages::http_cache::{
    cache_action, serve_stored_after_revalidation, CacheAction, CacheMode, NotCached, StoredResponse,
};
use rattler_installs_packages::index::{
    direct_download_artifacts, direct_file_artifacts, direct_git_artifacts, package_names_index,
    read_simple_api_response, SimpleApiError, SimpleApiPage,
};
use rattler_installs_packages::version::PypiVersion;

const ABC_SHA256: &str = "ba7816bf8f01cfea414140de5dae2223b00361a396177a9cb410ff61f20015ad";

fn hex(bytes: &[u8]) -> String {
    bytes.iter().map(|b| format!("{:02x}", b)).collect()
}

fn sdist_name() -> ArtifactName {
    ArtifactName::SDist(SDistFilename {
        distribution: "foo".to_string(),
        version: "1.0".to_string(),
        format: SDistFormat::TarGz,
    })
}

fn only_info(va: &rattler_installs_packages::version_artifacts::VersionArtifacts) -> &ArtifactInfo {
    assert_eq!(va.entries.len(), 1);
    assert_eq!(va.entries[0].1.len(), 1);
    &va.entries[0].1[0]
}

#[test]
fn only_if_cached_without_entry_is_not_cached() {
    assert_eq!(cache_action(CacheMode::OnlyIfCached, StoredResponse::Missing), Err(NotCached));
    assert_eq!(cache_action(CacheMode::OnlyIfCached, StoredResponse::Stale), Ok(CacheAction::ServeStored));
    assert_eq!(NotCached.to_string(), "request not in cache, and cache_mode=OnlyIfCached");
}

#[test]
fn cache_modes() {
    assert_eq!(cache_action(CacheMode::Default, StoredResponse::Missing), Ok(CacheAction::Fetch { store: true }));
    assert_eq!(cache_action(CacheMode::Default, StoredResponse::Fresh), Ok(CacheAction::ServeStored));
    assert_eq!(cache_action(CacheMode::Default, StoredResponse::Stale), Ok(CacheAction::Revalidate));
    assert_eq!(cache_action(CacheMode::NoStore, StoredResponse::Fresh), Ok(CacheAction::Fetch { store: false }));
    assert_eq!(cache_action(CacheMode::NoCache, StoredResponse::Fresh), Ok(CacheAction::Revalidate));
    assert_eq!(cache_action(CacheMode::NoCache, StoredResponse::Missing), Ok(CacheAction::Fetch { store: true }));
    assert!(serve_stored_after_revalidation(304));
    assert!(!serve_stored_after_revalidation(200));
}

#[test]
fn http_scheme_is_unsupported() {
    let e = classify_scheme("http").unwrap_err();
    assert_eq!(e.scheme, "http");
    assert_eq!(e.to_string(), "Usage of insecure protocol or unsupported scheme http");
    assert!(classify_scheme("ftp").is_err());
}

#[test]
fn supported_schemes() {
    assert_eq!(classify_scheme("file"), Ok(DirectUrlKind::File));
    assert_eq!(classify_scheme("https"), Ok(DirectUrlKind::Https));
    assert_eq!(classify_scheme("git+https"), Ok(DirectUrlKind::Git));
    assert_eq!(classify_scheme("git+file"), Ok(DirectUrlKind::Git));
}

#[test]
fn local_and_download_routes() {
    assert_eq!(file_route("/tmp/foo-1.0-py3-none-any.whl", true), ArtifactRoute::Wheel);
    assert_eq!(file_route("/tmp/foo-1.0.tar.gz", true), ArtifactRoute::SDist);
    assert_eq!(file_route("/tmp/foo", false), ArtifactRoute::STree);
    assert_eq!(file_route("/tmp/dir.whl", false), ArtifactRoute::STree);
    assert_eq!(https_route("/files/foo-1.0-py3-none-any.whl"), ArtifactRoute::Wheel);
    assert_eq!(https_route("/files/foo-1.0.zip"), ArtifactRoute::SDist);
}

#[test]
fn git_urls_taken_apart() {
    assert_eq!(
        parse_git_url("git+https://github.com/org/repo.git@v1.2#subdirectory=pkgs/a"),
        Some(ParsedGitUrl {
            git_url: "https://github.com/org/repo.git".to_string(),
            revision: Some("v1.2".to_string()),
            subdirectory: Some("pkgs/a".to_string()),
        })
    );
    assert_eq!(
        parse_git_url("git+file:///tmp/repo"),
        Some(ParsedGitUrl { git_url: "file:///tmp/repo".to_string(), revision: None, subdirectory: None })
    );
    assert_eq!(
        parse_git_url("git+https://user@host.org/repo"),
        Some(ParsedGitUrl { git_url: "https://user@host.org/repo".to_string(), revision: None, subdirectory: None })
    );
    assert_eq!(parse_git_url("https://github.com/org/repo.git"), None);
}

#[test]
fn simple_api_responses() {
    assert_eq!(read_simple_api_response(404, Some("application/json")), Ok(SimpleApiPage::NotFound));
    assert_eq!(read_simple_api_response(200, None), Ok(SimpleApiPage::Html));
    assert_eq!(read_simple_api_response(200, Some("text/html; charset=utf-8")), Ok(SimpleApiPage::Html));
    assert_eq!(
        read_simple_api_response(200, Some("application/vnd.pypi.simple.v1+json")),
        Err(SimpleApiError::UnsupportedContentType("application/vnd.pypi.simple.v1+json".to_string()))
    );
    assert_eq!(
        read_simple_api_response(200, Some("not a mime")),
        Err(SimpleApiError::InvalidContentType("not a mime".to_string()))
    );
}

#[test]
fn no_index_urls_means_no_package_names() {
    assert_eq!(package_names_index(&vec![]), None);
    let urls = vec!["https://pypi.org/simple/".to_string(), "https://other/simple/".to_string()];
    assert_eq!(package_names_index(&urls), Some(&urls[0]));
}

#[test]
fn direct_file_keyed_by_url_and_metadata_digest() {
    let url = "file:///tmp/foo-1.0.tar.gz";
    let va = direct_file_artifacts(url, sdist_name(), b"abc", Some(">=3.8".to_string()));
    match &va.entries[0].0 {
        PypiVersion::Url(u) => assert_eq!(u, url),
        PypiVersion::Version { .. } => panic!("direct references are keyed by URL"),
    }
    let ai = only_info(&va);
    assert_eq!(ai.url, url);
    assert_eq!(hex(ai.hashes.as_ref().unwrap().sha256.as_ref().unwrap()), ABC_SHA256);
    assert_eq!(ai.requires_python.as_deref(), Some(">=3.8"));
    assert!(!ai.dist_info_metadata.available);
    assert!(!ai.yanked.yanked);
}

#[test]
fn direct_download_checks_fragment_hash() {
    let url = "https://example.org/foo-1.0.tar.gz";
    let good = format!("sha256={}", ABC_SHA256);
    let va = direct_download_artifacts(url, Some(&good), b"abc", sdist_name(), None).unwrap();
    assert_eq!(hex(only_info(&va).hashes.as_ref().unwrap().sha256.as_ref().unwrap()), ABC_SHA256);
    let err = direct_download_artifacts(url, Some(&good), b"abd", sdist_name(), None).unwrap_err();
    assert_eq!(hex(&err.expected), ABC_SHA256);
    assert!(direct_download_artifacts(url, None, b"abd", sdist_name(), None).is_ok());
}

#[test]
fn git_artifact_digest_is_of_url() {
    let va = direct_git_artifacts("abc", sdist_name(), None);
    assert_eq!(hex(only_info(&va).hashes.as_ref().unwrap().sha256.as_ref().unwrap()), ABC_SHA256);
}

#[test]
fn unused_fields_compile() {
    let _ = ArtifactInfo {
        filename: sdist_name(),
        url: String::new(),
        hashes: None,
        requires_python: None,
        dist_info_metadata: DistInfoMetadata { available: true, hashes: ArtifactHashes { sha256: None } },
        yanked: Yanked { yanked: true, reason: Some("broken".to_string()) },
    };
}

#[test]
fn max_age_directives() {
    assert_eq!(max_age("max-age=0"), Some(0));
    assert_eq!(max_age("public, max-age=600"), Some(600));
    assert_eq!(max_age("no-cache"), None);
    assert_eq!(max_age("max-age=abc, max-age=5"), Some(5));
    assert_eq!(max_age("max-age=99999999999999999999999"), None);
    assert_eq!(max_age("max-age="), None);
}

#[test]
fn stored_response_freshness() {
    assert_eq!(stored_response(false, 0, Some(10)), StoredResponse::Missing);
    assert_eq!(stored_response(true, 5, Some(10)), StoredResponse::Fresh);
    assert_eq!(stored_response(true, 10, Some(10)), StoredResponse::Stale);
    assert_eq!(stored_response(true, 0, None), StoredResponse::Stale);
}
