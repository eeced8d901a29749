//! Pairing prepared scopes with the scans of their roots. The scans are
//! supplied by the test, so nothing here touches the filesystem.

use std::io;
use std::path::{Path, PathBuf};

use scarab::album_scope::{
    prepare_album_scopes, AlbumScopePreparation, ConfiguredDirectoryScope, DefaultSourceRootScope,
    PreparedAlbumScopes, RedundancyWarning,
};
use scarab::required_discovery::{discover_required_files, scan_roots, RequiredDiscovery};
use scarab::{parse, DiscoveryError, LibraryBuildSpec};

fn discovery_profile(album_declarations: &str) -> LibraryBuildSpec {
    let text = format!("codec = \"opus\"\nbitrate = 128\n{album_declarations}");
    parse(&text).expect("test configuration must parse and validate")
}

fn spelled(path: &Path) -> &str {
    path.to_str().expect("test paths are UTF-8")
}

fn configured(handle: &str, resolved: &str, selectors: &[&str]) -> ConfiguredDirectoryScope {
    ConfiguredDirectoryScope {
        album_handle: handle.to_owned(),
        resolved_directory: PathBuf::from(resolved),
        contributing_selectors: selectors.iter().map(PathBuf::from).collect(),
    }
}

fn default_scope() -> DefaultSourceRootScope {
    DefaultSourceRootScope {
        original_source_root: PathBuf::from("music"),
        resolved_traversal_root: PathBuf::from("/abs/music"),
        dependent_album_handles: vec!["meta".to_owned()],
    }
}

fn two_scopes() -> PreparedAlbumScopes {
    PreparedAlbumScopes {
        configured_directory_scopes: vec![
            configured("tool", "/abs/music/Lateralus", &["Lateralus"]),
            configured("pt", "/abs/music/Deadwing", &["Deadwing"]),
        ],
        default_source_root_scope: Some(default_scope()),
    }
}

#[test]
fn zero_scopes_succeed_without_scanning() {
    let missing_root = Path::new("/nonexistent/scarab/missing-root");
    let spec = discovery_profile("");

    let (scopes, warnings) = match prepare_album_scopes(&spec, missing_root, Vec::new(), None) {
        AlbumScopePreparation::Prepared { scopes, warnings } => (scopes, warnings),
        other => panic!("expected prepared scopes, got {other:?}"),
    };
    assert!(scopes.configured_directory_scopes.is_empty());
    assert!(scopes.default_source_root_scope.is_none());
    assert!(scan_roots(&scopes).is_empty(), "nothing is scanned");

    match discover_required_files(scopes, warnings, Vec::new()) {
        RequiredDiscovery::Completed { coverage, warnings } => {
            assert!(coverage.configured.is_empty());
            assert!(coverage.default_root.is_none());
            assert!(warnings.is_empty());
        }
        other => panic!("expected completed discovery, got {other:?}"),
    }
}

#[test]
fn scan_roots_follow_configured_then_default_order() {
    let roots = scan_roots(&two_scopes());
    let roots: Vec<&str> = roots.iter().map(|root| spelled(root)).collect();
    assert_eq!(roots, ["/abs/music/Lateralus", "/abs/music/Deadwing", "/abs/music"]);
}

#[test]
fn completed_scans_cover_every_scope_including_empty_ones() {
    let warnings = vec![RedundancyWarning {
        album_handle: "tool".to_owned(),
        resolved_directory: PathBuf::from("/abs/music/Lateralus"),
        contributing_selectors: vec![PathBuf::from("Lateralus"), PathBuf::from("./Lateralus")],
    }];
    let scans = vec![
        Ok(vec![PathBuf::from("/abs/music/Lateralus/01.flac")]),
        Ok(Vec::new()),
        Ok(vec![
            PathBuf::from("/abs/music/a.flac"),
            PathBuf::from("/abs/music/b.flac"),
        ]),
    ];

    match discover_required_files(two_scopes(), warnings, scans) {
        RequiredDiscovery::Completed { coverage, warnings } => {
            assert_eq!(coverage.configured.len(), 2);
            assert_eq!(coverage.configured[0].scope.album_handle, "tool");
            assert_eq!(coverage.configured[0].files.len(), 1);
            assert_eq!(coverage.configured[1].scope.album_handle, "pt");
            assert!(coverage.configured[1].files.is_empty(), "empty scopes stay covered");
            let default_coverage = coverage.default_root.expect("default scope coverage");
            assert_eq!(default_coverage.files.len(), 2);
            assert_eq!(default_coverage.scope.dependent_album_handles, ["meta"]);
            assert_eq!(warnings.len(), 1);
        }
        other => panic!("expected completed discovery, got {other:?}"),
    }
}

#[test]
fn any_failed_scan_reports_every_failure_and_discards_coverage() {
    let scans = vec![
        Err(DiscoveryError::NotADirectory {
            path: PathBuf::from("/abs/music/Lateralus"),
        }),
        Ok(vec![PathBuf::from("/abs/music/Deadwing/01.flac")]),
        Err(DiscoveryError::Root {
            path: PathBuf::from("/abs/music"),
            source: io::Error::new(io::ErrorKind::NotFound, "missing"),
        }),
    ];

    match discover_required_files(two_scopes(), Vec::new(), scans) {
        RequiredDiscovery::Failed { failures, warnings } => {
            assert_eq!(failures.configured.len(), 1);
            assert_eq!(failures.configured[0].scope.album_handle, "tool");
            assert!(matches!(
                failures.configured[0].error,
                DiscoveryError::NotADirectory { .. }
            ));
            let default_failure = failures.default_root.expect("default scope failure");
            assert!(matches!(default_failure.error, DiscoveryError::Root { .. }));
            assert!(warnings.is_empty());
        }
        other => panic!("expected failed discovery, got {other:?}"),
    }
}
