//! Album scope preparation from the outcomes of selector resolution and of
//! inspecting the source root. Every outcome is supplied by the test, so
//! nothing here touches the filesystem.

use std::io;
use std::path::{Path, PathBuf};

use scarab::album_scope::{
    configured_selectors, default_root_probe_needed, prepare_album_scopes, AlbumScopePreparation,
    ConfiguredSelectorFailure, DefaultRootProbe, DefaultSourceRootFailure,
    DefaultSourceRootFailureKind, PreparedAlbumScopes, RedundancyWarning,
};
use scarab::{parse, LibraryBuildSpec};

fn parse_spec(album_declarations: &str) -> LibraryBuildSpec {
    let text = format!("codec = \"opus\"\nbitrate = 128\n{album_declarations}");
    parse(&text).expect("test configuration must parse and validate")
}

fn spelling(path: &Path) -> &str {
    path.to_str().expect("test paths are UTF-8")
}

fn spellings(paths: &[PathBuf]) -> Vec<&str> {
    paths.iter().map(|path| spelling(path)).collect()
}

fn resolved(path: &str) -> io::Result<PathBuf> {
    Ok(PathBuf::from(path))
}

fn missing() -> io::Result<PathBuf> {
    Err(io::Error::new(io::ErrorKind::NotFound, "missing"))
}

fn expect_prepared(preparation: AlbumScopePreparation) -> (PreparedAlbumScopes, Vec<RedundancyWarning>) {
    match preparation {
        AlbumScopePreparation::Prepared { scopes, warnings } => (scopes, warnings),
        AlbumScopePreparation::Failed {
            configured_failures,
            default_source_root_failure,
            warnings,
        } => panic!(
            "expected complete preparation, got failures {configured_failures:?} \
             {default_source_root_failure:?} and warnings {warnings:?}"
        ),
    }
}

fn expect_failed(
    preparation: AlbumScopePreparation,
) -> (
    Vec<ConfiguredSelectorFailure>,
    Option<DefaultSourceRootFailure>,
    Vec<RedundancyWarning>,
) {
    match preparation {
        AlbumScopePreparation::Failed {
            configured_failures,
            default_source_root_failure,
            warnings,
        } => (configured_failures, default_source_root_failure, warnings),
        AlbumScopePreparation::Prepared { scopes, warnings } => {
            panic!("expected failure, got prepared scopes {scopes:?} and warnings {warnings:?}")
        }
    }
}

#[test]
fn zero_albums_succeed_without_inspecting_a_nonexistent_root() {
    let missing_root = Path::new("/nonexistent/scarab/missing-root");
    let spec = parse_spec("");

    assert!(configured_selectors(&spec).is_empty());
    assert!(!default_root_probe_needed(&spec, missing_root));
    let (scopes, warnings) =
        expect_prepared(prepare_album_scopes(&spec, missing_root, Vec::new(), None));

    assert!(scopes.configured_directory_scopes.is_empty());
    assert!(scopes.default_source_root_scope.is_none());
    assert!(warnings.is_empty());
}

#[test]
fn configured_selectors_are_listed_in_album_and_selector_order() {
    let spec = parse_spec(
        "[albums.tool]\ndirectories = [\"Lateralus\", \"/abs/Aenima\"]\n\
         [albums.meta]\nname = \"Fear Inoculum\"\n\
         [albums.pt]\ndirectory = \"Deadwing\"\n",
    );

    let selectors = configured_selectors(&spec);
    assert_eq!(spellings(&selectors), ["Lateralus", "/abs/Aenima", "Deadwing"]);
}

#[test]
fn selectors_resolving_to_equal_paths_share_one_scope_and_warn() {
    let spec = parse_spec(
        "[albums.tool]\ndirectories = [\"Lateralus\", \"./Lateralus\", \"Lateralus\", \"Aenima\"]\n",
    );
    let root = Path::new("/music");
    assert!(!default_root_probe_needed(&spec, root));

    let (scopes, warnings) = expect_prepared(prepare_album_scopes(
        &spec,
        root,
        vec![
            resolved("/music/Lateralus"),
            resolved("/music/./Lateralus"),
            resolved("/music/Lateralus"),
            resolved("/music/Aenima"),
        ],
        None,
    ));

    let configured = &scopes.configured_directory_scopes;
    assert_eq!(configured.len(), 2, "equal resolved paths must share one scope");
    assert_eq!(configured[0].album_handle, "tool");
    assert_eq!(spelling(&configured[0].resolved_directory), "/music/Lateralus");
    assert_eq!(
        spellings(&configured[0].contributing_selectors),
        ["Lateralus", "./Lateralus", "Lateralus"]
    );
    assert_eq!(spelling(&configured[1].resolved_directory), "/music/Aenima");
    assert_eq!(spellings(&configured[1].contributing_selectors), ["Aenima"]);
    assert!(scopes.default_source_root_scope.is_none());

    assert_eq!(warnings.len(), 1, "one warning per redundant group");
    assert_eq!(warnings[0].album_handle, "tool");
    assert_eq!(spelling(&warnings[0].resolved_directory), "/music/Lateralus");
    assert_eq!(
        spellings(&warnings[0].contributing_selectors),
        ["Lateralus", "./Lateralus", "Lateralus"]
    );
}

#[test]
fn equal_paths_in_different_albums_stay_separate() {
    let spec = parse_spec(
        "[albums.one]\ndirectory = \"Shared\"\n[albums.two]\ndirectory = \"/music/Shared\"\n",
    );

    let (scopes, warnings) = expect_prepared(prepare_album_scopes(
        &spec,
        Path::new("/music"),
        vec![resolved("/music/Shared"), resolved("/music/Shared")],
        None,
    ));

    let configured = &scopes.configured_directory_scopes;
    assert_eq!(configured.len(), 2, "scopes never merge across albums");
    assert_eq!(configured[0].album_handle, "one");
    assert_eq!(configured[1].album_handle, "two");
    assert!(warnings.is_empty());
}

#[test]
fn failed_selectors_are_collected_and_keep_warnings_of_successful_groups() {
    let spec = parse_spec(
        "[albums.tool]\ndirectories = [\"Lateralus\", \"Missing\", \"Lateralus\", \"Missing\"]\n",
    );

    let (failures, default_failure, warnings) = expect_failed(prepare_album_scopes(
        &spec,
        Path::new("/music"),
        vec![
            resolved("/music/Lateralus"),
            missing(),
            resolved("/music/Lateralus"),
            missing(),
        ],
        None,
    ));

    assert_eq!(failures.len(), 2, "duplicate failing selectors stay separate");
    for failure in &failures {
        assert_eq!(failure.album_handle, "tool");
        assert_eq!(spelling(&failure.configured_selector), "Missing");
        assert_eq!(failure.error.kind(), io::ErrorKind::NotFound);
    }
    assert!(default_failure.is_none());
    assert_eq!(warnings.len(), 1);
    assert_eq!(spellings(&warnings[0].contributing_selectors), ["Lateralus", "Lateralus"]);
}

#[test]
fn albums_without_selectors_share_the_inspected_default_root() {
    let spec = parse_spec(
        "[albums.meta]\nname = \"Fear Inoculum\"\n\
         [albums.tool]\ndirectory = \"Lateralus\"\n\
         [albums.other]\nartist = \"Tool\"\n",
    );
    let root = Path::new("music");
    assert!(default_root_probe_needed(&spec, root));

    let (scopes, warnings) = expect_prepared(prepare_album_scopes(
        &spec,
        root,
        vec![resolved("/abs/music/Lateralus")],
        Some(DefaultRootProbe::Inspected {
            resolved_path: PathBuf::from("/abs/music"),
            is_directory: true,
        }),
    ));

    assert_eq!(scopes.configured_directory_scopes.len(), 1);
    let default_scope = scopes
        .default_source_root_scope
        .expect("albums without selectors need the default root");
    assert_eq!(spelling(&default_scope.original_source_root), "music");
    assert_eq!(spelling(&default_scope.resolved_traversal_root), "/abs/music");
    assert_eq!(default_scope.dependent_album_handles, ["meta", "other"]);
    assert!(warnings.is_empty());
}

#[test]
fn default_root_that_is_not_a_directory_fails_preparation() {
    let spec = parse_spec("[albums.meta]\nname = \"Fear Inoculum\"\n");

    let (failures, default_failure, warnings) = expect_failed(prepare_album_scopes(
        &spec,
        Path::new("music"),
        Vec::new(),
        Some(DefaultRootProbe::Inspected {
            resolved_path: PathBuf::from("/abs/music"),
            is_directory: false,
        }),
    ));

    assert!(failures.is_empty());
    assert!(warnings.is_empty());
    let failure = default_failure.expect("default root failure");
    assert_eq!(spelling(&failure.original_source_root), "music");
    assert_eq!(failure.dependent_album_handles, ["meta"]);
    match failure.kind {
        DefaultSourceRootFailureKind::ResolvedTargetNotDirectory { resolved_path } => {
            assert_eq!(spelling(&resolved_path), "/abs/music");
        }
        other => panic!("expected a not-directory failure, got {other:?}"),
    }
}

#[test]
fn default_root_resolution_and_inspection_errors_are_kept() {
    let spec = parse_spec("[albums.meta]\nname = \"Fear Inoculum\"\n");

    let (_, unresolved, _) = expect_failed(prepare_album_scopes(
        &spec,
        Path::new("music"),
        Vec::new(),
        Some(DefaultRootProbe::Unresolved(io::Error::new(
            io::ErrorKind::NotFound,
            "missing",
        ))),
    ));
    match unresolved.expect("default root failure").kind {
        DefaultSourceRootFailureKind::ResolutionFailed { error } => {
            assert_eq!(error.kind(), io::ErrorKind::NotFound);
        }
        other => panic!("expected a resolution failure, got {other:?}"),
    }

    let (_, uninspectable, _) = expect_failed(prepare_album_scopes(
        &spec,
        Path::new("music"),
        Vec::new(),
        Some(DefaultRootProbe::Uninspectable {
            resolved_path: PathBuf::from("/abs/music"),
            error: io::Error::new(io::ErrorKind::PermissionDenied, "denied"),
        }),
    ));
    match uninspectable.expect("default root failure").kind {
        DefaultSourceRootFailureKind::ResolvedPathInspectionFailed { resolved_path, error } => {
            assert_eq!(spelling(&resolved_path), "/abs/music");
            assert_eq!(error.kind(), io::ErrorKind::PermissionDenied);
        }
        other => panic!("expected an inspection failure, got {other:?}"),
    }
}

#[test]
fn empty_default_root_is_rejected_without_filesystem_work() {
    let spec = parse_spec("[albums.meta]\nname = \"Fear Inoculum\"\n");
    assert!(!default_root_probe_needed(&spec, Path::new("")));

    let (failures, default_failure, _) =
        expect_failed(prepare_album_scopes(&spec, Path::new(""), Vec::new(), None));

    assert!(failures.is_empty());
    let failure = default_failure.expect("default root failure");
    assert!(matches!(failure.kind, DefaultSourceRootFailureKind::EmptyInput));
    assert_eq!(failure.dependent_album_handles, ["meta"]);
}

#[test]
fn whitespace_default_root_is_not_empty() {
    let spec = parse_spec("[albums.meta]\nname = \"Fear Inoculum\"\n");
    assert!(default_root_probe_needed(&spec, Path::new("   ")));
}

#[test]
fn configured_only_albums_need_no_default_root() {
    let spec = parse_spec("[albums.tool]\ndirectory = \"Lateralus\"\n");
    let missing_root = Path::new("/nonexistent/scarab/missing-root");
    assert!(!default_root_probe_needed(&spec, missing_root));

    let (scopes, _) = expect_prepared(prepare_album_scopes(
        &spec,
        missing_root,
        vec![resolved("/elsewhere/Lateralus")],
        None,
    ));
    assert_eq!(scopes.configured_directory_scopes.len(), 1);
    assert!(scopes.default_source_root_scope.is_none());
}

#[test]
fn every_selector_of_a_parsed_profile_has_an_effective_path() {
    let spec = parse_spec(
        "[albums.tool]\ndirectories = [\"Lateralus\", \"   \", \"/abs/Aenima\"]\n\
         [albums.pt]\ndirectory = \"..\"\n",
    );
    let selectors = configured_selectors(&spec);
    assert_eq!(selectors.len(), 4);
    for selector in &selectors {
        let effective =
            scarab::album_directory::effective_album_directory(Path::new("/music"), selector)
                .unwrap_or_else(|error| panic!("{selector:?} must have an effective path: {error}"));
        assert!(!effective.as_os_str().is_empty());
    }
}
