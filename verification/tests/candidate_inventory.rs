//! Candidate aggregation and the public forms of scope and discovery
//! diagnostics. Observations are supplied by the test, so nothing here
//! touches the filesystem.

use std::io;
use std::path::{Path, PathBuf};

use scarab::album_scope::{self, prepare_album_scopes};
use scarab::candidate_inventory::{
    aggregate_observations, candidate_inventory_from_discovery, default_failure_from_private,
    discovery_failures_from_private, prepared_scopes_or_failure, warnings_from_private,
};
use scarab::required_discovery::{self, discover_required_files};
use scarab::{
    parse, Candidate, CandidateInventory, CandidateInventoryFailure, DefaultSourceRootFailureKind,
    DiscoveryError, LibraryBuildSpec, RequiredScope,
};

fn inventory_profile(album_declarations: &str) -> LibraryBuildSpec {
    let text = format!("codec = \"opus\"\nbitrate = 128\n{album_declarations}");
    parse(&text).expect("test configuration must parse and validate")
}

fn configured_scope(
    album_handle: &str,
    resolved_directory: &str,
    contributing_selectors: &[&str],
) -> RequiredScope {
    RequiredScope::ConfiguredDirectory {
        album_handle: album_handle.to_owned(),
        resolved_directory: PathBuf::from(resolved_directory),
        contributing_selectors: contributing_selectors.iter().map(PathBuf::from).collect(),
    }
}

fn find_entry<'inventory>(
    inventory: &'inventory CandidateInventory,
    path: &Path,
) -> Option<Candidate<'inventory>> {
    inventory
        .candidates()
        .into_iter()
        .find(|candidate| candidate.path() == path)
}

#[test]
fn equal_path_observations_with_different_spellings_share_one_candidate() {
    let scopes = vec![
        configured_scope("one", "/music/album", &["Album"]),
        configured_scope("two", "/music/album", &["Album"]),
    ];
    let first = PathBuf::from("/music/album/./track.dat");
    let second = PathBuf::from("/music/album/track.dat");
    assert_ne!(
        first.as_os_str(),
        second.as_os_str(),
        "test precondition needs different raw spellings"
    );
    assert_eq!(first, second, "test precondition needs equal native paths");

    let inventory = aggregate_observations(scopes, vec![vec![first.clone()], vec![second.clone()]]);

    assert_eq!(inventory.covered_scopes().len(), 2);
    let mut candidates: Vec<Candidate<'_>> = inventory.candidates();
    assert_eq!(candidates.len(), 1, "equal observations must deduplicate");
    let candidate = candidates.pop().expect("one candidate");
    let representative = candidate.path();
    assert!(
        representative == first.as_path() || representative == second.as_path(),
        "representative must be one reported pathname"
    );
    assert!(
        representative.as_os_str() == first.as_os_str()
            || representative.as_os_str() == second.as_os_str(),
        "representative spelling must match one observation"
    );
    let mut handles: Vec<&str> = candidate
        .scopes()
        .into_iter()
        .map(|scope| match scope {
            RequiredScope::ConfiguredDirectory { album_handle, .. } => album_handle.as_str(),
            RequiredScope::DefaultSourceRoot { .. } => {
                panic!("expected configured scope")
            }
        })
        .collect();
    handles.sort();
    assert_eq!(handles, ["one", "two"]);
    assert_eq!(candidate.scopes().len(), 2);
}

#[test]
fn distinct_pathnames_stay_distinct() {
    let scopes = vec![configured_scope("one", "/music/album", &["Album"])];
    let inventory = aggregate_observations(
        scopes,
        vec![vec![
            PathBuf::from("/music/album/a.dat"),
            PathBuf::from("/music/album/b.dat"),
        ]],
    );

    assert_eq!(inventory.candidates().len(), 2);
    assert!(find_entry(&inventory, Path::new("/music/album/a.dat")).is_some());
    assert!(find_entry(&inventory, Path::new("/music/album/b.dat")).is_some());
}

#[test]
fn empty_scopes_stay_covered_without_candidates() {
    let scopes = vec![
        configured_scope("one", "/music/one", &["one"]),
        configured_scope("two", "/music/two", &["two"]),
    ];
    let inventory = aggregate_observations(
        scopes,
        vec![vec![PathBuf::from("/music/one/track.dat")], Vec::new()],
    );

    assert_eq!(inventory.covered_scopes().len(), 2);
    assert_eq!(inventory.candidates().len(), 1);
    let candidate = find_entry(&inventory, Path::new("/music/one/track.dat"))
        .expect("populated scope candidate must exist");
    assert_eq!(candidate.scopes().len(), 1);
}

#[test]
fn same_scope_duplicate_observation_keeps_one_association() {
    let scopes = vec![configured_scope("one", "/music/album", &["Album"])];
    let inventory = aggregate_observations(
        scopes,
        vec![vec![
            PathBuf::from("/music/album/track.dat"),
            PathBuf::from("/music/album/./track.dat"),
        ]],
    );

    assert_eq!(inventory.candidates().len(), 1);
    let candidate = find_entry(&inventory, Path::new("/music/album/track.dat"))
        .expect("candidate must exist");
    assert_eq!(
        candidate.scopes().len(),
        1,
        "one scope yields one association even with duplicate equal observations"
    );
}

#[test]
fn kept_spelling_is_an_observed_one() {
    let scopes = vec![
        configured_scope("one", "/music/album", &["Album"]),
        configured_scope("two", "/music/album", &["Album"]),
    ];
    let inventory = aggregate_observations(
        scopes,
        vec![
            vec![PathBuf::from("/music/album/./track.dat")],
            vec![PathBuf::from("/music/album/track.dat")],
        ],
    );
    let candidates = inventory.candidates();
    assert_eq!(candidates.len(), 1);
    let kept = candidates[0].path().to_str();
    assert!(
        kept == Some("/music/album/./track.dat") || kept == Some("/music/album/track.dat"),
        "kept spelling {kept:?} must be one observed"
    );
    assert_eq!(candidates[0].scopes().len(), 2);
}

#[test]
fn discovery_failure_translation_retains_scope_and_error() {
    let scope = album_scope::ConfiguredDirectoryScope {
        album_handle: "deadwing".to_owned(),
        resolved_directory: PathBuf::from("/music/Deadwing"),
        contributing_selectors: vec![PathBuf::from("Deadwing")],
    };
    let error = DiscoveryError::NotADirectory {
        path: PathBuf::from("/music/Deadwing"),
    };
    let failures = required_discovery::RequiredFailures {
        configured: vec![required_discovery::ConfiguredScopeFailure { scope, error }],
        default_root: Some(required_discovery::DefaultScopeFailure {
            scope: album_scope::DefaultSourceRootScope {
                original_source_root: PathBuf::from("source"),
                resolved_traversal_root: PathBuf::from("/music/source"),
                dependent_album_handles: vec!["in-absentia".to_owned()],
            },
            error: DiscoveryError::Root {
                path: PathBuf::from("/music/source"),
                source: io::Error::new(io::ErrorKind::NotFound, "missing"),
            },
        }),
    };

    let converted = discovery_failures_from_private(failures);

    assert_eq!(converted.len(), 2, "both scope failures stay separate");
    match &converted[0].scope {
        RequiredScope::ConfiguredDirectory {
            album_handle,
            resolved_directory,
            contributing_selectors,
        } => {
            assert_eq!(album_handle, "deadwing");
            assert_eq!(resolved_directory.to_str(), Some("/music/Deadwing"));
            assert_eq!(contributing_selectors.len(), 1);
            assert_eq!(contributing_selectors[0].to_str(), Some("Deadwing"));
        }
        other => panic!("first failure must keep configured scope, got {other:?}"),
    }
    match &converted[0].error {
        DiscoveryError::NotADirectory { path } => {
            assert_eq!(path.to_str(), Some("/music/Deadwing"));
        }
        other => panic!("configured error pathname must stay intact, got {other:?}"),
    }
    match &converted[1].scope {
        RequiredScope::DefaultSourceRoot {
            original_source_root,
            resolved_traversal_root,
            dependent_album_handles,
        } => {
            assert_eq!(original_source_root.to_str(), Some("source"));
            assert_eq!(resolved_traversal_root.to_str(), Some("/music/source"));
            assert_eq!(dependent_album_handles, &["in-absentia".to_owned()]);
        }
        other => panic!("second failure must keep default scope, got {other:?}"),
    }
    match &converted[1].error {
        DiscoveryError::Root { path, source } => {
            assert_eq!(path.to_str(), Some("/music/source"));
            assert_eq!(source.kind(), io::ErrorKind::NotFound);
            assert!(
                source.to_string().contains("missing"),
                "underlying io payload must stay distinguishable"
            );
        }
        other => panic!("default error pathname and payload must stay intact, got {other:?}"),
    }
}

#[test]
fn default_failure_kind_translation_preserves_all_variants() {
    let original_root = PathBuf::from("source");
    let dependents = vec!["tool".to_owned()];

    let empty = default_failure_from_private(album_scope::DefaultSourceRootFailure {
        original_source_root: original_root.clone(),
        dependent_album_handles: dependents.clone(),
        kind: album_scope::DefaultSourceRootFailureKind::EmptyInput,
    });
    assert!(matches!(empty.kind, DefaultSourceRootFailureKind::EmptyInput));
    assert_eq!(empty.original_source_root, original_root);
    assert_eq!(empty.dependent_album_handles, dependents);

    let unsupported = default_failure_from_private(album_scope::DefaultSourceRootFailure {
        original_source_root: original_root.clone(),
        dependent_album_handles: dependents.clone(),
        kind: album_scope::DefaultSourceRootFailureKind::UnsupportedPathForm,
    });
    assert!(matches!(
        unsupported.kind,
        DefaultSourceRootFailureKind::UnsupportedPathForm
    ));

    let resolved = PathBuf::from("/music/resolved");
    let inspection = default_failure_from_private(album_scope::DefaultSourceRootFailure {
        original_source_root: original_root.clone(),
        dependent_album_handles: dependents.clone(),
        kind: album_scope::DefaultSourceRootFailureKind::ResolvedPathInspectionFailed {
            resolved_path: resolved.clone(),
            error: io::Error::new(io::ErrorKind::PermissionDenied, "denied"),
        },
    });
    match inspection.kind {
        DefaultSourceRootFailureKind::ResolvedPathInspectionFailed {
            resolved_path,
            error,
        } => {
            assert_eq!(resolved_path, resolved);
            assert_eq!(error.kind(), io::ErrorKind::PermissionDenied);
        }
        other => panic!("inspection failure must stay typed, got {other:?}"),
    }

    let not_dir = default_failure_from_private(album_scope::DefaultSourceRootFailure {
        original_source_root: original_root.clone(),
        dependent_album_handles: dependents.clone(),
        kind: album_scope::DefaultSourceRootFailureKind::ResolvedTargetNotDirectory {
            resolved_path: resolved.clone(),
        },
    });
    match not_dir.kind {
        DefaultSourceRootFailureKind::ResolvedTargetNotDirectory { resolved_path } => {
            assert_eq!(resolved_path, resolved);
        }
        other => panic!("not-directory failure must stay typed, got {other:?}"),
    }

    let resolution = default_failure_from_private(album_scope::DefaultSourceRootFailure {
        original_source_root: original_root.clone(),
        dependent_album_handles: dependents.clone(),
        kind: album_scope::DefaultSourceRootFailureKind::ResolutionFailed {
            error: io::Error::new(io::ErrorKind::NotFound, "missing"),
        },
    });
    match resolution.kind {
        DefaultSourceRootFailureKind::ResolutionFailed { error } => {
            assert_eq!(error.kind(), io::ErrorKind::NotFound);
        }
        other => panic!("resolution failure must stay typed, got {other:?}"),
    }
}

#[test]
fn warnings_from_private_preserve_album_root_and_selector_order() {
    let private = vec![
        album_scope::RedundancyWarning {
            album_handle: "one".to_owned(),
            resolved_directory: PathBuf::from("/music/one"),
            contributing_selectors: vec![
                PathBuf::from("one"),
                PathBuf::from("./one"),
                PathBuf::from("one"),
            ],
        },
        album_scope::RedundancyWarning {
            album_handle: "three".to_owned(),
            resolved_directory: PathBuf::from("/music/two"),
            contributing_selectors: vec![PathBuf::from("two"), PathBuf::from("two")],
        },
    ];

    let converted = warnings_from_private(private);

    assert_eq!(converted.len(), 2);
    assert_eq!(converted[0].album_handle, "one");
    assert_eq!(converted[0].resolved_directory.to_str(), Some("/music/one"));
    assert_eq!(converted[0].contributing_selectors.len(), 3);
    assert_eq!(converted[0].contributing_selectors[0].to_str(), Some("one"));
    assert_eq!(converted[0].contributing_selectors[1].to_str(), Some("./one"));
    assert_eq!(converted[0].contributing_selectors[2].to_str(), Some("one"));
    assert_eq!(converted[1].album_handle, "three");
    assert_eq!(converted[1].resolved_directory.to_str(), Some("/music/two"));
    assert_eq!(converted[1].contributing_selectors.len(), 2);
}

#[test]
fn zero_albums_missing_unrelated_root_succeeds_empty() {
    let missing_root = Path::new("/nonexistent/scarab/missing-root");
    let spec = inventory_profile("");

    let (scopes, warnings) =
        prepared_scopes_or_failure(prepare_album_scopes(&spec, missing_root, Vec::new(), None))
            .expect("zero albums must prepare");
    let result = candidate_inventory_from_discovery(discover_required_files(
        scopes,
        warnings,
        Vec::new(),
    ))
    .expect("zero albums must succeed");

    assert!(result.warnings().is_empty());
    assert!(result.inventory().covered_scopes().is_empty());
    assert_eq!(result.inventory().candidates().len(), 0);
}

#[test]
fn preparation_failure_is_reported_in_public_form() {
    let spec = inventory_profile(
        "[albums.tool]\ndirectories = [\"Lateralus\", \"Missing\"]\n[albums.meta]\nname = \"Fear Inoculum\"\n",
    );
    let preparation = prepare_album_scopes(
        &spec,
        Path::new(""),
        vec![
            Ok(PathBuf::from("/music/Lateralus")),
            Err(io::Error::new(io::ErrorKind::NotFound, "missing")),
        ],
        None,
    );

    let failure = prepared_scopes_or_failure(preparation).expect_err("preparation must fail");
    assert_eq!(
        failure.message(),
        "candidate inventory preparation failed with 1 configured failure(s) \
         and a default source root failure"
    );
    match &failure {
        CandidateInventoryFailure::Preparation {
            configured_failures,
            default_source_root_failure,
            warnings,
        } => {
            assert_eq!(configured_failures.len(), 1);
            assert_eq!(configured_failures[0].album_handle, "tool");
            assert_eq!(configured_failures[0].configured_selector.to_str(), Some("Missing"));
            let default_failure = default_source_root_failure
                .as_ref()
                .expect("empty root with dependents fails");
            assert!(matches!(default_failure.kind, DefaultSourceRootFailureKind::EmptyInput));
            assert!(warnings.is_empty());
        }
        other => panic!("expected a preparation failure, got {other:?}"),
    }
    assert!(failure.warnings().is_empty());
}

#[test]
fn discovery_failure_is_reported_with_every_failed_scope() {
    let spec = inventory_profile("[albums.tool]\ndirectory = \"Lateralus\"\n");
    let (scopes, warnings) = prepared_scopes_or_failure(prepare_album_scopes(
        &spec,
        Path::new("/music"),
        vec![Ok(PathBuf::from("/music/Lateralus"))],
        None,
    ))
    .expect("preparation must succeed");

    let discovery = discover_required_files(
        scopes,
        warnings,
        vec![Err(DiscoveryError::RootSymlink {
            path: PathBuf::from("/music/Lateralus"),
        })],
    );
    let failure = candidate_inventory_from_discovery(discovery).expect_err("discovery must fail");
    assert_eq!(
        failure.message(),
        "candidate inventory discovery failed with 1 scope failure(s)"
    );
    match &failure {
        CandidateInventoryFailure::Discovery { failures, warnings } => {
            assert_eq!(failures.len(), 1);
            assert!(matches!(failures[0].error, DiscoveryError::RootSymlink { .. }));
            assert!(warnings.is_empty());
        }
        other => panic!("expected a discovery failure, got {other:?}"),
    }
}

#[test]
fn completed_discovery_yields_inventory_and_public_warnings() {
    let spec = inventory_profile(
        "[albums.tool]\ndirectories = [\"Lateralus\", \"./Lateralus\"]\n[albums.meta]\nname = \"Fear Inoculum\"\n",
    );
    let (scopes, warnings) = prepared_scopes_or_failure(prepare_album_scopes(
        &spec,
        Path::new("music"),
        vec![
            Ok(PathBuf::from("/abs/music/Lateralus")),
            Ok(PathBuf::from("/abs/music/Lateralus")),
        ],
        Some(album_scope::DefaultRootProbe::Inspected {
            resolved_path: PathBuf::from("/abs/music"),
            is_directory: true,
        }),
    ))
    .expect("preparation must succeed");

    let discovery = discover_required_files(
        scopes,
        warnings,
        vec![
            Ok(vec![PathBuf::from("/abs/music/Lateralus/01.flac")]),
            Ok(vec![
                PathBuf::from("/abs/music/Lateralus/01.flac"),
                PathBuf::from("/abs/music/cover.jpg"),
            ]),
        ],
    );
    let success = candidate_inventory_from_discovery(discovery).expect("discovery must succeed");

    assert_eq!(success.warnings().len(), 1);
    assert_eq!(success.warnings()[0].album_handle, "tool");
    assert_eq!(success.warnings()[0].contributing_selectors.len(), 2);
    let inventory = success.inventory();
    assert_eq!(inventory.covered_scopes().len(), 2);
    assert!(matches!(
        inventory.covered_scopes()[1],
        RequiredScope::DefaultSourceRoot { .. }
    ));
    assert_eq!(inventory.candidates().len(), 2);
    let shared = find_entry(inventory, Path::new("/abs/music/Lateralus/01.flac"))
        .expect("shared track is a candidate");
    assert_eq!(shared.scopes().len(), 2, "both scopes reported the shared track");
}
