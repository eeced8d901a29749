//! The pure part of album-directory resolution: effective pathnames and the
//! directory check. Nothing here touches the filesystem.

use std::io;
use std::path::{Path, PathBuf};

use scarab::album_directory::{accept_resolved_directory, effective_album_directory};

const EMPTY_SELECTOR_MESSAGE: &str = "album directory selector is empty";
const NOT_A_DIRECTORY_MESSAGE: &str = "resolved target is not a directory";

/// The raw spelling of `selector` appended to a nonempty `source_root`
/// using the host separator, independent of `Path::join`.
fn joined_spelling(source_root: &str, selector: &str) -> String {
    if source_root.is_empty() {
        selector.to_owned()
    } else {
        format!("{source_root}{}{selector}", std::path::MAIN_SEPARATOR)
    }
}

fn assert_synthetic_error(error: &io::Error, kind: io::ErrorKind, message: &str) {
    assert_eq!(error.kind(), kind, "unexpected ErrorKind");
    assert_eq!(error.to_string(), message, "unexpected message");
    assert_eq!(error.raw_os_error(), None, "synthetic error carries no OS code");
}

fn text_of(path: &Path) -> &str {
    path.to_str().expect("test paths are UTF-8")
}

#[test]
fn empty_configured_selector_is_rejected_before_anchor_policy() {
    let source_roots = [
        Path::new(""),
        Path::new("ordinary/root"),
        Path::new(r"C:"),
        Path::new(r"\rooted"),
    ];

    for source_root in source_roots {
        let error = effective_album_directory(source_root, Path::new(""))
            .expect_err("empty selector must be rejected");
        assert_synthetic_error(&error, io::ErrorKind::InvalidInput, EMPTY_SELECTOR_MESSAGE);
    }
}

#[test]
fn ordinary_relative_selector_is_joined_to_supplied_anchor() {
    let effective = effective_album_directory(
        Path::new("relative/root"),
        Path::new("Porcupine Tree/Fear of a Blank Planet"),
    )
    .expect("ordinary relative selector must be admitted");

    assert_eq!(
        text_of(&effective),
        joined_spelling("relative/root", "Porcupine Tree/Fear of a Blank Planet")
    );
}

#[test]
fn ordinary_relative_source_root_is_accepted() {
    let effective = effective_album_directory(Path::new("music/root"), Path::new("Lateralus"))
        .expect("ordinary relative source root must be admitted");

    assert_eq!(text_of(&effective), joined_spelling("music/root", "Lateralus"));
}

#[test]
fn empty_source_root_leaves_relative_selector_relative() {
    let effective = effective_album_directory(Path::new(""), Path::new("Ænima"))
        .expect("empty source root must be admitted");

    assert_eq!(text_of(&effective), "Ænima");
}

#[test]
fn explicit_dot_components_survive_effective_path_construction() {
    let selectors = [
        ".",
        "..",
        "Porcupine Tree/./Fear of a Blank Planet",
        "Porcupine Tree/../Tool",
    ];

    for selector in selectors {
        let effective = effective_album_directory(Path::new("root"), Path::new(selector))
            .unwrap_or_else(|error| panic!("selector {selector:?} must be admitted: {error}"));
        assert_eq!(
            text_of(&effective),
            joined_spelling("root", selector),
            "selector {selector:?} spelling changed"
        );
    }
}

#[test]
fn whitespace_only_selector_is_admitted_and_preserved() {
    let effective = effective_album_directory(Path::new("root"), Path::new("   "))
        .expect("whitespace-only selector must not be treated as empty");

    assert_eq!(text_of(&effective), joined_spelling("root", "   "));
}

#[test]
fn host_absolute_selector_is_returned_unchanged_and_ignores_anchor() {
    let absolute = "/absolute/selector";

    let selector = Path::new(absolute);
    assert!(
        selector.is_absolute(),
        "test precondition: {absolute:?} must be host-absolute"
    );

    for source_root in [Path::new(""), Path::new(r"\root-relative")] {
        let effective = effective_album_directory(source_root, selector)
            .expect("absolute selector must be admitted");
        assert_eq!(effective.as_os_str(), selector.as_os_str());
    }
}

#[test]
fn resolved_directory_is_accepted_unchanged() {
    let resolved = PathBuf::from("/music/Tool/Lateralus");
    let accepted = accept_resolved_directory(resolved.clone(), true)
        .expect("a directory must be accepted");
    assert_eq!(accepted.as_os_str(), resolved.as_os_str());
}

#[test]
fn resolved_non_directory_is_synthetic_not_a_directory() {
    let error = accept_resolved_directory(PathBuf::from("/music/track.flac"), false)
        .expect_err("a non-directory must be rejected");
    assert_synthetic_error(&error, io::ErrorKind::NotADirectory, NOT_A_DIRECTORY_MESSAGE);
}
