//! Root checks and failure descriptions of source-file discovery.

use std::io;
use std::path::{Path, PathBuf};

use scarab::discovery::{
    check_discovery_root, discovery_probe_path, sort_discovered_files, walk_start, walk_step,
    WalkAction, WalkEvent, WalkState,
};
use scarab::DiscoveryError;

#[test]
fn ordinary_directory_root_may_be_walked() {
    assert!(check_discovery_root(Path::new("music"), false, true).is_ok());
}

#[test]
fn symlink_root_is_rejected_before_its_type() {
    for is_directory in [true, false] {
        match check_discovery_root(Path::new("music/"), true, is_directory) {
            Err(DiscoveryError::RootSymlink { path }) => assert_eq!(path.to_str(), Some("music/")),
            other => panic!("expected a symlink rejection, got {other:?}"),
        }
    }
}

#[test]
fn non_directory_root_is_rejected_with_its_spelling() {
    match check_discovery_root(Path::new("music/track.flac"), false, false) {
        Err(DiscoveryError::NotADirectory { path }) => {
            assert_eq!(path.to_str(), Some("music/track.flac"));
        }
        other => panic!("expected a not-directory rejection, got {other:?}"),
    }
}

#[test]
fn discovery_messages_name_the_path_and_the_cause() {
    let symlink = DiscoveryError::RootSymlink {
        path: PathBuf::from("music"),
    };
    assert_eq!(symlink.message(), "root music is a symlink");

    let not_directory = DiscoveryError::NotADirectory {
        path: PathBuf::from("music"),
    };
    assert_eq!(not_directory.message(), "root music is not a directory");

    let root = DiscoveryError::Root {
        path: PathBuf::from("music"),
        source: io::Error::new(io::ErrorKind::NotFound, "missing"),
    };
    assert_eq!(root.message(), "could not inspect root music: missing");

    let open = DiscoveryError::OpenDir {
        path: PathBuf::from("music/a"),
        source: io::Error::new(io::ErrorKind::PermissionDenied, "denied"),
    };
    assert_eq!(open.message(), "could not open directory music/a: denied");

    let entries = DiscoveryError::ReadEntries {
        path: PathBuf::from("music/a"),
        source: io::Error::new(io::ErrorKind::Other, "broken"),
    };
    assert_eq!(
        entries.message(),
        "could not read entries of directory music/a: broken"
    );

    let file_type = DiscoveryError::FileType {
        path: PathBuf::from("music/a/b"),
        source: io::Error::new(io::ErrorKind::Other, "unknown"),
    };
    assert_eq!(
        file_type.message(),
        "could not determine file type of music/a/b: unknown"
    );
}

#[test]
fn probe_spelling_drops_trailing_separators_and_dots() {
    assert_eq!(discovery_probe_path(Path::new("music/")).to_str(), Some("music"));
    assert_eq!(discovery_probe_path(Path::new("music/.")).to_str(), Some("music"));
    assert_eq!(discovery_probe_path(Path::new("music//a/./b")).to_str(), Some("music/a/b"));
    assert_eq!(discovery_probe_path(Path::new("./music")).to_str(), Some("./music"));
}

#[test]
fn discovered_files_come_back_in_path_order() {
    let files = vec![
        PathBuf::from("music/b.flac"),
        PathBuf::from("music/a/z.flac"),
        PathBuf::from("music/a.flac"),
        PathBuf::from("music/a/z.flac"),
    ];
    let sorted = sort_discovered_files(files);
    let sorted: Vec<&str> = sorted.iter().map(|p| p.to_str().expect("UTF-8")).collect();
    assert_eq!(
        sorted,
        ["music/a/z.flac", "music/a/z.flac", "music/a.flac", "music/b.flac"]
    );
}

fn entry(path: &str, is_dir: bool, is_file: bool) -> WalkEvent {
    WalkEvent::Entry {
        path: PathBuf::from(path),
        is_dir,
        is_file,
    }
}

fn step(state: WalkState, event: WalkEvent) -> (WalkState, WalkAction) {
    walk_step(state, event)
}

fn expect_open(action: &WalkAction, expected: &str) {
    match action {
        WalkAction::OpenDirectory(path) => assert_eq!(path.to_str(), Some(expected)),
        other => panic!("expected to open {expected}, got {other:?}"),
    }
}

fn expect_next(action: &WalkAction) {
    assert!(matches!(action, WalkAction::NextEntry), "expected the next entry, got {action:?}");
}

#[test]
fn walk_descends_directories_collects_files_and_skips_the_rest() {
    let (state, action) = walk_start(Path::new("music"));
    expect_open(&action, "music");
    let (state, action) = step(state, WalkEvent::Opened);
    expect_next(&action);
    let (state, action) = step(state, entry("music/b.flac", false, true));
    expect_next(&action);
    let (state, action) = step(state, entry("music/a", true, false));
    expect_open(&action, "music/a");
    let (state, action) = step(state, WalkEvent::Opened);
    expect_next(&action);
    let (state, action) = step(state, entry("music/a/x.flac", false, true));
    expect_next(&action);
    // A symlink, to a file or a directory, reports neither kind.
    let (state, action) = step(state, entry("music/a/link", false, false));
    expect_next(&action);
    let (state, action) = step(state, WalkEvent::DirectoryEnd);
    expect_next(&action);
    let (state, action) = step(state, entry("music/cover.jpg", false, true));
    expect_next(&action);
    let (_, action) = step(state, WalkEvent::DirectoryEnd);
    match action {
        WalkAction::Finished(files) => {
            let files: Vec<&str> = files.iter().map(|p| p.to_str().expect("UTF-8")).collect();
            assert_eq!(files, ["music/a/x.flac", "music/b.flac", "music/cover.jpg"]);
        }
        other => panic!("expected a finished walk, got {other:?}"),
    }
}

#[test]
fn walk_failures_name_the_directory_or_entry_and_drop_collected_files() {
    let (state, _) = walk_start(Path::new("music"));
    let (state, _) = step(state, WalkEvent::Opened);
    let (state, _) = step(state, entry("music/b.flac", false, true));
    let (state, _) = step(state, entry("music/a", true, false));
    let (_, action) = step(
        state,
        WalkEvent::OpenFailed(io::Error::new(io::ErrorKind::PermissionDenied, "denied")),
    );
    match action {
        WalkAction::Fail(DiscoveryError::OpenDir { path, source }) => {
            assert_eq!(path.to_str(), Some("music/a"));
            assert_eq!(source.kind(), io::ErrorKind::PermissionDenied);
        }
        other => panic!("expected an open failure, got {other:?}"),
    }

    let (state, _) = walk_start(Path::new("music"));
    let (state, _) = step(state, WalkEvent::Opened);
    let (_, action) = step(
        state,
        WalkEvent::ReadFailed(io::Error::new(io::ErrorKind::Other, "broken")),
    );
    match action {
        WalkAction::Fail(DiscoveryError::ReadEntries { path, .. }) => {
            assert_eq!(path.to_str(), Some("music"));
        }
        other => panic!("expected a read failure, got {other:?}"),
    }

    let (state, _) = walk_start(Path::new("music"));
    let (state, _) = step(state, WalkEvent::Opened);
    let (_, action) = step(
        state,
        WalkEvent::FileTypeFailed {
            path: PathBuf::from("music/odd"),
            error: io::Error::new(io::ErrorKind::Other, "unknown"),
        },
    );
    match action {
        WalkAction::Fail(DiscoveryError::FileType { path, .. }) => {
            assert_eq!(path.to_str(), Some("music/odd"));
        }
        other => panic!("expected a file-type failure, got {other:?}"),
    }
}

#[test]
fn empty_root_walk_finishes_with_no_files() {
    let (state, _) = walk_start(Path::new("music"));
    let (state, _) = step(state, WalkEvent::Opened);
    let (_, action) = step(state, WalkEvent::DirectoryEnd);
    assert!(matches!(action, WalkAction::Finished(files) if files.is_empty()));
}
