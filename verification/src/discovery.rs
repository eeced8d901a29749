//! Discovery of the ordinary files under one source root.
//!
//! Reading directories is filesystem work done by the caller; the library
//! decides. It decides whether an inspected root may be walked at all, and
//! it drives the walk: the caller opens the directories and reads their
//! entries as [`walk_step`] asks, and hands each outcome back. Only ordinary
//! directories are descended into and only ordinary files are collected;
//! symlinks and every other kind of entry are skipped. The first failure
//! ends the walk with no partial result, and a finished walk hands out its
//! files sorted.

use crate::paths::{
    buf_spelling, buf_spellings, display_text, error_message, owned_path, path_display,
    path_ordered, path_spelling, recomposed_path, recomposed_spelling, sort_paths,
};
use std::path::{Path, PathBuf};
use vstd::prelude::*;

verus! {

/// A failure to discover source files under a source root.
#[derive(Debug)]
pub enum DiscoveryError {
    /// The root path could not be inspected.
    Root {
        /// The root that failed inspection.
        path: PathBuf,
        source: std::io::Error,
    },
    /// The root path is a symlink. Symlink roots are rejected.
    RootSymlink {
        /// The symlinked root.
        path: PathBuf,
    },
    /// The root path exists but is not a directory.
    NotADirectory {
        /// The non-directory root.
        path: PathBuf,
    },
    /// A directory could not be opened for reading.
    OpenDir {
        /// The directory being opened.
        path: PathBuf,
        source: std::io::Error,
    },
    /// Iterating a directory's entries failed.
    ReadEntries {
        /// The directory being iterated.
        path: PathBuf,
        source: std::io::Error,
    },
    /// A directory entry's file type could not be determined.
    FileType {
        /// The entry whose file type could not be determined.
        path: PathBuf,
        source: std::io::Error,
    },
}

/// The spelling under which a root is inspected before it is walked: with
/// trailing separators and `.` components stripped, so that a terminal
/// symlink spelled `link/` or `link/.` is seen as the symlink it is. The
/// walk itself keeps the caller's spelling.
pub fn discovery_probe_path(root: &Path) -> (r: PathBuf)
    ensures
        buf_spelling(r) == recomposed_spelling(path_spelling(root)),
{
    recomposed_path(root)
}

/// The files a walk collected, put in `Path`'s order: the same files, each
/// as often, sorted.
pub fn sort_discovered_files(files: Vec<PathBuf>) -> (r: Vec<PathBuf>)
    ensures
        buf_spellings(r@).to_multiset() == buf_spellings(files@).to_multiset(),
        forall|i: int, j: int|
            0 <= i < j < r@.len() ==> path_ordered(
                #[trigger] buf_spelling(r@[i]),
                #[trigger] buf_spelling(r@[j]),
            ),
{
    let mut sorted = files;
    sort_paths(&mut sorted);
    sorted
}

/// Decides whether a root may be walked, from what a metadata lookup that
/// does not follow a terminal symlink reported of it: a symlink root is
/// rejected first, then a root that is not a directory.
pub fn check_discovery_root(root: &Path, is_symlink: bool, is_directory: bool) -> (r: Result<
    (),
    DiscoveryError,
>)
    ensures
        r is Ok <==> !is_symlink && is_directory,
        r matches Err(DiscoveryError::RootSymlink { path }) ==> is_symlink && buf_spelling(path)
            == path_spelling(root),
        r matches Err(DiscoveryError::NotADirectory { path }) ==> !is_symlink && !is_directory
            && buf_spelling(path) == path_spelling(root),
        r matches Err(e) ==> e is RootSymlink || e is NotADirectory,
{
    if is_symlink {
        return Err(DiscoveryError::RootSymlink { path: owned_path(root) });
    }
    if !is_directory {
        return Err(DiscoveryError::NotADirectory { path: owned_path(root) });
    }
    Ok(())
}

/// The I/O error a discovery failure carries, if any.
pub open spec fn discovery_source(e: DiscoveryError) -> Option<std::io::Error> {
    match e {
        DiscoveryError::Root { source, .. } => Some(source),
        DiscoveryError::OpenDir { source, .. } => Some(source),
        DiscoveryError::ReadEntries { source, .. } => Some(source),
        DiscoveryError::FileType { source, .. } => Some(source),
        DiscoveryError::RootSymlink { .. } => None,
        DiscoveryError::NotADirectory { .. } => None,
    }
}

/// The sentence describing a discovery failure, given the text of its
/// underlying I/O error (unused by the variants that carry none).
pub open spec fn discovery_message(e: DiscoveryError, source_text: Seq<char>) -> Seq<char> {
    match e {
        DiscoveryError::Root { path, .. } => "could not inspect root "@ + display_text(
            buf_spelling(path),
        ) + ": "@ + source_text,
        DiscoveryError::RootSymlink { path } => "root "@ + display_text(buf_spelling(path))
            + " is a symlink"@,
        DiscoveryError::NotADirectory { path } => "root "@ + display_text(buf_spelling(path))
            + " is not a directory"@,
        DiscoveryError::OpenDir { path, .. } => "could not open directory "@ + display_text(
            buf_spelling(path),
        ) + ": "@ + source_text,
        DiscoveryError::ReadEntries { path, .. } => "could not read entries of directory "@
            + display_text(buf_spelling(path)) + ": "@ + source_text,
        DiscoveryError::FileType { path, .. } => "could not determine file type of "@
            + display_text(buf_spelling(path)) + ": "@ + source_text,
    }
}

/// The `Display` text of an I/O error: the message of an error that carries
/// one; for an operating-system error it is the system's description, which
/// is not stated here.
#[verifier::external_body]
fn io_error_text(e: &std::io::Error) -> (r: String)
    ensures
        error_message(*e) matches Some(t) ==> r@ == t,
{
    e.to_string()
}

/// `before`, the displayed path, `after`, then the error text if any.
fn describe(before: &str, path: &PathBuf, after: &str, source: Option<&std::io::Error>) -> (r: String)
    ensures
        source is None ==> r@ == before@ + display_text(buf_spelling(*path)) + after@,
        source is Some ==> exists|t: Seq<char>|
            r@ == before@ + display_text(buf_spelling(*path)) + after@ + t,
        match source {
            Some(e) => match error_message(*e) {
                Some(t) => r@ == before@ + display_text(buf_spelling(*path)) + after@ + t,
                None => true,
            },
            None => true,
        },
{
    let mut out = String::from_str(before);
    let shown = path_display(path);
    out.append(shown.as_str());
    out.append(after);
    match source {
        Some(e) => {
            let ghost head = out@;
            let text = io_error_text(e);
            out.append(text.as_str());
            proof {
                assert(out@ == head + text@);
            }
        },
        None => {},
    }
    out
}

impl DiscoveryError {
    /// A sentence describing the failure, ending with the underlying I/O
    /// error's own text where there is one.
    pub fn message(&self) -> (r: String)
        ensures
            exists|t: Seq<char>| r@ == discovery_message(*self, t),
            discovery_source(*self) is None ==> r@ == discovery_message(*self, Seq::empty()),
            match discovery_source(*self) {
                Some(e) => match error_message(e) {
                    Some(t) => r@ == discovery_message(*self, t),
                    None => true,
                },
                None => true,
            },
    {
        match self {
            DiscoveryError::Root { path, source } => {
                let r = describe("could not inspect root ", path, ": ", Some(source));
                proof {
                    let t = choose|t: Seq<char>|
                        r@ == "could not inspect root "@ + display_text(buf_spelling(*path)) + ": "@
                            + t;
                    assert(r@ == discovery_message(*self, t));
                }
                r
            },
            DiscoveryError::RootSymlink { path } => {
                let r = describe("root ", path, " is a symlink", None);
                proof {
                    assert(r@ == discovery_message(*self, Seq::empty()));
                }
                r
            },
            DiscoveryError::NotADirectory { path } => {
                let r = describe("root ", path, " is not a directory", None);
                proof {
                    assert(r@ == discovery_message(*self, Seq::empty()));
                }
                r
            },
            DiscoveryError::OpenDir { path, source } => {
                let r = describe("could not open directory ", path, ": ", Some(source));
                proof {
                    let t = choose|t: Seq<char>|
                        r@ == "could not open directory "@ + display_text(buf_spelling(*path))
                            + ": "@ + t;
                    assert(r@ == discovery_message(*self, t));
                }
                r
            },
            DiscoveryError::ReadEntries { path, source } => {
                let r = describe("could not read entries of directory ", path, ": ", Some(source));
                proof {
                    let t = choose|t: Seq<char>|
                        r@ == "could not read entries of directory "@ + display_text(
                            buf_spelling(*path),
                        ) + ": "@ + t;
                    assert(r@ == discovery_message(*self, t));
                }
                r
            },
            DiscoveryError::FileType { path, source } => {
                let r = describe("could not determine file type of ", path, ": ", Some(source));
                proof {
                    let t = choose|t: Seq<char>|
                        r@ == "could not determine file type of "@ + display_text(
                            buf_spelling(*path),
                        ) + ": "@ + t;
                    assert(r@ == discovery_message(*self, t));
                }
                r
            },
        }
    }
}

/// What the caller's filesystem work reported at one step of a walk.
#[derive(Debug)]
pub enum WalkEvent {
    /// The directory the walk asked to open was opened.
    Opened,
    /// Opening that directory failed.
    OpenFailed(std::io::Error),
    /// The directory being read yielded an entry, with what its file type
    /// (which does not follow symlinks) reported.
    Entry { path: PathBuf, is_dir: bool, is_file: bool },
    /// The directory being read has no more entries.
    DirectoryEnd,
    /// Reading the next entry of the directory failed.
    ReadFailed(std::io::Error),
    /// The file type of an entry could not be determined.
    FileTypeFailed { path: PathBuf, error: std::io::Error },
}

/// What the walk asks the caller to do next.
#[derive(Debug)]
pub enum WalkAction {
    /// Open this directory for reading.
    OpenDirectory(PathBuf),
    /// Read the next entry of the directory being read.
    NextEntry,
    /// The walk is over; these are the files, sorted.
    Finished(Vec<PathBuf>),
    /// The walk failed; nothing it collected is returned.
    Fail(DiscoveryError),
}

/// The state of a walk: the files collected so far, the directories being
/// read (outermost first), and the directory the walk has asked to open.
#[derive(Debug)]
pub struct WalkState {
    files: Vec<PathBuf>,
    open: Vec<PathBuf>,
    opening: Option<PathBuf>,
}

pub struct WalkModel {
    pub files: Seq<Seq<u8>>,
    pub open: Seq<Seq<u8>>,
    pub opening: Option<Seq<u8>>,
}

impl View for WalkState {
    type V = WalkModel;

    closed spec fn view(&self) -> WalkModel {
        WalkModel {
            files: buf_spellings(self.files@),
            open: buf_spellings(self.open@),
            opening: match &self.opening {
                Some(p) => Some(buf_spelling(*p)),
                None => None,
            },
        }
    }
}

/// The state of a walk that is over: nothing is kept.
pub open spec fn walk_over() -> WalkModel {
    WalkModel { files: Seq::empty(), open: Seq::empty(), opening: None }
}

/// Whether an event is one the caller can report in this state: the outcome
/// of opening where the walk asked to open a directory, otherwise the
/// outcome of reading the directory being read.
pub open spec fn walk_expects(m: WalkModel, event: WalkEvent) -> bool {
    match event {
        WalkEvent::Opened | WalkEvent::OpenFailed(_) => m.opening is Some,
        _ => m.opening is None && m.open.len() > 0,
    }
}

/// The state after an event. An ordinary directory is to be opened next, an
/// ordinary file is collected, anything else changes nothing; the end of the
/// outermost directory and every failure end the walk.
pub open spec fn walk_next(m: WalkModel, event: WalkEvent) -> WalkModel {
    match event {
        WalkEvent::Opened => WalkModel {
            files: m.files,
            open: m.open.push(m.opening.unwrap()),
            opening: None,
        },
        WalkEvent::Entry { path, is_dir, is_file } => if is_dir {
            WalkModel { files: m.files, open: m.open, opening: Some(buf_spelling(path)) }
        } else if is_file {
            WalkModel { files: m.files.push(buf_spelling(path)), open: m.open, opening: None }
        } else {
            m
        },
        WalkEvent::DirectoryEnd => if m.open.len() <= 1 {
            walk_over()
        } else {
            WalkModel { files: m.files, open: m.open.drop_last(), opening: None }
        },
        _ => walk_over(),
    }
}

/// The state in which a walk of `root` begins: nothing collected, nothing
/// being read, and the root to be opened.
pub open spec fn walk_initial(root: Seq<u8>) -> WalkModel {
    WalkModel { files: Seq::empty(), open: Seq::empty(), opening: Some(root) }
}

/// Starts a walk of `root`: its first step is to open the root.
pub fn walk_start(root: &Path) -> (r: (WalkState, WalkAction))
    ensures
        r.0@ == walk_initial(path_spelling(root)),
        r.1 matches WalkAction::OpenDirectory(p) && buf_spelling(p) == path_spelling(root),
{
    let state = WalkState { files: Vec::new(), open: Vec::new(), opening: Some(owned_path(root)) };
    proof {
        assert(buf_spellings(state.files@) =~= Seq::<Seq<u8>>::empty());
        assert(buf_spellings(state.open@) =~= Seq::<Seq<u8>>::empty());
    }
    (state, WalkAction::OpenDirectory(owned_path(root)))
}

/// Takes one step of a walk from what the caller reported.
///
/// A directory entry is opened next and read before the rest of its parent
/// (depth first); a file entry is collected; a symlink or any other entry is
/// skipped. When the outermost directory ends, the files are handed out
/// sorted. A failure to open a directory, to read an entry, or to determine
/// an entry's type ends the walk with that failure and nothing collected.
pub fn walk_step(state: WalkState, event: WalkEvent) -> (r: (WalkState, WalkAction))
    requires
        walk_expects(state@, event),
    ensures
        r.0@ == walk_next(state@, event),
        match event {
            WalkEvent::Opened => r.1 is NextEntry,
            WalkEvent::OpenFailed(e) => r.1 matches WalkAction::Fail(DiscoveryError::OpenDir { path, source })
                && buf_spelling(path) == state@.opening.unwrap() && source == e,
            WalkEvent::Entry { path, is_dir, is_file } => if is_dir {
                r.1 matches WalkAction::OpenDirectory(p) && p == path
            } else {
                r.1 is NextEntry
            },
            WalkEvent::DirectoryEnd => if state@.open.len() <= 1 {
                r.1 matches WalkAction::Finished(files) && buf_spellings(files@).to_multiset()
                    == state@.files.to_multiset() && forall|i: int, j: int|
                    0 <= i < j < files@.len() ==> path_ordered(
                        #[trigger] buf_spelling(files@[i]),
                        #[trigger] buf_spelling(files@[j]),
                    )
            } else {
                r.1 is NextEntry
            },
            WalkEvent::ReadFailed(e) => r.1 matches WalkAction::Fail(
                DiscoveryError::ReadEntries { path, source },
            ) && buf_spelling(path) == state@.open.last() && source == e,
            WalkEvent::FileTypeFailed { path, error } => r.1 matches WalkAction::Fail(
                DiscoveryError::FileType { path: p, source },
            ) && p == path && source == error,
        },
{
    let ghost before = state@;
    let WalkState { mut files, mut open, opening } = state;
    let done = WalkState { files: Vec::new(), open: Vec::new(), opening: None };
    proof {
        assert(buf_spellings(done.files@) =~= Seq::<Seq<u8>>::empty());
        assert(buf_spellings(done.open@) =~= Seq::<Seq<u8>>::empty());
        assert(done@ == walk_over());
    }
    match event {
        WalkEvent::Opened => {
            let directory = opening.unwrap();
            let ghost open_before = open@;
            open.push(directory);
            let next = WalkState { files, open, opening: None };
            proof {
                assert(buf_spellings(next.open@) =~= buf_spellings(open_before).push(
                    buf_spelling(directory),
                ));
            }
            (next, WalkAction::NextEntry)
        },
        WalkEvent::OpenFailed(source) => {
            let path = opening.unwrap();
            (done, WalkAction::Fail(DiscoveryError::OpenDir { path, source }))
        },
        WalkEvent::Entry { path, is_dir, is_file } => {
            if is_dir {
                let next = WalkState { files, open, opening: Some(path.clone()) };
                (next, WalkAction::OpenDirectory(path))
            } else if is_file {
                let ghost files_before = files@;
                files.push(path);
                let next = WalkState { files, open, opening: None };
                proof {
                    assert(buf_spellings(next.files@) =~= buf_spellings(files_before).push(
                        buf_spelling(path),
                    ));
                }
                (next, WalkAction::NextEntry)
            } else {
                (WalkState { files, open, opening }, WalkAction::NextEntry)
            }
        },
        WalkEvent::DirectoryEnd => {
            if open.len() <= 1 {
                (done, WalkAction::Finished(sort_discovered_files(files)))
            } else {
                let ghost open_before = open@;
                open.pop();
                let next = WalkState { files, open, opening: None };
                proof {
                    assert(buf_spellings(next.open@) =~= buf_spellings(open_before).drop_last());
                }
                (next, WalkAction::NextEntry)
            }
        },
        WalkEvent::ReadFailed(source) => {
            let path = open.pop().unwrap();
            (done, WalkAction::Fail(DiscoveryError::ReadEntries { path, source }))
        },
        WalkEvent::FileTypeFailed { path, error } => {
            (done, WalkAction::Fail(DiscoveryError::FileType { path, source: error }))
        },
    }
}

/// The state reached from `m` by taking the steps of `events` in order.
pub open spec fn walk_run(m: WalkModel, events: Seq<WalkEvent>) -> WalkModel
    decreases events.len(),
{
    if events.len() == 0 {
        m
    } else {
        walk_next(walk_run(m, events.drop_last()), events.last())
    }
}

/// How many directories the caller reported opened.
pub open spec fn opened_count(events: Seq<WalkEvent>) -> nat
    decreases events.len(),
{
    if events.len() == 0 {
        0
    } else {
        opened_count(events.drop_last()) + if events.last() is Opened {
            1nat
        } else {
            0nat
        }
    }
}

/// How many directories the caller reported read to their end.
pub open spec fn ended_count(events: Seq<WalkEvent>) -> nat
    decreases events.len(),
{
    if events.len() == 0 {
        0
    } else {
        ended_count(events.drop_last()) + if events.last() is DirectoryEnd {
            1nat
        } else {
            0nat
        }
    }
}

/// The spellings of the entries reported as ordinary files, in the order in
/// which they were reported.
pub open spec fn reported_files(events: Seq<WalkEvent>) -> Seq<Seq<u8>>
    decreases events.len(),
{
    if events.len() == 0 {
        Seq::empty()
    } else {
        let before = reported_files(events.drop_last());
        match events.last() {
            WalkEvent::Entry { path, is_dir, is_file } => if is_file && !is_dir {
                before.push(buf_spelling(path))
            } else {
                before
            },
            _ => before,
        }
    }
}

/// Whether no event reports a failure.
pub open spec fn failure_free(events: Seq<WalkEvent>) -> bool {
    forall|i: int|
        0 <= i < events.len() ==> !(#[trigger] events[i] is OpenFailed) && !(events[i] is ReadFailed)
            && !(events[i] is FileTypeFailed)
}

/// Whether, after every event, more directories have been opened than have
/// ended: the root, the first directory opened, is still being read.
pub open spec fn root_still_open(events: Seq<WalkEvent>) -> bool {
    forall|k: int|
        1 <= k <= events.len() ==> ended_count(#[trigger] events.take(k)) < opened_count(
            events.take(k),
        )
}

proof fn lemma_prefix_conditions(events: Seq<WalkEvent>)
    requires
        events.len() > 0,
        failure_free(events),
        root_still_open(events),
    ensures
        failure_free(events.drop_last()),
        root_still_open(events.drop_last()),
        events.take(events.len() as int) == events,
        ended_count(events) < opened_count(events),
        !(events.last() is OpenFailed) && !(events.last() is ReadFailed) && !(
        events.last() is FileTypeFailed),
{
    let before = events.drop_last();
    assert forall|i: int| 0 <= i < before.len() implies !(#[trigger] before[i] is OpenFailed)
        && !(before[i] is ReadFailed) && !(before[i] is FileTypeFailed) by {
        assert(before[i] == events[i]);
    }
    assert forall|k: int| 1 <= k <= before.len() implies ended_count(#[trigger] before.take(k))
        < opened_count(before.take(k)) by {
        assert(before.take(k) =~= events.take(k));
    }
    assert(events.take(events.len() as int) =~= events);
    let last = events.len() - 1;
    assert(events.last() == events[last]);
}

/// Law: as long as no failure is reported and the root is still being read,
/// a walk of any root keeps open exactly the directories that were opened
/// and have not ended (one fewer at each end of a directory, however deep),
/// and has collected exactly the entries reported as ordinary files, in the
/// order reported.
pub proof fn walk_tracks_open_directories_and_files(root: Seq<u8>, events: Seq<WalkEvent>)
    requires
        failure_free(events),
        root_still_open(events),
    ensures
        walk_run(walk_initial(root), events).open.len() == opened_count(events) - ended_count(
            events,
        ),
        walk_run(walk_initial(root), events).files == reported_files(events),
    decreases events.len(),
{
    if events.len() > 0 {
        let before = events.drop_last();
        lemma_prefix_conditions(events);
        walk_tracks_open_directories_and_files(root, before);
    }
}

/// Law: once the root has been opened, and as long as no failure is reported
/// and the root is still being read, the end of a directory finishes the
/// walk exactly when it is the end of the root, that is when every other
/// directory opened has ended; the files then handed out are every entry
/// reported as an ordinary file before it.
pub proof fn walk_finishes_exactly_at_the_end_of_the_root(root: Seq<u8>, events: Seq<WalkEvent>)
    requires
        events.len() > 0,
        failure_free(events),
        root_still_open(events),
    ensures
        walk_run(walk_initial(root), events).open.len() <= 1 <==> opened_count(events)
            == ended_count(events) + 1,
        walk_next(walk_run(walk_initial(root), events), WalkEvent::DirectoryEnd) == walk_over()
            <==> opened_count(events) == ended_count(events) + 1,
        walk_run(walk_initial(root), events).files == reported_files(events),
{
    lemma_prefix_conditions(events);
    walk_tracks_open_directories_and_files(root, events);
    let m = walk_run(walk_initial(root), events);
    if m.open.len() > 1 {
        assert(walk_next(m, WalkEvent::DirectoryEnd).open.len() == m.open.len() - 1);
        assert(walk_over().open.len() == 0);
    }
}

/// Law: opening a directory from within another and then reaching its end
/// returns the walk to the directory it came from: the directories being
/// read and the files collected are those from before.
pub proof fn leaving_a_directory_returns_to_its_parent(m: WalkModel)
    requires
        m.opening is Some,
        m.open.len() >= 1,
    ensures
        walk_next(walk_next(m, WalkEvent::Opened), WalkEvent::DirectoryEnd) == (WalkModel {
            files: m.files,
            open: m.open,
            opening: None,
        }),
{
    assert(m.open.push(m.opening.unwrap()).drop_last() =~= m.open);
}

} // verus!
