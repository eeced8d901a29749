//! What probing a source file reports, as plain values.
//!
//! Running ffprobe and reading its JSON response is process work done by
//! the caller; the library holds the result.

use crate::paths::{buf_spelling, owned_path, path_spelling};
use std::path::{Path, PathBuf};
use std::time::Duration;
use vstd::prelude::*;

verus! {

/// ffprobe's view of one source file.
#[derive(Debug, Clone, PartialEq, Eq)]
pub struct ProbedTrack {
    /// The unmodified path that was probed.
    pub path: PathBuf,
    /// The format tags ffprobe reported, keys and values exactly as reported,
    /// in key order. A missing tags field yields no tags.
    pub tags: Vec<(String, String)>,
    /// The format duration ffprobe reported, if any.
    pub duration: Option<Duration>,
}

/// The description of a probed file: the path exactly as supplied (never
/// canonicalized, absolutized or otherwise rewritten), with the tags and the
/// duration ffprobe reported.
pub fn probed_track(path: &Path, tags: Vec<(String, String)>, duration: Option<Duration>) -> (r:
    ProbedTrack)
    ensures
        buf_spelling(r.path) == path_spelling(path),
        r.tags == tags,
        r.duration == duration,
{
    ProbedTrack { path: owned_path(path), tags, duration }
}

} // verus!
