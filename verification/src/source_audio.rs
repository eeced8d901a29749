//! Filepath-based recognition of source-audio candidates among ordinary files.
//!
//! [`classify_source_audio`] inspects a path's final extension and reports
//! whether the pathname names a supported source-audio candidate. A
//! `Some<SourceAudioFormat>` result means the pathname is a supported
//! candidate for later probing.
//!
//! The classifier performs no filesystem, process, or configuration access of
//! any kind and never rewrites paths, so it cannot certify that the file
//! exists, contains audio, or is readable.

use std::path::Path;
use vstd::prelude::*;

use crate::paths::{file_name_spelling, path_file_name, path_spelling};

verus! {

/// A source-audio format recognized by lexical pathname inspection.
#[derive(Debug, Clone, Copy, PartialEq, Eq, Structural)]
pub enum SourceAudioFormat {
    Flac,
}

/// The position of the last `.` in a file name, if any.
pub open spec fn last_dot(name: Seq<u8>) -> Option<int>
    decreases name.len(),
{
    if name.len() == 0 {
        None
    } else if name.last() == 46u8 {
        Some(name.len() - 1)
    } else {
        last_dot(name.drop_last())
    }
}

/// The extension `Path::extension` reports for a file name: the part after
/// the final `.`, unless there is no `.`, the only `.` starts the name, or
/// the name is `..`.
pub open spec fn extension_of(name: Seq<u8>) -> Option<Seq<u8>> {
    if name == seq![46u8, 46u8] {
        None
    } else {
        match last_dot(name) {
            None => None,
            Some(i) => if i == 0 {
                None
            } else {
                Some(name.subrange(i + 1, name.len() as int))
            },
        }
    }
}

/// ASCII lowercase of one byte; other bytes are unchanged.
pub open spec fn ascii_lower(b: u8) -> u8 {
    if 65 <= b <= 90 {
        (b + 32) as u8
    } else {
        b
    }
}

/// Whether an extension spells `flac`, ignoring ASCII case.
pub open spec fn spells_flac(extension: Seq<u8>) -> bool {
    &&& extension.len() == 4
    &&& ascii_lower(extension[0]) == 102u8
    &&& ascii_lower(extension[1]) == 108u8
    &&& ascii_lower(extension[2]) == 97u8
    &&& ascii_lower(extension[3]) == 99u8
}

/// The format a pathname names by its final extension.
pub open spec fn classification(spelling: Seq<u8>) -> Option<SourceAudioFormat> {
    match file_name_spelling(spelling) {
        Some(name) => match extension_of(name) {
            Some(extension) => if spells_flac(extension) {
                Some(SourceAudioFormat::Flac)
            } else {
                None
            },
            None => None,
        },
        None => None,
    }
}

fn last_dot_position(name: &Vec<u8>) -> (r: Option<usize>)
    ensures
        match last_dot(name@) {
            Some(i) => r == Some(i as usize) && i == r.unwrap() as int && 0 <= i < name@.len(),
            None => r is None,
        },
{
    let mut n: usize = name.len();
    proof {
        assert(name@.take(n as int) =~= name@);
    }
    while n > 0
        invariant
            n <= name.len(),
            last_dot(name@) == last_dot(name@.take(n as int)),
        decreases n,
    {
        proof {
            assert(name@.take(n as int).last() == name@[n - 1]);
            assert(name@.take(n as int).drop_last() =~= name@.take(n - 1));
        }
        if name[n - 1] == 46u8 {
            return Some(n - 1);
        }
        n = n - 1;
    }
    None
}

fn lower(b: u8) -> (r: u8)
    ensures
        r == ascii_lower(b),
{
    if 65 <= b && b <= 90 {
        b + 32
    } else {
        b
    }
}

/// Compares an extension against `flac` ASCII-case-insensitively.
fn is_flac_extension(name: &Vec<u8>, start: usize) -> (r: bool)
    requires
        start <= name@.len(),
    ensures
        r == spells_flac(name@.subrange(start as int, name@.len() as int)),
{
    if name.len() - start != 4 {
        return false;
    }
    lower(name[start]) == 102u8 && lower(name[start + 1]) == 108u8 && lower(name[start + 2]) == 97u8
        && lower(name[start + 3]) == 99u8
}

/// Recognizes a pathname as a supported source-audio candidate. Compares
/// ASCII-case-insensitively.
///
/// Only the final extension is examined, as [`Path::extension`] reports it,
/// so a bare dotfile such as `.flac` has no extension and returns [`None`],
/// while `.hidden.flac` returns [`SourceAudioFormat::Flac`]. A non-UTF-8
/// basename with an ordinary ASCII extension remains eligible. Existence,
/// file type, contents, and metadata are never inspected.
pub fn classify_source_audio(path: &Path) -> (r: Option<SourceAudioFormat>)
    ensures
        r == classification(path_spelling(path)),
{
    let name = match path_file_name(path) {
        Some(name) => name,
        None => {
            return None;
        },
    };
    if name.len() == 2 && name[0] == 46u8 && name[1] == 46u8 {
        proof {
            assert(name@ =~= seq![46u8, 46u8]);
        }
        return None;
    }
    let dot = match last_dot_position(&name) {
        Some(dot) => dot,
        None => {
            return None;
        },
    };
    if dot == 0 {
        return None;
    }
    if is_flac_extension(&name, dot + 1) {
        Some(SourceAudioFormat::Flac)
    } else {
        None
    }
}

} // verus!
