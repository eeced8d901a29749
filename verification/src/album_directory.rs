//! The pure part of resolving one configured album-directory selector.
//!
//! A configured selector, its effective pathname and its resolved pathname
//! are distinct. [`effective_album_directory`] builds the effective pathname
//! without touching the filesystem: an absolute selector is used as spelled
//! and ignores the source root, a relative one is anchored to the source
//! root. Where the host parses prefixes and roots apart (Windows), only
//! source-root-relative selectors and anchors of supported shapes are
//! admitted; elsewhere every path that has a root is absolute, so nothing
//! more is refused. Resolving the effective pathname (canonicalization and
//! the metadata lookup) is filesystem work done by the caller;
//! [`accept_resolved_directory`] then decides from what the lookup reported.

use crate::paths::{
    buf_spelling, component_prefix, error_message, joined_spelling, leading_prefix, owned_path,
    path_has_root, path_is_absolute, path_is_empty, path_join, path_spelling, raw_os_code,
    reported_kind, spells_absolute, spells_rooted, synthetic_io_error, verbatim, PathPrefix,
    SyntheticErrorKind,
};
use std::path::{Path, PathBuf};
use vstd::prelude::*;

verus! {

/// Whether a source root of this shape can anchor a relative selector. A
/// verbatim prefix never can; another prefix only on a fully absolute root;
/// without a prefix, a root must either have no root component or be
/// absolute (paths rooted on the current drive cannot anchor).
pub open spec fn anchor_admitted(prefix: Option<PathPrefix>, has_root: bool, is_absolute: bool) -> bool {
    match prefix {
        Some(kind) => !verbatim(kind) && is_absolute,
        None => !has_root || is_absolute,
    }
}

/// Whether the path with this spelling can anchor a relative selector.
pub open spec fn anchor_supported(spelling: Seq<u8>) -> bool {
    anchor_admitted(leading_prefix(spelling), spells_rooted(spelling), spells_absolute(spelling))
}

/// What building the effective pathname gives: its spelling, or the message
/// of the `InvalidInput` error. An empty selector is refused first; an
/// absolute one is kept as spelled; a non-absolute one with a root or a
/// prefix is not source-root-relative; a relative one needs a supported
/// anchor, and is then joined to it.
pub open spec fn effective_outcome(source_root: Seq<u8>, selector: Seq<u8>) -> Result<
    Seq<u8>,
    Seq<char>,
> {
    if selector.len() == 0 {
        Err("album directory selector is empty"@)
    } else if spells_absolute(selector) {
        Ok(selector)
    } else if spells_rooted(selector) || leading_prefix(selector) is Some {
        Err("album directory selector is not source-root-relative"@)
    } else if !anchor_supported(source_root) {
        Err("source root is not a supported anchor for a relative album directory selector"@)
    } else {
        Ok(joined_spelling(source_root, selector))
    }
}

/// Why a selector cannot be anchored to a source root.
#[derive(Debug, Clone, Copy, PartialEq, Eq, Structural)]
pub enum SelectorRefusal {
    /// The selector is neither absolute nor source-root-relative: it has a
    /// root or a prefix.
    NotSourceRootRelative,
    /// The source root cannot anchor a relative selector.
    UnsupportedAnchor,
}

/// The refusal, if any, that a nonempty selector meets, from the facts the
/// host's parser reports of it and of the source root: an absolute selector
/// is never refused; otherwise the selector's own form is judged before the
/// anchor's.
pub open spec fn refusal_of(
    selector_absolute: bool,
    selector_has_root: bool,
    selector_prefix: Option<PathPrefix>,
    root_prefix: Option<PathPrefix>,
    root_has_root: bool,
    root_absolute: bool,
) -> Option<SelectorRefusal> {
    if selector_absolute {
        None
    } else if selector_has_root || selector_prefix is Some {
        Some(SelectorRefusal::NotSourceRootRelative)
    } else if !anchor_admitted(root_prefix, root_has_root, root_absolute) {
        Some(SelectorRefusal::UnsupportedAnchor)
    } else {
        None
    }
}

/// The refusal a nonempty selector with these facts meets against a source
/// root with these facts, if any.
pub fn selector_refusal(
    selector_absolute: bool,
    selector_has_root: bool,
    selector_prefix: Option<PathPrefix>,
    root_prefix: Option<PathPrefix>,
    root_has_root: bool,
    root_absolute: bool,
) -> (r: Option<SelectorRefusal>)
    ensures
        r == refusal_of(
            selector_absolute,
            selector_has_root,
            selector_prefix,
            root_prefix,
            root_has_root,
            root_absolute,
        ),
{
    if selector_absolute {
        None
    } else if selector_has_root || selector_prefix.is_some() {
        Some(SelectorRefusal::NotSourceRootRelative)
    } else if !anchor_form_admitted(root_prefix, root_has_root, root_absolute) {
        Some(SelectorRefusal::UnsupportedAnchor)
    } else {
        None
    }
}

/// Whether a source root with these facts can anchor a relative selector.
pub fn anchor_form_admitted(prefix: Option<PathPrefix>, has_root: bool, is_absolute: bool) -> (r:
    bool)
    ensures
        r == anchor_admitted(prefix, has_root, is_absolute),
{
    match prefix {
        Some(kind) => !kind.is_verbatim() && is_absolute,
        None => !has_root || is_absolute,
    }
}

/// Whether `source_root` can anchor a relative selector.
pub fn is_supported_anchor(source_root: &Path) -> (r: bool)
    ensures
        r == anchor_supported(path_spelling(source_root)),
{
    anchor_form_admitted(
        component_prefix(source_root),
        path_has_root(source_root),
        path_is_absolute(source_root),
    )
}

/// Builds the effective pathname for one configured selector without
/// touching the filesystem.
///
/// An empty selector is rejected as `InvalidInput` before anything else. An
/// absolute selector never inspects the source root. A non-absolute selector
/// with a root or a prefix is rejected before the anchor is looked at. A
/// relative selector (including one of whitespace, `.` or `..` components)
/// is joined to a supported source root exactly as spelled.
pub fn effective_album_directory(
    source_root: &Path,
    configured_directory: &Path,
) -> (r: Result<PathBuf, std::io::Error>)
    ensures
        match (r, effective_outcome(path_spelling(source_root), path_spelling(configured_directory))) {
            (Ok(p), Ok(spelling)) => buf_spelling(p) == spelling,
            (Err(e), Err(message)) => {
                &&& reported_kind(e) == Some(SyntheticErrorKind::InvalidInput)
                &&& error_message(e) == Some(message)
                &&& raw_os_code(e) is None
            },
            _ => false,
        },
{
    if path_is_empty(configured_directory) {
        return Err(
            synthetic_io_error(SyntheticErrorKind::InvalidInput, "album directory selector is empty"),
        );
    }
    if path_is_absolute(configured_directory) {
        return Ok(owned_path(configured_directory));
    }
    let refusal = selector_refusal(
        false,
        path_has_root(configured_directory),
        component_prefix(configured_directory),
        component_prefix(source_root),
        path_has_root(source_root),
        path_is_absolute(source_root),
    );
    match refusal {
        Some(SelectorRefusal::NotSourceRootRelative) => Err(
            synthetic_io_error(
                SyntheticErrorKind::InvalidInput,
                "album directory selector is not source-root-relative",
            ),
        ),
        Some(SelectorRefusal::UnsupportedAnchor) => Err(
            synthetic_io_error(
                SyntheticErrorKind::InvalidInput,
                "source root is not a supported anchor for a relative album directory selector",
            ),
        ),
        None => Ok(path_join(source_root, configured_directory)),
    }
}

/// Accepts a resolved pathname only if the metadata lookup through it
/// reported a directory; anything else is `NotADirectory`.
pub fn accept_resolved_directory(resolved_path: PathBuf, is_directory: bool) -> (r: Result<
    PathBuf,
    std::io::Error,
>)
    ensures
        r is Ok <==> is_directory,
        r matches Ok(p) ==> p == resolved_path,
        r matches Err(e) ==> {
            &&& reported_kind(e) == Some(SyntheticErrorKind::NotADirectory)
            &&& error_message(e) == Some("resolved target is not a directory"@)
            &&& raw_os_code(e) is None
        },
{
    if !is_directory {
        return Err(
            synthetic_io_error(
                SyntheticErrorKind::NotADirectory,
                "resolved target is not a directory",
            ),
        );
    }
    Ok(resolved_path)
}

/// An absolute selector's effective pathname is the selector as spelled,
/// whatever the source root.
pub proof fn absolute_selectors_ignore_the_source_root(
    root_a: Seq<u8>,
    root_b: Seq<u8>,
    selector: Seq<u8>,
)
    requires
        selector.len() > 0,
        spells_absolute(selector),
    ensures
        effective_outcome(root_a, selector) == Ok::<Seq<u8>, Seq<char>>(selector),
        effective_outcome(root_a, selector) == effective_outcome(root_b, selector),
{
}

/// An empty selector is refused, whatever the source root, before the
/// anchor is looked at.
pub proof fn empty_selectors_are_refused_before_the_anchor(root: Seq<u8>)
    ensures
        effective_outcome(root, Seq::empty()) == Err::<Seq<u8>, Seq<char>>(
            "album directory selector is empty"@,
        ),
{
}

/// A selector that is not source-root-relative is refused whatever the
/// source root, so its rejection comes before the anchor's.
pub proof fn selector_rejection_precedes_anchor_rejection(root: Seq<u8>, selector: Seq<u8>)
    requires
        selector.len() > 0,
        !spells_absolute(selector),
        spells_rooted(selector) || leading_prefix(selector) is Some,
    ensures
        effective_outcome(root, selector) == Err::<Seq<u8>, Seq<char>>(
            "album directory selector is not source-root-relative"@,
        ),
{
}

} // verus!
