//! The path-form policy for album-directory selectors, their source-root
//! anchors and default roots, decided from the facts the host's path parser
//! reports. The Windows cases give the facts Windows reports for each
//! spelling (prefix kind, `has_root`, `is_absolute`, and whether a root
//! component follows the prefix), so the policy is exercised on any host;
//! the last tests use this host's own parsing.

use std::path::Path;

use scarab::album_directory::{
    anchor_form_admitted, is_supported_anchor, selector_refusal, SelectorRefusal,
};
use scarab::album_scope::{default_root_form_admitted, default_root_form_supported};
use scarab::PathPrefix;

/// A spelling with the facts Windows parses from it.
struct Facts {
    literal: &'static str,
    prefix: Option<PathPrefix>,
    has_root: bool,
    is_absolute: bool,
    root_after_prefix: bool,
}

const fn facts(
    literal: &'static str,
    prefix: Option<PathPrefix>,
    has_root: bool,
    is_absolute: bool,
    root_after_prefix: bool,
) -> Facts {
    Facts {
        literal,
        prefix,
        has_root,
        is_absolute,
        root_after_prefix,
    }
}

const ORDINARY: Facts = facts("ordinary", None, false, false, false);
const LATERALUS: Facts = facts("Lateralus", None, false, false, false);

fn refusal(selector: &Facts, root: &Facts) -> Option<SelectorRefusal> {
    selector_refusal(
        selector.is_absolute,
        selector.has_root,
        selector.prefix,
        root.prefix,
        root.has_root,
        root.is_absolute,
    )
}

fn anchors(root: &Facts) -> bool {
    anchor_form_admitted(root.prefix, root.has_root, root.is_absolute)
}

fn admitted_as_default_root(case: &Facts) -> bool {
    default_root_form_admitted(
        case.prefix,
        case.has_root,
        case.is_absolute,
        case.root_after_prefix,
    )
}

/// The four partially qualified forms: rooted on the current drive, or
/// relative to a drive's current directory.
fn partially_qualified() -> [Facts; 4] {
    [
        facts(r"\foo", None, true, false, false),
        facts("/foo", None, true, false, false),
        facts("C:foo", Some(PathPrefix::Disk), false, false, false),
        facts("C:", Some(PathPrefix::Disk), false, false, false),
    ]
}

#[test]
fn partially_qualified_configured_selectors_are_rejected() {
    for selector in &partially_qualified() {
        assert!(!selector.is_absolute, "{:?} must be nonabsolute", selector.literal);
        assert_eq!(
            refusal(selector, &ORDINARY),
            Some(SelectorRefusal::NotSourceRootRelative),
            "selector {:?}",
            selector.literal
        );
    }
}

#[test]
fn partially_qualified_source_roots_are_rejected_for_relative_selectors() {
    for root in &partially_qualified() {
        assert!(!anchors(root), "{:?} must not anchor", root.literal);
        assert_eq!(
            refusal(&LATERALUS, root),
            Some(SelectorRefusal::UnsupportedAnchor),
            "anchor {:?}",
            root.literal
        );
    }
}

#[test]
fn selector_rejection_precedes_anchor_rejection() {
    let pairs = [
        (
            facts("C:", Some(PathPrefix::Disk), false, false, false),
            facts("C:foo", Some(PathPrefix::Disk), false, false, false),
        ),
        (
            facts(r"\rooted", None, true, false, false),
            facts(r"\foo", None, true, false, false),
        ),
    ];
    for (anchor, selector) in &pairs {
        assert!(!anchors(anchor));
        assert_eq!(
            refusal(selector, anchor),
            Some(SelectorRefusal::NotSourceRootRelative),
            "selector {:?} against {:?}",
            selector.literal,
            anchor.literal
        );
    }
}

#[test]
fn supported_source_root_anchors_accept_ordinary_relative_selectors() {
    let supported = [
        facts("", None, false, false, false),
        facts("music", None, false, false, false),
        facts(r"C:\Music", Some(PathPrefix::Disk), true, true, true),
        facts("C:/Music", Some(PathPrefix::Disk), true, true, true),
        facts(r"\\server\share\Music", Some(PathPrefix::UNC), true, true, true),
        facts(r"\\.\C:\Music", Some(PathPrefix::DeviceNS), true, true, true),
    ];
    for root in &supported {
        assert!(anchors(root), "{:?} must anchor", root.literal);
        assert_eq!(refusal(&LATERALUS, root), None, "anchor {:?}", root.literal);
    }
}

#[test]
fn verbatim_source_root_anchors_are_rejected() {
    let verbatim = [
        facts(r"\\?\C:\Music", Some(PathPrefix::VerbatimDisk), true, true, true),
        facts(r"\\?\UNC\server\share\Music", Some(PathPrefix::VerbatimUNC), true, true, true),
        facts(r"\\?\cat_pics\Music", Some(PathPrefix::Verbatim), true, true, true),
    ];
    for root in &verbatim {
        assert!(root.prefix.expect("a prefix").is_verbatim());
        assert_eq!(
            refusal(&LATERALUS, root),
            Some(SelectorRefusal::UnsupportedAnchor),
            "anchor {:?}",
            root.literal
        );
    }
}

#[test]
fn absolute_configured_selectors_bypass_source_root_policy() {
    let rejected_anchor = facts("C:", Some(PathPrefix::Disk), false, false, false);
    assert!(!anchors(&rejected_anchor));

    let absolute = [
        facts(r"C:\Music", Some(PathPrefix::Disk), true, true, true),
        facts("C:/Music", Some(PathPrefix::Disk), true, true, true),
        facts(r"\\server\share\Music", Some(PathPrefix::UNC), true, true, true),
        facts(r"\\?\C:\Music", Some(PathPrefix::VerbatimDisk), true, true, true),
        facts(r"\\?\UNC\server\share\Music", Some(PathPrefix::VerbatimUNC), true, true, true),
        facts(r"\\?\cat_pics\Music", Some(PathPrefix::Verbatim), true, true, true),
        facts(r"\\.\C:\Music", Some(PathPrefix::DeviceNS), true, true, true),
    ];
    for selector in &absolute {
        assert_eq!(
            refusal(selector, &rejected_anchor),
            None,
            "selector {:?}",
            selector.literal
        );
    }
}

#[test]
fn verbatim_disk_without_root_follows_native_classification() {
    // Native parsing treats every prefix but a plain drive as rooted, so
    // `\\?\C:` is absolute and bypasses the anchor.
    let bare = facts(r"\\?\C:", Some(PathPrefix::VerbatimDisk), true, true, false);
    let drive = facts("C:", Some(PathPrefix::Disk), false, false, false);
    assert_eq!(refusal(&bare, &drive), None);
    // Ordinary `C:` remains rejected as a configured selector.
    assert_eq!(
        refusal(&drive, &ORDINARY),
        Some(SelectorRefusal::NotSourceRootRelative)
    );
}

#[test]
fn admitted_default_source_root_forms() {
    let admitted = [
        facts("music", None, false, false, false),
        facts("music/root", None, false, false, false),
        facts(".", None, false, false, false),
        facts("..", None, false, false, false),
        facts("~", None, false, false, false),
        facts(r"~\Music", None, false, false, false),
        facts("   ", None, false, false, false),
        facts(r"C:\Music", Some(PathPrefix::Disk), true, true, true),
        facts("C:/Music", Some(PathPrefix::Disk), true, true, true),
        facts(r"\\server\share\Music", Some(PathPrefix::UNC), true, true, true),
        facts(r"\\server\share", Some(PathPrefix::UNC), true, true, false),
        facts(r"\\?\C:\Music", Some(PathPrefix::VerbatimDisk), true, true, true),
        facts(r"\\?\UNC\server\share\Music", Some(PathPrefix::VerbatimUNC), true, true, true),
    ];
    for case in &admitted {
        assert!(admitted_as_default_root(case), "{:?} must be admitted", case.literal);
    }
}

#[test]
fn rejected_default_source_root_forms() {
    let rejected = [
        facts("C:", Some(PathPrefix::Disk), false, false, false),
        facts("C:Music", Some(PathPrefix::Disk), false, false, false),
        facts(r"\Music", None, true, false, false),
        facts("/Music", None, true, false, false),
        facts(r"\\.\C:\Music", Some(PathPrefix::DeviceNS), true, true, true),
        facts(r"\\?\cat_pics", Some(PathPrefix::Verbatim), true, true, false),
        facts(r"\\?\cat_pics\Music", Some(PathPrefix::Verbatim), true, true, true),
        facts(r"\\?\C:", Some(PathPrefix::VerbatimDisk), true, true, false),
    ];
    for case in &rejected {
        assert!(!admitted_as_default_root(case), "{:?} must be rejected", case.literal);
    }
}

#[test]
fn partially_qualified_forms_are_native_nonabsolute_and_rejected() {
    let cases = [
        facts("C:", Some(PathPrefix::Disk), false, false, false),
        facts("C:Music", Some(PathPrefix::Disk), false, false, false),
        facts(r"\Music", None, true, false, false),
        facts("/Music", None, true, false, false),
    ];
    for case in &cases {
        assert!(!case.is_absolute, "{:?} must be nonabsolute", case.literal);
        assert!(!admitted_as_default_root(case), "{:?} must be rejected", case.literal);
    }
}

#[test]
fn unsupported_default_root_form_is_typed_without_filesystem_work() {
    // A drive-relative root is refused on its form alone; no probe of the
    // filesystem is asked for such a root.
    let drive_relative = facts("C:", Some(PathPrefix::Disk), false, false, false);
    assert!(!admitted_as_default_root(&drive_relative));
}

#[test]
fn bare_verbatim_disk_is_native_absolute_but_rejected() {
    let bare = facts(r"\\?\C:", Some(PathPrefix::VerbatimDisk), true, true, false);
    assert!(bare.is_absolute, "native classification precondition");
    assert!(!admitted_as_default_root(&bare));

    let rooted = facts(r"\\?\C:\Music", Some(PathPrefix::VerbatimDisk), true, true, true);
    assert!(admitted_as_default_root(&rooted));
}

#[test]
fn verbatim_prefixes_are_the_verbatim_forms() {
    assert!(PathPrefix::Verbatim.is_verbatim());
    assert!(PathPrefix::VerbatimUNC.is_verbatim());
    assert!(PathPrefix::VerbatimDisk.is_verbatim());
    assert!(!PathPrefix::DeviceNS.is_verbatim());
    assert!(!PathPrefix::UNC.is_verbatim());
    assert!(!PathPrefix::Disk.is_verbatim());
}

#[test]
fn host_roots_that_parse_no_prefix_are_admitted() {
    // Every path with a root component is absolute where no prefixes are
    // parsed, so neither policy refuses a form on such a host.
    for literal in ["music", "", "/music", "./music", "   "] {
        let path = Path::new(literal);
        if path.has_root() && !path.is_absolute() {
            continue;
        }
        assert!(is_supported_anchor(path), "{literal:?} must anchor");
        if !literal.is_empty() {
            assert!(default_root_form_supported(path), "{literal:?} must be admitted");
        }
    }
}
