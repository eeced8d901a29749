//! Inventory of ordinary files observed under the required album scopes.
//!
//! Preparation must succeed before discovery starts, and any scan failure
//! yields diagnostics without a partial inventory. Observed pathnames that
//! are equal under `Path`'s own equality share one candidate, which keeps
//! one observed spelling and every distinct scope that reported it. A
//! successful inventory covers every required scope, even an empty one. A
//! scope association does not establish album membership.

use crate::album_scope;
use crate::album_scope::{DefaultScopeModel, ScopeModel};
use crate::config::{spellings, AlbumModel};
use crate::discovery::DiscoveryError;
use crate::paths::{borrow_path, buf_spelling, path_spelling, paths_equal, same_path};
use crate::required_discovery;
use crate::text::{append_decimal, decimal};
use std::path::{Path, PathBuf};
use vstd::prelude::*;

verus! {

/// Description of a required scan scope.
///
/// It appears in `covered_scopes` only after all required scans succeed.
#[derive(Debug, Clone, PartialEq, Eq)]
pub enum RequiredScope {
    /// One configured selector group for an album.
    ConfiguredDirectory {
        /// Album that owns this scope.
        album_handle: String,
        /// Resolved path for this group.
        resolved_directory: PathBuf,
        /// Selector spellings in declaration order, including duplicates.
        contributing_selectors: Vec<PathBuf>,
    },
    /// Shared root for albums without selectors.
    DefaultSourceRoot {
        /// Source-root spelling supplied by the caller.
        original_source_root: PathBuf,
        /// Resolved path used for scanning.
        resolved_traversal_root: PathBuf,
        /// Albums that use this scope, in declaration order.
        dependent_album_handles: Vec<String>,
    },
}

pub enum RequiredScopeModel {
    ConfiguredDirectory(ScopeModel),
    DefaultSourceRoot(DefaultScopeModel),
}

impl View for RequiredScope {
    type V = RequiredScopeModel;

    open spec fn view(&self) -> RequiredScopeModel {
        match self {
            RequiredScope::ConfiguredDirectory {
                album_handle,
                resolved_directory,
                contributing_selectors,
            } => RequiredScopeModel::ConfiguredDirectory(
                ScopeModel {
                    album_handle: album_handle@,
                    resolved: buf_spelling(*resolved_directory),
                    selectors: spellings(contributing_selectors@),
                },
            ),
            RequiredScope::DefaultSourceRoot {
                original_source_root,
                resolved_traversal_root,
                dependent_album_handles,
            } => RequiredScopeModel::DefaultSourceRoot(
                DefaultScopeModel {
                    original_root: buf_spelling(*original_source_root),
                    resolved_root: buf_spelling(*resolved_traversal_root),
                    dependents: dependent_album_handles.deep_view(),
                },
            ),
        }
    }
}

pub open spec fn required_scope_models(scopes: Seq<RequiredScope>) -> Seq<RequiredScopeModel> {
    scopes.map_values(|s: RequiredScope| s@)
}

/// Configured selectors in one album that resolve to the same directory.
#[derive(Debug, Clone, PartialEq, Eq)]
pub struct RedundantConfiguredSelectors {
    /// Album with redundant selectors.
    pub album_handle: String,
    /// Shared resolved path.
    pub resolved_directory: PathBuf,
    /// Selector spellings in declaration order, including duplicates.
    pub contributing_selectors: Vec<PathBuf>,
}

impl View for RedundantConfiguredSelectors {
    type V = ScopeModel;

    open spec fn view(&self) -> ScopeModel {
        ScopeModel {
            album_handle: self.album_handle@,
            resolved: buf_spelling(self.resolved_directory),
            selectors: spellings(self.contributing_selectors@),
        }
    }
}

pub open spec fn redundancy_models(warnings: Seq<RedundantConfiguredSelectors>) -> Seq<ScopeModel> {
    warnings.map_values(|w: RedundantConfiguredSelectors| w@)
}

/// A configured selector that failed to resolve.
#[derive(Debug)]
pub struct ConfiguredSelectorFailure {
    /// Album that owns the failed selector.
    pub album_handle: String,
    /// Selector spelling from the configuration.
    pub configured_selector: PathBuf,
    /// Error returned by the resolver.
    pub error: std::io::Error,
}

/// Failure to prepare the shared default source root.
#[derive(Debug)]
pub struct DefaultSourceRootFailure {
    /// Source-root spelling supplied by the caller.
    pub original_source_root: PathBuf,
    /// Albums affected by the failure, in declaration order.
    pub dependent_album_handles: Vec<String>,
    /// Reason preparation failed.
    pub kind: DefaultSourceRootFailureKind,
}

/// Reason default source root preparation failed.
#[derive(Debug)]
pub enum DefaultSourceRootFailureKind {
    /// The supplied root is empty.
    EmptyInput,
    /// The path form is not allowed on this host.
    UnsupportedPathForm,
    /// Resolving the supplied root failed.
    ResolutionFailed {
        /// Filesystem error from resolution.
        error: std::io::Error,
    },
    /// Inspecting the resolved path failed.
    ResolvedPathInspectionFailed {
        /// Path that could not be inspected.
        resolved_path: PathBuf,
        /// Filesystem error from inspection.
        error: std::io::Error,
    },
    /// The resolved path is not a directory.
    ResolvedTargetNotDirectory {
        /// Path that is not a directory.
        resolved_path: PathBuf,
    },
}

/// A required scope whose scan failed.
#[derive(Debug)]
pub struct RequiredScopeDiscoveryFailure {
    /// Complete affected scope description.
    pub scope: RequiredScope,
    /// Original discovery error.
    pub error: DiscoveryError,
}

/// The public form of a redundancy warning: the same fields.
pub open spec fn public_warning(w: album_scope::RedundancyWarning) -> RedundantConfiguredSelectors {
    RedundantConfiguredSelectors {
        album_handle: w.album_handle,
        resolved_directory: w.resolved_directory,
        contributing_selectors: w.contributing_selectors,
    }
}

/// The public form of a selector failure: the same fields.
pub open spec fn public_selector_failure(f: album_scope::ConfiguredSelectorFailure) -> ConfiguredSelectorFailure {
    ConfiguredSelectorFailure {
        album_handle: f.album_handle,
        configured_selector: f.configured_selector,
        error: f.error,
    }
}

/// The public form of a failure kind: the same variant and fields.
pub open spec fn public_kind(k: album_scope::DefaultSourceRootFailureKind) -> DefaultSourceRootFailureKind {
    match k {
        album_scope::DefaultSourceRootFailureKind::EmptyInput => DefaultSourceRootFailureKind::EmptyInput,
        album_scope::DefaultSourceRootFailureKind::UnsupportedPathForm => {
            DefaultSourceRootFailureKind::UnsupportedPathForm
        },
        album_scope::DefaultSourceRootFailureKind::ResolutionFailed { error } => {
            DefaultSourceRootFailureKind::ResolutionFailed { error }
        },
        album_scope::DefaultSourceRootFailureKind::ResolvedPathInspectionFailed {
            resolved_path,
            error,
        } => DefaultSourceRootFailureKind::ResolvedPathInspectionFailed { resolved_path, error },
        album_scope::DefaultSourceRootFailureKind::ResolvedTargetNotDirectory { resolved_path } => {
            DefaultSourceRootFailureKind::ResolvedTargetNotDirectory { resolved_path }
        },
    }
}

/// The public form of a default-root failure: the same fields.
pub open spec fn public_default_failure(f: album_scope::DefaultSourceRootFailure) -> DefaultSourceRootFailure {
    DefaultSourceRootFailure {
        original_source_root: f.original_source_root,
        dependent_album_handles: f.dependent_album_handles,
        kind: public_kind(f.kind),
    }
}

/// The description of a configured scope: the same fields.
pub open spec fn configured_description(s: album_scope::ConfiguredDirectoryScope) -> RequiredScope {
    RequiredScope::ConfiguredDirectory {
        album_handle: s.album_handle,
        resolved_directory: s.resolved_directory,
        contributing_selectors: s.contributing_selectors,
    }
}

/// The description of the default scope: the same fields.
pub open spec fn default_description(s: album_scope::DefaultSourceRootScope) -> RequiredScope {
    RequiredScope::DefaultSourceRoot {
        original_source_root: s.original_source_root,
        resolved_traversal_root: s.resolved_traversal_root,
        dependent_album_handles: s.dependent_album_handles,
    }
}

/// The public scan failures: configured ones in order, then the default one.
pub open spec fn public_discovery_failures(f: required_discovery::RequiredFailures) -> Seq<
    RequiredScopeDiscoveryFailure,
> {
    f.configured@.map_values(
        |c: required_discovery::ConfiguredScopeFailure|
            RequiredScopeDiscoveryFailure { scope: configured_description(c.scope), error: c.error },
    ) + match f.default_root {
        Some(d) => seq![
            RequiredScopeDiscoveryFailure { scope: default_description(d.scope), error: d.error },
        ],
        None => Seq::empty(),
    }
}

/// Converts preparation warnings to their public form, keeping their order.
pub fn warnings_from_private(warnings: Vec<album_scope::RedundancyWarning>) -> (r: Vec<
    RedundantConfiguredSelectors,
>)
    ensures
        r@ == warnings@.map_values(|w: album_scope::RedundancyWarning| public_warning(w)),
{
    let ghost given = warnings@;
    let mut remaining = warnings;
    let mut converted: Vec<RedundantConfiguredSelectors> = Vec::new();
    proof {
        assert(given.skip(0) =~= given);
    }
    while remaining.len() > 0
        invariant
            remaining@ == given.skip(converted@.len() as int),
            converted@.len() <= given.len(),
            converted@ =~= given.take(converted@.len() as int).map_values(
                |w: album_scope::RedundancyWarning| public_warning(w),
            ),
        decreases remaining@.len(),
    {
        let ghost k = converted@.len() as int;
        let warning = remaining.remove(0);
        proof {
            assert(warning == given[k]);
            assert(remaining@ =~= given.skip(k + 1));
        }
        converted.push(
            RedundantConfiguredSelectors {
                album_handle: warning.album_handle,
                resolved_directory: warning.resolved_directory,
                contributing_selectors: warning.contributing_selectors,
            },
        );
        proof {
            assert(given.take(k + 1) =~= given.take(k).push(given[k]));
        }
    }
    proof {
        assert(given.take(converted@.len() as int) =~= given);
    }
    converted
}

/// Converts one selector failure to its public form.
pub fn configured_failure_from_private(failure: album_scope::ConfiguredSelectorFailure) -> (r:
    ConfiguredSelectorFailure)
    ensures
        r == public_selector_failure(failure),
{
    ConfiguredSelectorFailure {
        album_handle: failure.album_handle,
        configured_selector: failure.configured_selector,
        error: failure.error,
    }
}

/// Converts selector failures to their public form, keeping their order.
fn configured_failures_from_private(failures: Vec<album_scope::ConfiguredSelectorFailure>) -> (r:
    Vec<ConfiguredSelectorFailure>)
    ensures
        r@ == failures@.map_values(
            |f: album_scope::ConfiguredSelectorFailure| public_selector_failure(f),
        ),
{
    let ghost given = failures@;
    let mut remaining = failures;
    let mut converted: Vec<ConfiguredSelectorFailure> = Vec::new();
    proof {
        assert(given.skip(0) =~= given);
    }
    while remaining.len() > 0
        invariant
            remaining@ == given.skip(converted@.len() as int),
            converted@.len() <= given.len(),
            converted@ =~= given.take(converted@.len() as int).map_values(
                |f: album_scope::ConfiguredSelectorFailure| public_selector_failure(f),
            ),
        decreases remaining@.len(),
    {
        let ghost k = converted@.len() as int;
        let failure = remaining.remove(0);
        proof {
            assert(failure == given[k]);
            assert(remaining@ =~= given.skip(k + 1));
        }
        converted.push(configured_failure_from_private(failure));
        proof {
            assert(given.take(k + 1) =~= given.take(k).push(given[k]));
        }
    }
    proof {
        assert(given.take(converted@.len() as int) =~= given);
    }
    converted
}

/// Converts a default-root failure to its public form, variant for variant.
pub fn default_failure_from_private(failure: album_scope::DefaultSourceRootFailure) -> (r:
    DefaultSourceRootFailure)
    ensures
        r == public_default_failure(failure),
{
    let kind = match failure.kind {
        album_scope::DefaultSourceRootFailureKind::EmptyInput => DefaultSourceRootFailureKind::EmptyInput,
        album_scope::DefaultSourceRootFailureKind::UnsupportedPathForm => {
            DefaultSourceRootFailureKind::UnsupportedPathForm
        },
        album_scope::DefaultSourceRootFailureKind::ResolutionFailed { error } => {
            DefaultSourceRootFailureKind::ResolutionFailed { error }
        },
        album_scope::DefaultSourceRootFailureKind::ResolvedPathInspectionFailed {
            resolved_path,
            error,
        } => DefaultSourceRootFailureKind::ResolvedPathInspectionFailed { resolved_path, error },
        album_scope::DefaultSourceRootFailureKind::ResolvedTargetNotDirectory { resolved_path } => {
            DefaultSourceRootFailureKind::ResolvedTargetNotDirectory { resolved_path }
        },
    };
    DefaultSourceRootFailure {
        original_source_root: failure.original_source_root,
        dependent_album_handles: failure.dependent_album_handles,
        kind,
    }
}

/// Converts scan failures to their public form: the configured ones in
/// order, then the default one; each keeps its full scope description and
/// its original error.
pub fn discovery_failures_from_private(failures: required_discovery::RequiredFailures) -> (r: Vec<
    RequiredScopeDiscoveryFailure,
>)
    ensures
        r@ == public_discovery_failures(failures),
{
    let ghost given = failures.configured@;
    let ghost whole = failures;
    let required_discovery::RequiredFailures { configured, default_root } = failures;
    let mut remaining = configured;
    let mut converted: Vec<RequiredScopeDiscoveryFailure> = Vec::new();
    proof {
        assert(given.skip(0) =~= given);
    }
    while remaining.len() > 0
        invariant
            remaining@ == given.skip(converted@.len() as int),
            converted@.len() <= given.len(),
            converted@ =~= given.take(converted@.len() as int).map_values(
                |c: required_discovery::ConfiguredScopeFailure|
                    RequiredScopeDiscoveryFailure {
                        scope: configured_description(c.scope),
                        error: c.error,
                    },
            ),
        decreases remaining@.len(),
    {
        let ghost k = converted@.len() as int;
        let failure = remaining.remove(0);
        proof {
            assert(failure == given[k]);
            assert(remaining@ =~= given.skip(k + 1));
        }
        let required_discovery::ConfiguredScopeFailure { scope, error } = failure;
        converted.push(
            RequiredScopeDiscoveryFailure {
                scope: RequiredScope::ConfiguredDirectory {
                    album_handle: scope.album_handle,
                    resolved_directory: scope.resolved_directory,
                    contributing_selectors: scope.contributing_selectors,
                },
                error,
            },
        );
        proof {
            assert(given.take(k + 1) =~= given.take(k).push(given[k]));
        }
    }
    proof {
        assert(given.take(converted@.len() as int) =~= given);
    }
    let ghost configured_part = converted@;
    match default_root {
        Some(failure) => {
            let required_discovery::DefaultScopeFailure { scope, error } = failure;
            converted.push(
                RequiredScopeDiscoveryFailure {
                    scope: RequiredScope::DefaultSourceRoot {
                        original_source_root: scope.original_source_root,
                        resolved_traversal_root: scope.resolved_traversal_root,
                        dependent_album_handles: scope.dependent_album_handles,
                    },
                    error,
                },
            );
            proof {
                assert(converted@ =~= public_discovery_failures(whole));
            }
        },
        None => {
            proof {
                assert(converted@ =~= public_discovery_failures(whole));
            }
        },
    }
    converted
}

/// One candidate as the contracts see it: its kept spelling and the indices
/// of the scopes that reported it.
pub struct CandidateModel {
    pub path: Seq<u8>,
    pub scope_indices: Seq<usize>,
}

pub open spec fn entry_models(entries: Seq<(PathBuf, Vec<usize>)>) -> Seq<CandidateModel> {
    entries.map_values(
        |e: (PathBuf, Vec<usize>)| CandidateModel { path: buf_spelling(e.0), scope_indices: e.1@ },
    )
}

/// The spellings each scope reported, scope by scope.
pub open spec fn observation_spellings(files: Seq<Vec<PathBuf>>) -> Seq<Seq<Seq<u8>>> {
    files.map_values(|v: Vec<PathBuf>| spellings(v@))
}

/// Scope `s` reported a path equal to `p`.
pub open spec fn reported(obs: Seq<Seq<Seq<u8>>>, s: int, p: Seq<u8>) -> bool {
    &&& 0 <= s < obs.len()
    &&& exists|f: int| 0 <= f < obs[s].len() && same_path(#[trigger] obs[s][f], p)
}

/// No two candidates have equal paths.
#[verifier::opaque]
pub open spec fn paths_distinct(cands: Seq<CandidateModel>) -> bool {
    forall|c: int, d: int|
        0 <= c < d < cands.len() ==> !same_path(#[trigger] cands[c].path, #[trigger] cands[d].path)
}

/// No candidate lists a scope twice.
#[verifier::opaque]
pub open spec fn associations_unique(cands: Seq<CandidateModel>) -> bool {
    forall|c: int| 0 <= c < cands.len() ==> (#[trigger] cands[c]).scope_indices.no_duplicates()
}

/// Some scope reported exactly the spelling `p`.
pub open spec fn spelled(obs: Seq<Seq<Seq<u8>>>, p: Seq<u8>) -> bool {
    exists|s: int, f: int| 0 <= s < obs.len() && 0 <= f < obs[s].len() && #[trigger] obs[s][f] == p
}

/// Each candidate keeps a spelling that some scope reported.
#[verifier::opaque]
pub open spec fn representatives_observed(cands: Seq<CandidateModel>, obs: Seq<Seq<Seq<u8>>>) -> bool {
    forall|c: int| 0 <= c < cands.len() ==> spelled(obs, #[trigger] cands[c].path)
}

/// Each scope a candidate lists reported a path equal to the candidate's.
#[verifier::opaque]
pub open spec fn associations_reported(cands: Seq<CandidateModel>, obs: Seq<Seq<Seq<u8>>>) -> bool {
    forall|c: int, k: int|
        0 <= c < cands.len() && 0 <= k < cands[c].scope_indices.len() ==> reported(
            obs,
            (#[trigger] cands[c].scope_indices[k]) as int,
            cands[c].path,
        )
}

/// Each scope that reported a path equal to a candidate's is listed by it.
#[verifier::opaque]
pub open spec fn reports_associated(cands: Seq<CandidateModel>, obs: Seq<Seq<Seq<u8>>>) -> bool {
    forall|c: int, s: int|
        0 <= c < cands.len() && #[trigger] reported(obs, s, cands[c].path) ==> cands[c].scope_indices.contains(
            s as usize,
        )
}

/// Some candidate's path equals `p`.
pub open spec fn has_candidate(cands: Seq<CandidateModel>, p: Seq<u8>) -> bool {
    exists|c: int| 0 <= c < cands.len() && same_path(#[trigger] cands[c].path, p)
}

/// Every observation has a candidate with an equal path.
#[verifier::opaque]
pub open spec fn observations_covered(cands: Seq<CandidateModel>, obs: Seq<Seq<Seq<u8>>>) -> bool {
    forall|s: int, f: int|
        0 <= s < obs.len() && 0 <= f < obs[s].len() ==> has_candidate(cands, #[trigger] obs[s][f])
}

/// The candidates describe the observations exactly: no two candidates
/// have equal paths; each keeps a spelling some scope reported; each is
/// associated, once each, with exactly the scopes that reported an equal
/// path; and every observation has its candidate.
pub open spec fn aggregates(cands: Seq<CandidateModel>, obs: Seq<Seq<Seq<u8>>>) -> bool {
    &&& paths_distinct(cands)
    &&& associations_unique(cands)
    &&& representatives_observed(cands, obs)
    &&& associations_reported(cands, obs)
    &&& reports_associated(cands, obs)
    &&& observations_covered(cands, obs)
}

/// The observations with one more spelling reported by the last scope.
pub open spec fn extended(obs: Seq<Seq<Seq<u8>>>, o: Seq<u8>) -> Seq<Seq<Seq<u8>>> {
    obs.update(obs.len() - 1, obs.last().push(o))
}

/// A candidate with one more scope listed.
pub open spec fn with_scope(c: CandidateModel, s: usize) -> CandidateModel {
    CandidateModel { path: c.path, scope_indices: c.scope_indices.push(s) }
}

proof fn lemma_reported_extended(obs: Seq<Seq<Seq<u8>>>, o: Seq<u8>, s: int, p: Seq<u8>)
    requires
        obs.len() > 0,
    ensures
        reported(extended(obs, o), s, p) <==> (reported(obs, s, p) || (s == obs.len() - 1 && same_path(
            o,
            p,
        ))),
{
    let next = extended(obs, o);
    let last = obs.len() - 1;
    if reported(next, s, p) {
        let f = choose|f: int| 0 <= f < next[s].len() && same_path(#[trigger] next[s][f], p);
        if s == last && f == obs[last].len() {
            assert(next[s][f] == o);
        } else {
            assert(obs[s][f] == next[s][f]);
        }
    }
    if reported(obs, s, p) {
        let f = choose|f: int| 0 <= f < obs[s].len() && same_path(#[trigger] obs[s][f], p);
        assert(next[s][f] == obs[s][f]);
    }
    if s == last && same_path(o, p) {
        assert(next[s][obs[last].len() as int] == o);
    }
}

proof fn lemma_reported_empty_scope(obs: Seq<Seq<Seq<u8>>>, s: int, p: Seq<u8>)
    ensures
        reported(obs.push(Seq::empty()), s, p) <==> reported(obs, s, p),
{
    let next = obs.push(Seq::empty());
    if reported(next, s, p) {
        let f = choose|f: int| 0 <= f < next[s].len() && same_path(#[trigger] next[s][f], p);
        assert(next[s][f] == obs[s][f]);
    }
    if reported(obs, s, p) {
        let f = choose|f: int| 0 <= f < obs[s].len() && same_path(#[trigger] obs[s][f], p);
        assert(next[s][f] == obs[s][f]);
    }
}

/// Opening a new, still empty scope keeps the description exact.
proof fn lemma_aggregates_empty_scope(cands: Seq<CandidateModel>, obs: Seq<Seq<Seq<u8>>>)
    requires
        aggregates(cands, obs),
    ensures
        aggregates(cands, obs.push(Seq::empty())),
{
    let next = obs.push(Seq::empty());
    assert(representatives_observed(cands, next)) by {
        reveal(representatives_observed);
        assert forall|c: int| 0 <= c < cands.len() implies spelled(next, #[trigger] cands[c].path) by {
            let (s, f) = choose|s: int, f: int|
                0 <= s < obs.len() && 0 <= f < obs[s].len() && #[trigger] obs[s][f] == cands[c].path;
            assert(next[s][f] == obs[s][f]);
        }
    }
    assert(associations_reported(cands, next)) by {
        reveal(associations_reported);
        assert forall|c: int, k: int|
            0 <= c < cands.len() && 0 <= k < cands[c].scope_indices.len() implies reported(
            next,
            (#[trigger] cands[c].scope_indices[k]) as int,
            cands[c].path,
        ) by {
            lemma_reported_empty_scope(obs, cands[c].scope_indices[k] as int, cands[c].path);
        }
    }
    assert(reports_associated(cands, next)) by {
        reveal(reports_associated);
        assert forall|c: int, s: int|
            0 <= c < cands.len() && #[trigger] reported(next, s, cands[c].path) implies cands[c].scope_indices.contains(
            s as usize,
        ) by {
            lemma_reported_empty_scope(obs, s, cands[c].path);
        }
    }
    assert(observations_covered(cands, next)) by {
        reveal(observations_covered);
        assert forall|s: int, f: int| 0 <= s < next.len() && 0 <= f < next[s].len() implies has_candidate(
            cands,
            #[trigger] next[s][f],
        ) by {
            assert(next[s][f] == obs[s][f]);
        }
    }
}

/// A spelling equal to an existing candidate's path joins it: the scope is
/// listed once more unless it already is.
proof fn lemma_aggregates_existing(
    cands: Seq<CandidateModel>,
    obs: Seq<Seq<Seq<u8>>>,
    o: Seq<u8>,
    c0: int,
)
    requires
        0 < obs.len() <= usize::MAX,
        aggregates(cands, obs),
        0 <= c0 < cands.len(),
        same_path(cands[c0].path, o),
    ensures
        aggregates(
            if cands[c0].scope_indices.contains((obs.len() - 1) as usize) {
                cands
            } else {
                cands.update(c0, with_scope(cands[c0], (obs.len() - 1) as usize))
            },
            extended(obs, o),
        ),
{
    let last = obs.len() - 1;
    let s0 = last as usize;
    let next = extended(obs, o);
    let added = !cands[c0].scope_indices.contains(s0);
    let updated = if added {
        cands.update(c0, with_scope(cands[c0], s0))
    } else {
        cands
    };
    assert forall|c: int| 0 <= c < updated.len() implies (#[trigger] updated[c]).path
        == cands[c].path by {}
    assert(paths_distinct(updated)) by {
        reveal(paths_distinct);
        assert forall|c: int, d: int| 0 <= c < d < updated.len() implies !same_path(
            #[trigger] updated[c].path,
            #[trigger] updated[d].path,
        ) by {
            assert(updated[c].path == cands[c].path && updated[d].path == cands[d].path);
        }
    }
    assert(associations_unique(updated)) by {
        reveal(associations_unique);
        assert forall|c: int| 0 <= c < updated.len() implies (
        #[trigger] updated[c]).scope_indices.no_duplicates() by {
            if added && c == c0 {
                let idx = cands[c0].scope_indices;
                let pushed = idx.push(s0);
                assert(idx.no_duplicates());
                assert forall|i: int, j: int|
                    0 <= i < pushed.len() && 0 <= j < pushed.len() && i != j implies #[trigger] pushed[i]
                    != #[trigger] pushed[j] by {
                    if j == idx.len() {
                        assert(idx[i] == pushed[i]);
                    } else if i == idx.len() {
                        assert(idx[j] == pushed[j]);
                    } else {
                        assert(idx[i] == pushed[i] && idx[j] == pushed[j]);
                    }
                }
                assert(updated[c].scope_indices == pushed);
            }
        }
    }
    assert(representatives_observed(updated, next)) by {
        reveal(representatives_observed);
        assert forall|c: int| 0 <= c < updated.len() implies spelled(next, #[trigger] updated[c].path) by {
            let (s, f) = choose|s: int, f: int|
                0 <= s < obs.len() && 0 <= f < obs[s].len() && #[trigger] obs[s][f] == cands[c].path;
            assert(next[s][f] == obs[s][f]);
        }
    }
    assert(associations_reported(updated, next)) by {
        reveal(associations_reported);
        assert forall|c: int, k: int|
            0 <= c < updated.len() && 0 <= k < updated[c].scope_indices.len() implies reported(
            next,
            (#[trigger] updated[c].scope_indices[k]) as int,
            updated[c].path,
        ) by {
            if added && c == c0 && k == cands[c0].scope_indices.len() {
                assert(updated[c].scope_indices[k] == s0);
                lemma_reported_extended(obs, o, last, cands[c0].path);
            } else {
                assert(updated[c].scope_indices[k] == cands[c].scope_indices[k]);
                lemma_reported_extended(obs, o, cands[c].scope_indices[k] as int, cands[c].path);
            }
        }
    }
    assert(reports_associated(updated, next)) by {
        reveal(reports_associated);
        reveal(paths_distinct);
        assert forall|c: int, s: int|
            0 <= c < updated.len() && #[trigger] reported(next, s, updated[c].path) implies updated[c].scope_indices.contains(
            s as usize,
        ) by {
            lemma_reported_extended(obs, o, s, cands[c].path);
            if reported(obs, s, cands[c].path) {
                assert(cands[c].scope_indices.contains(s as usize));
                if added && c == c0 {
                    let i = choose|i: int|
                        0 <= i < cands[c].scope_indices.len() && cands[c].scope_indices[i]
                            == s as usize;
                    assert(updated[c].scope_indices[i] == s as usize);
                }
            } else {
                assert(s == last && same_path(o, cands[c].path));
                if c != c0 {
                    if c < c0 {
                        assert(!same_path(cands[c].path, cands[c0].path));
                    } else {
                        assert(!same_path(cands[c0].path, cands[c].path));
                    }
                }
                if added {
                    assert(updated[c].scope_indices.last() == s0);
                }
            }
        }
    }
    assert(observations_covered(updated, next)) by {
        reveal(observations_covered);
        assert forall|s: int, f: int| 0 <= s < next.len() && 0 <= f < next[s].len() implies has_candidate(
            updated,
            #[trigger] next[s][f],
        ) by {
            if s == last && f == obs[last].len() {
                assert(next[s][f] == o);
                assert(same_path(updated[c0].path, next[s][f]));
            } else {
                assert(next[s][f] == obs[s][f]);
                assert(has_candidate(cands, obs[s][f]));
                let c = choose|c: int| 0 <= c < cands.len() && same_path(#[trigger] cands[c].path, obs[s][f]);
                assert(updated[c].path == cands[c].path);
            }
        }
    }
}

/// A spelling unequal to every candidate's path opens a new candidate.
proof fn lemma_aggregates_new(cands: Seq<CandidateModel>, obs: Seq<Seq<Seq<u8>>>, o: Seq<u8>)
    requires
        0 < obs.len() <= usize::MAX,
        aggregates(cands, obs),
        forall|c: int| 0 <= c < cands.len() ==> !same_path(#[trigger] cands[c].path, o),
    ensures
        aggregates(
            cands.push(CandidateModel { path: o, scope_indices: seq![(obs.len() - 1) as usize] }),
            extended(obs, o),
        ),
{
    let last = obs.len() - 1;
    let s0 = last as usize;
    let next = extended(obs, o);
    let fresh = CandidateModel { path: o, scope_indices: seq![s0] };
    let updated = cands.push(fresh);
    let n = cands.len() as int;
    assert forall|c: int| 0 <= c < n implies #[trigger] updated[c] == cands[c] by {}
    assert(paths_distinct(updated)) by {
        reveal(paths_distinct);
        assert forall|c: int, d: int| 0 <= c < d < updated.len() implies !same_path(
            #[trigger] updated[c].path,
            #[trigger] updated[d].path,
        ) by {
            if d == n {
                assert(!same_path(cands[c].path, o));
            } else {
                assert(updated[c] == cands[c] && updated[d] == cands[d]);
            }
        }
    }
    assert(associations_unique(updated)) by {
        reveal(associations_unique);
        assert forall|c: int| 0 <= c < updated.len() implies (
        #[trigger] updated[c]).scope_indices.no_duplicates() by {
            if c < n {
                assert(updated[c] == cands[c]);
            }
        }
    }
    assert(representatives_observed(updated, next)) by {
        reveal(representatives_observed);
        assert forall|c: int| 0 <= c < updated.len() implies spelled(next, #[trigger] updated[c].path) by {
            if c == n {
                assert(next[last][obs[last].len() as int] == o);
            } else {
                assert(updated[c] == cands[c]);
                let (s, f) = choose|s: int, f: int|
                    0 <= s < obs.len() && 0 <= f < obs[s].len() && #[trigger] obs[s][f] == cands[c].path;
                assert(next[s][f] == obs[s][f]);
            }
        }
    }
    assert(associations_reported(updated, next)) by {
        reveal(associations_reported);
        assert forall|c: int, k: int|
            0 <= c < updated.len() && 0 <= k < updated[c].scope_indices.len() implies reported(
            next,
            (#[trigger] updated[c].scope_indices[k]) as int,
            updated[c].path,
        ) by {
            if c < n {
                assert(updated[c] == cands[c]);
                lemma_reported_extended(obs, o, cands[c].scope_indices[k] as int, cands[c].path);
            } else {
                assert(updated[c].scope_indices[k] == s0);
                lemma_reported_extended(obs, o, last, o);
            }
        }
    }
    assert(reports_associated(updated, next)) by {
        reveal(reports_associated);
        assert forall|c: int, s: int|
            0 <= c < updated.len() && #[trigger] reported(next, s, updated[c].path) implies updated[c].scope_indices.contains(
            s as usize,
        ) by {
            lemma_reported_extended(obs, o, s, updated[c].path);
            if c < n {
                assert(updated[c] == cands[c]);
                if !reported(obs, s, cands[c].path) {
                    assert(same_path(o, cands[c].path));
                }
            } else {
                if reported(obs, s, o) {
                    reveal(observations_covered);
                    let f = choose|f: int| 0 <= f < obs[s].len() && same_path(#[trigger] obs[s][f], o);
                    assert(has_candidate(cands, obs[s][f]));
                    let c2 = choose|c2: int|
                        0 <= c2 < cands.len() && same_path(#[trigger] cands[c2].path, obs[s][f]);
                    assert(!same_path(cands[c2].path, o));
                }
                assert(updated[c].scope_indices[0] == s0);
            }
        }
    }
    assert(observations_covered(updated, next)) by {
        reveal(observations_covered);
        assert forall|s: int, f: int| 0 <= s < next.len() && 0 <= f < next[s].len() implies has_candidate(
            updated,
            #[trigger] next[s][f],
        ) by {
            if s == last && f == obs[last].len() {
                assert(next[s][f] == o);
                assert(updated[n].path == o);
            } else {
                assert(next[s][f] == obs[s][f]);
                assert(has_candidate(cands, obs[s][f]));
                let c = choose|c: int| 0 <= c < cands.len() && same_path(#[trigger] cands[c].path, obs[s][f]);
                assert(updated[c] == cands[c]);
            }
        }
    }
}

/// Distinct paths and the required scopes that reported them.
#[derive(Debug)]
pub struct CandidateInventory {
    scopes: Vec<RequiredScope>,
    entries: Vec<(PathBuf, Vec<usize>)>,
}

/// An inventory as the contracts see it: the covered scopes, and each
/// candidate with the indices of the scopes that reported it.
pub struct InventoryModel {
    pub scopes: Seq<RequiredScopeModel>,
    pub candidates: Seq<CandidateModel>,
}

impl View for CandidateInventory {
    type V = InventoryModel;

    closed spec fn view(&self) -> InventoryModel {
        InventoryModel {
            scopes: required_scope_models(self.scopes@),
            candidates: entry_models(self.entries@),
        }
    }
}

/// One distinct observed pathname and its reporting scopes.
#[derive(Debug)]
pub struct Candidate<'inventory> {
    path: &'inventory Path,
    scope_indices: &'inventory [usize],
    scopes: &'inventory [RequiredScope],
}

/// A candidate as the contracts see it: its kept spelling and the scopes
/// that reported it.
pub struct CandidateView {
    pub path: Seq<u8>,
    pub scopes: Seq<RequiredScopeModel>,
}

/// The view of candidate `c` of an inventory.
pub open spec fn candidate_view(inventory: InventoryModel, c: CandidateModel) -> CandidateView {
    CandidateView {
        path: c.path,
        scopes: c.scope_indices.map_values(|k: usize| inventory.scopes[k as int]),
    }
}

impl<'inventory> View for Candidate<'inventory> {
    type V = CandidateView;

    closed spec fn view(&self) -> CandidateView {
        CandidateView {
            path: path_spelling(self.path),
            scopes: self.scope_indices@.map_values(|k: usize| self.scopes@[k as int]@),
        }
    }
}

impl<'inventory> Candidate<'inventory> {
    #[verifier::type_invariant]
    spec fn indices_in_range(self) -> bool {
        forall|k: int| 0 <= k < self.scope_indices@.len() ==> #[trigger] self.scope_indices@[k] < self.scopes@.len()
    }

    /// An observed spelling for this candidate. Which of several spellings
    /// of equal paths is kept is unspecified.
    pub fn path(&self) -> (r: &'inventory Path)
        ensures
            path_spelling(r) == self@.path,
    {
        self.path
    }

    /// Scopes that reported an equal path under `Path` equality, each once.
    ///
    /// This does not establish album membership.
    pub fn scopes(&self) -> (r: Vec<&'inventory RequiredScope>)
        ensures
            r@.len() == self@.scopes.len(),
            forall|k: int| 0 <= k < r@.len() ==> (#[trigger] r@[k])@ == self@.scopes[k],
    {
        proof {
            use_type_invariant(self);
        }
        let mut scopes: Vec<&'inventory RequiredScope> = Vec::new();
        let mut k: usize = 0;
        while k < self.scope_indices.len()
            invariant
                k <= self.scope_indices@.len(),
                scopes@.len() == k,
                forall|k: int| 0 <= k < self.scope_indices@.len() ==> #[trigger] self.scope_indices@[k] < self.scopes@.len(),
                forall|j: int| 0 <= j < k ==> (#[trigger] scopes@[j])@ == self@.scopes[j],
            decreases self.scope_indices@.len() - k,
        {
            let index = self.scope_indices[k];
            scopes.push(&self.scopes[index]);
            k = k + 1;
        }
        scopes
    }
}

impl CandidateInventory {
    #[verifier::type_invariant]
    spec fn indices_in_range(self) -> bool {
        forall|c: int, k: int|
            0 <= c < self.entries@.len() && 0 <= k < self.entries@[c].1@.len() ==> (
            #[trigger] self.entries@[c].1@[k]) < self.scopes@.len()
    }

    /// Every required scope in this completed inventory, including empty ones.
    pub fn covered_scopes(&self) -> (r: &[RequiredScope])
        ensures
            required_scope_models(r@) == self@.scopes,
    {
        self.scopes.as_slice()
    }

    /// The distinct paths. Their order is unspecified.
    pub fn candidates(&self) -> (r: Vec<Candidate<'_>>)
        ensures
            r@.len() == self@.candidates.len(),
            forall|i: int| 0 <= i < r@.len() ==> (#[trigger] r@[i])@ == candidate_view(self@, self@.candidates[i]),
    {
        proof {
            use_type_invariant(self);
        }
        let mut candidates: Vec<Candidate<'_>> = Vec::new();
        let mut i: usize = 0;
        while i < self.entries.len()
            invariant
                i <= self.entries@.len(),
                candidates@.len() == i,
                forall|c: int, k: int|
                    0 <= c < self.entries@.len() && 0 <= k < self.entries@[c].1@.len() ==> (
                    #[trigger] self.entries@[c].1@[k]) < self.scopes@.len(),
                forall|j: int| 0 <= j < i ==> (#[trigger] candidates@[j])@ == candidate_view(self@, self@.candidates[j]),
            decreases self.entries@.len() - i,
        {
            let entry = &self.entries[i];
            let candidate = Candidate {
                path: borrow_path(&entry.0),
                scope_indices: entry.1.as_slice(),
                scopes: self.scopes.as_slice(),
            };
            proof {
                assert(candidate@.scopes =~= candidate_view(self@, self@.candidates[i as int]).scopes);
            }
            candidates.push(candidate);
            i = i + 1;
        }
        candidates
    }
}

/// Finds the candidate whose path equals `observed`.
fn find_candidate(entries: &Vec<(PathBuf, Vec<usize>)>, observed: &PathBuf) -> (r: Option<usize>)
    ensures
        r matches Some(c) ==> c < entries@.len() && same_path(
            entry_models(entries@)[c as int].path,
            buf_spelling(*observed),
        ),
        r is None ==> forall|c: int|
            0 <= c < entries@.len() ==> !same_path(
                #[trigger] entry_models(entries@)[c].path,
                buf_spelling(*observed),
            ),
{
    let mut c: usize = 0;
    while c < entries.len()
        invariant
            c <= entries@.len(),
            forall|d: int|
                0 <= d < c ==> !same_path(
                    #[trigger] entry_models(entries@)[d].path,
                    buf_spelling(*observed),
                ),
        decreases entries@.len() - c,
    {
        if paths_equal(&entries[c].0, observed) {
            return Some(c);
        }
        c = c + 1;
    }
    None
}

/// Whether `indices` lists `index`.
fn lists_index(indices: &Vec<usize>, index: usize) -> (r: bool)
    ensures
        r == indices@.contains(index),
{
    let mut k: usize = 0;
    while k < indices.len()
        invariant
            k <= indices@.len(),
            forall|j: int| 0 <= j < k ==> indices@[j] != index,
        decreases indices@.len() - k,
    {
        if indices[k] == index {
            return true;
        }
        k = k + 1;
    }
    false
}

/// Combines the files each scope reported into candidates: observed paths
/// that are equal under `Path` equality share one candidate, which keeps one
/// of the observed spellings and lists every distinct scope that reported an
/// equal path (scopes by their position in `scopes`). The order of the
/// candidates and the spelling kept are unspecified.
pub fn aggregate_observations(scopes: Vec<RequiredScope>, files_per_scope: Vec<Vec<PathBuf>>) -> (r:
    CandidateInventory)
    requires
        files_per_scope@.len() == scopes@.len(),
    ensures
        r@.scopes == required_scope_models(scopes@),
        aggregates(r@.candidates, observation_spellings(files_per_scope@)),
{
    let ghost obs = observation_spellings(files_per_scope@);
    let n = files_per_scope.len();
    let mut entries: Vec<(PathBuf, Vec<usize>)> = Vec::new();
    proof {
        assert(obs.take(0) =~= Seq::<Seq<Seq<u8>>>::empty());
        reveal(paths_distinct);
        reveal(associations_unique);
        reveal(representatives_observed);
        reveal(associations_reported);
        reveal(reports_associated);
        reveal(observations_covered);
        assert(entry_models(entries@) =~= Seq::<CandidateModel>::empty());
    }
    let mut s: usize = 0;
    while s < n
        invariant
            s <= n,
            n == obs.len(),
            obs == observation_spellings(files_per_scope@),
            aggregates(entry_models(entries@), obs.take(s as int)),
        decreases n - s,
    {
        proof {
            lemma_aggregates_empty_scope(entry_models(entries@), obs.take(s as int));
            assert(obs[s as int].take(0) =~= Seq::<Seq<u8>>::empty());
            assert(obs.take(s as int).push(Seq::empty()) =~= obs.take(s as int).push(
                obs[s as int].take(0),
            ));
        }
        let files = &files_per_scope[s];
        let mut f: usize = 0;
        while f < files.len()
            invariant
                s < n,
                n == obs.len(),
                f <= files@.len(),
                spellings(files@) == obs[s as int],
                aggregates(
                    entry_models(entries@),
                    obs.take(s as int).push(obs[s as int].take(f as int)),
                ),
            decreases files@.len() - f,
        {
            let observed = &files[f];
            let ghost partial = obs.take(s as int).push(obs[s as int].take(f as int));
            let ghost o = obs[s as int][f as int];
            let ghost before = entry_models(entries@);
            proof {
                assert(o == buf_spelling(*observed));
                assert(partial.len() == s + 1);
                assert(partial.last() == obs[s as int].take(f as int));
                assert(obs[s as int].take(f as int).push(o) =~= obs[s as int].take(f + 1));
                assert(extended(partial, o) =~= obs.take(s as int).push(obs[s as int].take(f + 1)));
            }
            match find_candidate(&entries, observed) {
                Some(c) => {
                    proof {
                        lemma_aggregates_existing(before, partial, o, c as int);
                    }
                    if !lists_index(&entries[c].1, s) {
                        let (path, mut indices) = entries.remove(c);
                        indices.push(s);
                        entries.insert(c, (path, indices));
                        proof {
                            assert(entry_models(entries@) =~= before.update(
                                c as int,
                                with_scope(before[c as int], s),
                            ));
                        }
                    }
                },
                None => {
                    let mut indices: Vec<usize> = Vec::new();
                    indices.push(s);
                    entries.push((observed.clone(), indices));
                    proof {
                        lemma_aggregates_new(before, partial, o);
                        assert(entry_models(entries@) =~= before.push(
                            CandidateModel { path: o, scope_indices: seq![s] },
                        ));
                    }
                },
            }
            f = f + 1;
        }
        proof {
            assert(obs[s as int].take(f as int) =~= obs[s as int]);
            assert(obs.take(s as int).push(obs[s as int].take(f as int)) =~= obs.take(s + 1));
        }
        s = s + 1;
    }
    proof {
        assert(obs.take(n as int) =~= obs);
        reveal(associations_reported);
        assert forall|c: int, k: int|
            0 <= c < entries@.len() && 0 <= k < entries@[c].1@.len() implies (
            #[trigger] entries@[c].1@[k]) < scopes@.len() by {
            assert(entry_models(entries@)[c].scope_indices[k] == entries@[c].1@[k]);
        }
    }
    CandidateInventory { scopes, entries }
}

/// The scope descriptions of a completed coverage: configured scopes in
/// order, then the default scope.
pub open spec fn coverage_scopes(coverage: required_discovery::RequiredCoverage) -> Seq<RequiredScope> {
    coverage.configured@.map_values(
        |e: required_discovery::ConfiguredScopeCoverage| configured_description(e.scope),
    ) + match coverage.default_root {
        Some(d) => seq![default_description(d.scope)],
        None => Seq::empty(),
    }
}

/// The files of a completed coverage, scope by scope in the same order.
pub open spec fn coverage_files(coverage: required_discovery::RequiredCoverage) -> Seq<Vec<PathBuf>> {
    coverage.configured@.map_values(|e: required_discovery::ConfiguredScopeCoverage| e.files)
        + match coverage.default_root {
        Some(d) => seq![d.files],
        None => Seq::empty(),
    }
}

/// Turns a completed coverage into an inventory of its observations.
pub fn aggregate_coverage(coverage: required_discovery::RequiredCoverage) -> (r: CandidateInventory)
    ensures
        r@.scopes == required_scope_models(coverage_scopes(coverage)),
        aggregates(r@.candidates, observation_spellings(coverage_files(coverage))),
{
    let ghost whole = coverage;
    let ghost given = coverage.configured@;
    let required_discovery::RequiredCoverage { configured, default_root } = coverage;
    let mut remaining = configured;
    let mut scopes: Vec<RequiredScope> = Vec::new();
    let mut files_per_scope: Vec<Vec<PathBuf>> = Vec::new();
    proof {
        assert(given.skip(0) =~= given);
    }
    while remaining.len() > 0
        invariant
            remaining@ == given.skip(scopes@.len() as int),
            scopes@.len() <= given.len(),
            files_per_scope@.len() == scopes@.len(),
            scopes@ =~= given.take(scopes@.len() as int).map_values(
                |e: required_discovery::ConfiguredScopeCoverage| configured_description(e.scope),
            ),
            files_per_scope@ =~= given.take(scopes@.len() as int).map_values(
                |e: required_discovery::ConfiguredScopeCoverage| e.files,
            ),
        decreases remaining@.len(),
    {
        let ghost k = scopes@.len() as int;
        let entry = remaining.remove(0);
        proof {
            assert(entry == given[k]);
            assert(remaining@ =~= given.skip(k + 1));
            assert(given.take(k + 1) =~= given.take(k).push(given[k]));
        }
        let required_discovery::ConfiguredScopeCoverage { scope, files } = entry;
        scopes.push(
            RequiredScope::ConfiguredDirectory {
                album_handle: scope.album_handle,
                resolved_directory: scope.resolved_directory,
                contributing_selectors: scope.contributing_selectors,
            },
        );
        files_per_scope.push(files);
    }
    proof {
        assert(given.take(scopes@.len() as int) =~= given);
    }
    match default_root {
        Some(entry) => {
            let required_discovery::DefaultScopeCoverage { scope, files } = entry;
            scopes.push(
                RequiredScope::DefaultSourceRoot {
                    original_source_root: scope.original_source_root,
                    resolved_traversal_root: scope.resolved_traversal_root,
                    dependent_album_handles: scope.dependent_album_handles,
                },
            );
            files_per_scope.push(files);
        },
        None => {},
    }
    proof {
        assert(scopes@ =~= coverage_scopes(whole));
        assert(files_per_scope@ =~= coverage_files(whole));
    }
    aggregate_observations(scopes, files_per_scope)
}

/// Inventory with warnings from preparation.
#[derive(Debug)]
pub struct CandidateInventorySuccess {
    inventory: CandidateInventory,
    warnings: Vec<RedundantConfiguredSelectors>,
}

pub struct SuccessModel {
    pub inventory: InventoryModel,
    pub warnings: Seq<RedundantConfiguredSelectors>,
}

impl View for CandidateInventorySuccess {
    type V = SuccessModel;

    closed spec fn view(&self) -> SuccessModel {
        SuccessModel { inventory: self.inventory@, warnings: self.warnings@ }
    }
}

impl CandidateInventorySuccess {
    /// The inventory.
    pub fn inventory(&self) -> (r: &CandidateInventory)
        ensures
            r@ == self@.inventory,
    {
        &self.inventory
    }

    /// Warnings for redundant configured selectors.
    pub fn warnings(&self) -> (r: &[RedundantConfiguredSelectors])
        ensures
            r@ == self@.warnings,
    {
        self.warnings.as_slice()
    }
}

/// Candidate-inventory failure.
#[derive(Debug)]
pub enum CandidateInventoryFailure {
    /// Preparation failed; discovery did not run.
    Preparation {
        /// Selector failures in album and selector order.
        configured_failures: Vec<ConfiguredSelectorFailure>,
        /// Failure of the shared default root, if needed.
        default_source_root_failure: Option<DefaultSourceRootFailure>,
        /// Warnings from successful configured groups.
        warnings: Vec<RedundantConfiguredSelectors>,
    },
    /// Discovery failed; no partial inventory is returned.
    Discovery {
        /// Failed scopes and their descriptions.
        failures: Vec<RequiredScopeDiscoveryFailure>,
        /// Preparation warnings.
        warnings: Vec<RedundantConfiguredSelectors>,
    },
}

/// The sentence describing an inventory failure.
pub open spec fn inventory_failure_message(failure: CandidateInventoryFailure) -> Seq<char> {
    match failure {
        CandidateInventoryFailure::Preparation {
            configured_failures,
            default_source_root_failure,
            ..
        } => "candidate inventory preparation failed with "@ + decimal(configured_failures@.len())
            + " configured failure(s)"@ + if default_source_root_failure is Some {
            " and a default source root failure"@
        } else {
            Seq::empty()
        },
        CandidateInventoryFailure::Discovery { failures, .. } => "candidate inventory discovery failed with "@
            + decimal(failures@.len()) + " scope failure(s)"@,
    }
}

impl CandidateInventoryFailure {
    /// Preparation warnings retained by the failure.
    pub fn warnings(&self) -> (r: &[RedundantConfiguredSelectors])
        ensures
            r@ == match self {
                CandidateInventoryFailure::Preparation { warnings, .. } => warnings@,
                CandidateInventoryFailure::Discovery { warnings, .. } => warnings@,
            },
    {
        match self {
            CandidateInventoryFailure::Preparation { warnings, .. } => warnings.as_slice(),
            CandidateInventoryFailure::Discovery { warnings, .. } => warnings.as_slice(),
        }
    }

    /// A sentence describing the failure: which stage failed and how many
    /// failures it reported.
    pub fn message(&self) -> (r: String)
        ensures
            r@ == inventory_failure_message(*self),
    {
        match self {
            CandidateInventoryFailure::Preparation {
                configured_failures,
                default_source_root_failure,
                ..
            } => {
                let mut out = String::from_str("candidate inventory preparation failed with ");
                append_decimal(&mut out, configured_failures.len());
                out.append(" configured failure(s)");
                if default_source_root_failure.is_some() {
                    out.append(" and a default source root failure");
                } else {
                    proof {
                        assert(out@ + Seq::<char>::empty() =~= out@);
                    }
                }
                out
            },
            CandidateInventoryFailure::Discovery { failures, .. } => {
                let mut out = String::from_str("candidate inventory discovery failed with ");
                append_decimal(&mut out, failures.len());
                out.append(" scope failure(s)");
                out
            },
        }
    }
}

/// Continues an inventory after preparation: the prepared scopes and their
/// warnings, or, if preparation failed, the failure in its public form.
pub fn prepared_scopes_or_failure(preparation: album_scope::AlbumScopePreparation) -> (r: Result<
    (album_scope::PreparedAlbumScopes, Vec<album_scope::RedundancyWarning>),
    CandidateInventoryFailure,
>)
    ensures
        match (preparation, r) {
            (album_scope::AlbumScopePreparation::Prepared { scopes, warnings }, Ok(pair)) => pair == (
            scopes,
            warnings),
            (
                album_scope::AlbumScopePreparation::Failed {
                    configured_failures,
                    default_source_root_failure,
                    warnings,
                },
                Err(CandidateInventoryFailure::Preparation {
                    configured_failures: public_failures,
                    default_source_root_failure: public_default,
                    warnings: public_warnings,
                }),
            ) => {
                &&& public_failures@ == configured_failures@.map_values(
                    |f: album_scope::ConfiguredSelectorFailure| public_selector_failure(f),
                )
                &&& public_default == match default_source_root_failure {
                    Some(f) => Some(public_default_failure(f)),
                    None => None,
                }
                &&& public_warnings@ == warnings@.map_values(
                    |w: album_scope::RedundancyWarning| public_warning(w),
                )
            },
            _ => false,
        },
{
    match preparation {
        album_scope::AlbumScopePreparation::Prepared { scopes, warnings } => Ok((scopes, warnings)),
        album_scope::AlbumScopePreparation::Failed {
            configured_failures,
            default_source_root_failure,
            warnings,
        } => {
            let public_default = match default_source_root_failure {
                Some(failure) => Some(default_failure_from_private(failure)),
                None => None,
            };
            Err(
                CandidateInventoryFailure::Preparation {
                    configured_failures: configured_failures_from_private(configured_failures),
                    default_source_root_failure: public_default,
                    warnings: warnings_from_private(warnings),
                },
            )
        },
    }
}

/// Finishes an inventory after discovery: the inventory of every observed
/// file with the preparation warnings, or, if any scan failed, every scan
/// failure with the warnings and no partial inventory.
pub fn candidate_inventory_from_discovery(discovery: required_discovery::RequiredDiscovery) -> (r:
    Result<CandidateInventorySuccess, CandidateInventoryFailure>)
    ensures
        match (discovery, r) {
            (required_discovery::RequiredDiscovery::Completed { coverage, warnings }, Ok(success)) => {
                &&& success@.inventory.scopes == required_scope_models(coverage_scopes(coverage))
                &&& aggregates(
                    success@.inventory.candidates,
                    observation_spellings(coverage_files(coverage)),
                )
                &&& success@.warnings == warnings@.map_values(
                    |w: album_scope::RedundancyWarning| public_warning(w),
                )
            },
            (
                required_discovery::RequiredDiscovery::Failed { failures, warnings },
                Err(CandidateInventoryFailure::Discovery { failures: public_failures, warnings: public_warnings }),
            ) => {
                &&& public_failures@ == public_discovery_failures(failures)
                &&& public_warnings@ == warnings@.map_values(
                    |w: album_scope::RedundancyWarning| public_warning(w),
                )
            },
            _ => false,
        },
{
    match discovery {
        required_discovery::RequiredDiscovery::Completed { coverage, warnings } => {
            let inventory = aggregate_coverage(coverage);
            Ok(CandidateInventorySuccess { inventory, warnings: warnings_from_private(warnings) })
        },
        required_discovery::RequiredDiscovery::Failed { failures, warnings } => {
            Err(
                CandidateInventoryFailure::Discovery {
                    failures: discovery_failures_from_private(failures),
                    warnings: warnings_from_private(warnings),
                },
            )
        },
    }
}

/// Each candidate of an exact description lists at least one scope, each
/// scope once and each a covered one, and exactly the scopes whose scan
/// reported a path equal to the candidate's.
pub proof fn candidate_scopes_are_exactly_the_reporting_scopes(
    cands: Seq<CandidateModel>,
    obs: Seq<Seq<Seq<u8>>>,
)
    requires
        aggregates(cands, obs),
        obs.len() <= usize::MAX,
    ensures
        forall|c: int|
            0 <= c < cands.len() ==> {
                &&& (#[trigger] cands[c]).scope_indices.len() > 0
                &&& cands[c].scope_indices.no_duplicates()
                &&& forall|k: int|
                    0 <= k < cands[c].scope_indices.len() ==> cands[c].scope_indices[k] < obs.len()
                &&& forall|s: int|
                    0 <= s < obs.len() ==> (cands[c].scope_indices.contains(s as usize) <==> reported(
                        obs,
                        s,
                        cands[c].path,
                    ))
            },
{
    reveal(associations_unique);
    reveal(representatives_observed);
    reveal(associations_reported);
    reveal(reports_associated);
    assert forall|c: int| 0 <= c < cands.len() implies {
        &&& (#[trigger] cands[c]).scope_indices.len() > 0
        &&& cands[c].scope_indices.no_duplicates()
        &&& forall|k: int|
            0 <= k < cands[c].scope_indices.len() ==> cands[c].scope_indices[k] < obs.len()
        &&& forall|s: int|
            0 <= s < obs.len() ==> (cands[c].scope_indices.contains(s as usize) <==> reported(
                obs,
                s,
                cands[c].path,
            ))
    } by {
        let p = cands[c].path;
        assert(spelled(obs, p));
        let (s0, f0) = choose|s: int, f: int|
            0 <= s < obs.len() && 0 <= f < obs[s].len() && #[trigger] obs[s][f] == p;
        assert(same_path(obs[s0][f0], p));
        assert(reported(obs, s0, p));
        assert(cands[c].scope_indices.contains(s0 as usize));
        assert forall|k: int| 0 <= k < cands[c].scope_indices.len() implies cands[c].scope_indices[k]
            < obs.len() by {
            assert(reported(obs, cands[c].scope_indices[k] as int, p));
        }
        assert forall|s: int| 0 <= s < obs.len() implies (cands[c].scope_indices.contains(
            s as usize,
        ) <==> reported(obs, s, p)) by {
            if cands[c].scope_indices.contains(s as usize) {
                let k = choose|k: int|
                    0 <= k < cands[c].scope_indices.len() && cands[c].scope_indices[k] == s as usize;
                assert(reported(obs, cands[c].scope_indices[k] as int, p));
            }
        }
    }
}

proof fn lemma_reported_equal_paths(obs: Seq<Seq<Seq<u8>>>, s: int, p: Seq<u8>, q: Seq<u8>)
    requires
        same_path(p, q),
    ensures
        reported(obs, s, p) == reported(obs, s, q),
{
    if reported(obs, s, p) {
        let f = choose|f: int| 0 <= f < obs[s].len() && same_path(#[trigger] obs[s][f], p);
        assert(same_path(obs[s][f], q));
    }
    if reported(obs, s, q) {
        let f = choose|f: int| 0 <= f < obs[s].len() && same_path(#[trigger] obs[s][f], q);
        assert(same_path(obs[s][f], p));
    }
}

/// Two candidates with equal paths that list the same scopes.
pub open spec fn same_candidate(c: CandidateModel, d: CandidateModel, scope_count: nat) -> bool {
    &&& same_path(c.path, d.path)
    &&& forall|s: int|
        0 <= s < scope_count ==> (c.scope_indices.contains(s as usize)
            <==> #[trigger] d.scope_indices.contains(s as usize))
}

proof fn lemma_listed_iff_reported(cands: Seq<CandidateModel>, obs: Seq<Seq<Seq<u8>>>, c: int, s: int)
    requires
        aggregates(cands, obs),
        obs.len() <= usize::MAX,
        0 <= c < cands.len(),
        0 <= s < obs.len(),
    ensures
        cands[c].scope_indices.contains(s as usize) <==> reported(obs, s, cands[c].path),
{
    reveal(associations_reported);
    reveal(reports_associated);
    if cands[c].scope_indices.contains(s as usize) {
        let k = choose|k: int|
            0 <= k < cands[c].scope_indices.len() && cands[c].scope_indices[k] == s as usize;
        assert(reported(obs, cands[c].scope_indices[k] as int, cands[c].path));
    }
}

proof fn lemma_counterpart(
    c1: Seq<CandidateModel>,
    c2: Seq<CandidateModel>,
    obs: Seq<Seq<Seq<u8>>>,
    i: int,
) -> (j: int)
    requires
        aggregates(c1, obs),
        aggregates(c2, obs),
        obs.len() <= usize::MAX,
        0 <= i < c1.len(),
    ensures
        0 <= j < c2.len(),
        same_candidate(c1[i], c2[j], obs.len()),
{
    let p = c1[i].path;
    assert(spelled(obs, p)) by {
        reveal(representatives_observed);
    }
    let (s0, f0) = choose|s: int, f: int|
        0 <= s < obs.len() && 0 <= f < obs[s].len() && #[trigger] obs[s][f] == p;
    assert(has_candidate(c2, obs[s0][f0])) by {
        reveal(observations_covered);
    }
    let j = choose|j: int| 0 <= j < c2.len() && same_path(#[trigger] c2[j].path, obs[s0][f0]);
    assert forall|s: int| 0 <= s < obs.len() implies (c1[i].scope_indices.contains(s as usize)
        <==> #[trigger] c2[j].scope_indices.contains(s as usize)) by {
        lemma_listed_iff_reported(c1, obs, i, s);
        lemma_listed_iff_reported(c2, obs, j, s);
        lemma_reported_equal_paths(obs, s, p, c2[j].path);
    }
    j
}

/// Some candidate among `others` has a path equal to `c`'s and the same
/// scopes.
pub open spec fn has_counterpart(c: CandidateModel, others: Seq<CandidateModel>, scope_count: nat) -> bool {
    exists|j: int| 0 <= j < others.len() && #[trigger] same_candidate(c, others[j], scope_count)
}

/// Two exact descriptions of the same observations agree: every candidate
/// of one has, in the other, a candidate with an equal path and the same
/// scopes. Only the order of the candidates and the spelling each keeps
/// may differ.
pub proof fn exact_descriptions_agree(
    c1: Seq<CandidateModel>,
    c2: Seq<CandidateModel>,
    obs: Seq<Seq<Seq<u8>>>,
)
    requires
        aggregates(c1, obs),
        aggregates(c2, obs),
        obs.len() <= usize::MAX,
    ensures
        forall|i: int| 0 <= i < c1.len() ==> has_counterpart(#[trigger] c1[i], c2, obs.len()),
{
    assert forall|i: int| 0 <= i < c1.len() implies has_counterpart(#[trigger] c1[i], c2, obs.len()) by {
        let j = lemma_counterpart(c1, c2, obs, i);
        assert(same_candidate(c1[i], c2[j], obs.len()));
    }
}

/// Building the inventory is blind to everything in the profile but its
/// album handles and their configured directories: profiles that agree on
/// those (whatever their files, rules, album names or artists) prepare
/// alike, so they list the same scan roots and cover the same scopes; the
/// later stages take only the prepared scopes and the scans, never the
/// profile; and any two exact descriptions of the same scans agree
/// candidate for candidate, scope for scope. Nothing is filtered by
/// extension or content along the way.
pub proof fn inventory_depends_only_on_handles_and_directories(
    a: Seq<(Seq<char>, AlbumModel)>,
    b: Seq<(Seq<char>, AlbumModel)>,
    root: Seq<u8>,
    outcomes: Seq<Result<PathBuf, std::io::Error>>,
    probe: Option<album_scope::DefaultRootProbe>,
    c1: Seq<CandidateModel>,
    c2: Seq<CandidateModel>,
    obs: Seq<Seq<Seq<u8>>>,
)
    requires
        album_scope::same_scoping(a, b),
        aggregates(c1, obs),
        aggregates(c2, obs),
        obs.len() <= usize::MAX,
    ensures
        album_scope::configured_selector_list(a) == album_scope::configured_selector_list(b),
        album_scope::default_probe_needed(a, root) == album_scope::default_probe_needed(b, root),
        album_scope::preparation(a, root, outcomes, probe) == album_scope::preparation(
            b,
            root,
            outcomes,
            probe,
        ),
        forall|i: int| 0 <= i < c1.len() ==> has_counterpart(#[trigger] c1[i], c2, obs.len()),
        forall|j: int| 0 <= j < c2.len() ==> has_counterpart(#[trigger] c2[j], c1, obs.len()),
{
    album_scope::preparation_depends_only_on_handles_and_directories(a, b, root, outcomes, probe);
    exact_descriptions_agree(c1, c2, obs);
    exact_descriptions_agree(c2, c1, obs);
}

} // verus!
