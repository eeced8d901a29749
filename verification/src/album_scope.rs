//! Filesystem scopes for the albums of a validated library build spec.
//!
//! Every configured selector is resolved independently, in album and
//! selector order; the caller performs each resolution (relative selectors
//! against the supplied source root, absolute ones as spelled) and hands the
//! outcomes over in that order. Within one album, selectors whose resolved
//! paths are equal under `Path`'s own equality form one scope, and a scope
//! with several selectors produces one redundancy warning. Scopes never merge
//! across albums, nor with the shared default root.
//!
//! Albums without selectors share one scope at the source root. Its
//! preparation rejects an empty root itself and otherwise decides from what
//! the caller's resolution and inspection of the root reported.
//!
//! Scopes are returned only if every required resolution succeeded;
//! otherwise the failures are returned together with the warnings of the
//! groups that did resolve.

use crate::config::{
    album_at, album_count, album_entries, copy_texts, spellings, validation, AlbumModel,
    LibraryBuildSpec, RawLibraryBuildSpecModel,
};
use crate::validated::{album_well_formed, validated_albums_are_well_formed};
use crate::paths::{
    buf_spelling, component_prefix, leading_prefix, owned_path, path_has_root, path_is_absolute,
    path_is_empty, path_spelling, paths_equal, root_after_first_component, root_follows_first,
    same_path, spells_absolute, spells_rooted, PathPrefix,
};
use std::path::{Path, PathBuf};
use vstd::prelude::*;

verus! {

/// One group of selectors in an album that resolved to the same path.
#[derive(Debug)]
pub struct ConfiguredDirectoryScope {
    /// Album that owns this scope.
    pub album_handle: String,
    /// Resolved path shared by this group.
    pub resolved_directory: PathBuf,
    /// Selector spellings in declaration order, including duplicates.
    pub contributing_selectors: Vec<PathBuf>,
}

/// A configured scope, or a redundancy warning, as the contracts see it.
pub struct ScopeModel {
    pub album_handle: Seq<char>,
    pub resolved: Seq<u8>,
    pub selectors: Seq<Seq<u8>>,
}

impl View for ConfiguredDirectoryScope {
    type V = ScopeModel;

    open spec fn view(&self) -> ScopeModel {
        ScopeModel {
            album_handle: self.album_handle@,
            resolved: buf_spelling(self.resolved_directory),
            selectors: spellings(self.contributing_selectors@),
        }
    }
}

pub open spec fn scope_models(scopes: Seq<ConfiguredDirectoryScope>) -> Seq<ScopeModel> {
    scopes.map_values(|s: ConfiguredDirectoryScope| s@)
}

/// Warning that several selectors in an album resolved to the same path.
#[derive(Debug)]
pub struct RedundancyWarning {
    /// Album with redundant selectors.
    pub album_handle: String,
    /// Shared resolved path.
    pub resolved_directory: PathBuf,
    /// Selector spellings in declaration order, including duplicates.
    pub contributing_selectors: Vec<PathBuf>,
}

impl View for RedundancyWarning {
    type V = ScopeModel;

    open spec fn view(&self) -> ScopeModel {
        ScopeModel {
            album_handle: self.album_handle@,
            resolved: buf_spelling(self.resolved_directory),
            selectors: spellings(self.contributing_selectors@),
        }
    }
}

pub open spec fn warning_models(warnings: Seq<RedundancyWarning>) -> Seq<ScopeModel> {
    warnings.map_values(|w: RedundancyWarning| w@)
}

/// One configured selector occurrence that failed to resolve.
#[derive(Debug)]
pub struct ConfiguredSelectorFailure {
    /// Album that owns the failed selector.
    pub album_handle: String,
    /// Selector spelling from the configuration.
    pub configured_selector: PathBuf,
    /// Error returned by the resolver.
    pub error: std::io::Error,
}

pub struct SelectorFailureModel {
    pub album_handle: Seq<char>,
    pub selector: Seq<u8>,
    pub error: std::io::Error,
}

impl View for ConfiguredSelectorFailure {
    type V = SelectorFailureModel;

    open spec fn view(&self) -> SelectorFailureModel {
        SelectorFailureModel {
            album_handle: self.album_handle@,
            selector: buf_spelling(self.configured_selector),
            error: self.error,
        }
    }
}

pub open spec fn failure_models(failures: Seq<ConfiguredSelectorFailure>) -> Seq<SelectorFailureModel> {
    failures.map_values(|f: ConfiguredSelectorFailure| f@)
}

/// The selectors an album configures, in declaration order (none for an
/// album that selects by metadata only).
pub open spec fn album_selectors(album: AlbumModel) -> Seq<Seq<u8>> {
    match album.directories {
        Some(d) => d,
        None => Seq::empty(),
    }
}

/// Every configured selector occurrence, in album then selector order.
pub open spec fn configured_selector_list(albums: Seq<(Seq<char>, AlbumModel)>) -> Seq<Seq<u8>>
    decreases albums.len(),
{
    if albums.len() == 0 {
        Seq::empty()
    } else {
        configured_selector_list(albums.drop_last()) + album_selectors(albums.last().1)
    }
}

/// `i` is the first scope whose resolved path is equal to `resolved`.
pub open spec fn first_match(scopes: Seq<ScopeModel>, resolved: Seq<u8>, i: int) -> bool {
    &&& 0 <= i < scopes.len()
    &&& same_path(scopes[i].resolved, resolved)
    &&& forall|j: int| 0 <= j < i ==> !same_path(#[trigger] scopes[j].resolved, resolved)
}

/// Adds one successfully resolved selector to an album's groups: it joins
/// the group with an equal resolved path, or opens a new group last.
pub open spec fn group_step(
    scopes: Seq<ScopeModel>,
    handle: Seq<char>,
    selector: Seq<u8>,
    resolved: Seq<u8>,
) -> Seq<ScopeModel> {
    if exists|i: int| first_match(scopes, resolved, i) {
        let i = choose|i: int| first_match(scopes, resolved, i);
        scopes.update(
            i,
            ScopeModel {
                album_handle: scopes[i].album_handle,
                resolved: scopes[i].resolved,
                selectors: scopes[i].selectors.push(selector),
            },
        )
    } else {
        scopes.push(ScopeModel { album_handle: handle, resolved, selectors: seq![selector] })
    }
}

/// The groups of one album, from its selectors and their resolution
/// outcomes (aligned by position).
pub open spec fn album_groups(
    handle: Seq<char>,
    selectors: Seq<Seq<u8>>,
    outcomes: Seq<Result<PathBuf, std::io::Error>>,
) -> Seq<ScopeModel>
    decreases selectors.len(),
{
    if selectors.len() == 0 {
        Seq::empty()
    } else {
        let before = album_groups(handle, selectors.drop_last(), outcomes);
        match outcomes[selectors.len() - 1] {
            Ok(p) => group_step(before, handle, selectors.last(), buf_spelling(p)),
            Err(_) => before,
        }
    }
}

/// The failed selector occurrences of one album, in selector order.
pub open spec fn album_failures(
    handle: Seq<char>,
    selectors: Seq<Seq<u8>>,
    outcomes: Seq<Result<PathBuf, std::io::Error>>,
) -> Seq<SelectorFailureModel>
    decreases selectors.len(),
{
    if selectors.len() == 0 {
        Seq::empty()
    } else {
        let before = album_failures(handle, selectors.drop_last(), outcomes);
        match outcomes[selectors.len() - 1] {
            Ok(_) => before,
            Err(e) => before.push(
                SelectorFailureModel { album_handle: handle, selector: selectors.last(), error: e },
            ),
        }
    }
}

/// The configured scopes of all albums, album by album.
pub open spec fn configured_groups(
    albums: Seq<(Seq<char>, AlbumModel)>,
    outcomes: Seq<Result<PathBuf, std::io::Error>>,
) -> Seq<ScopeModel>
    decreases albums.len(),
{
    if albums.len() == 0 {
        Seq::empty()
    } else {
        let before = albums.drop_last();
        configured_groups(before, outcomes) + album_groups(
            albums.last().0,
            album_selectors(albums.last().1),
            outcomes.skip(configured_selector_list(before).len() as int),
        )
    }
}

/// The failed selector occurrences of all albums, in album and selector order.
pub open spec fn selector_failures(
    albums: Seq<(Seq<char>, AlbumModel)>,
    outcomes: Seq<Result<PathBuf, std::io::Error>>,
) -> Seq<SelectorFailureModel>
    decreases albums.len(),
{
    if albums.len() == 0 {
        Seq::empty()
    } else {
        let before = albums.drop_last();
        selector_failures(before, outcomes) + album_failures(
            albums.last().0,
            album_selectors(albums.last().1),
            outcomes.skip(configured_selector_list(before).len() as int),
        )
    }
}

pub open spec fn is_redundant(scope: ScopeModel) -> bool {
    scope.selectors.len() >= 2
}

/// The groups that warrant a redundancy warning, in order.
pub open spec fn redundancies(scopes: Seq<ScopeModel>) -> Seq<ScopeModel> {
    scopes.filter(|s: ScopeModel| is_redundant(s))
}

/// Finds the first scope whose resolved path equals `resolved`.
fn find_scope(scopes: &Vec<ConfiguredDirectoryScope>, resolved: &PathBuf) -> (r: Option<usize>)
    ensures
        r matches Some(i) ==> first_match(scope_models(scopes@), buf_spelling(*resolved), i as int),
        r is None ==> forall|i: int|
            0 <= i < scopes@.len() ==> !same_path(
                #[trigger] scope_models(scopes@)[i].resolved,
                buf_spelling(*resolved),
            ),
{
    let ghost models = scope_models(scopes@);
    let mut i: usize = 0;
    while i < scopes.len()
        invariant
            i <= scopes@.len(),
            models == scope_models(scopes@),
            forall|j: int| 0 <= j < i ==> !same_path(#[trigger] models[j].resolved, buf_spelling(*resolved)),
        decreases scopes@.len() - i,
    {
        if paths_equal(&scopes[i].resolved_directory, resolved) {
            return Some(i);
        }
        i = i + 1;
    }
    None
}

proof fn lemma_first_match_unique(scopes: Seq<ScopeModel>, resolved: Seq<u8>, i: int, k: int)
    requires
        first_match(scopes, resolved, i),
        first_match(scopes, resolved, k),
    ensures
        i == k,
{
    if i < k {
        assert(!same_path(scopes[i].resolved, resolved));
    } else if k < i {
        assert(!same_path(scopes[k].resolved, resolved));
    }
}

/// Adds one resolved selector occurrence to the groups of its album.
fn add_resolved(
    scopes: &mut Vec<ConfiguredDirectoryScope>,
    handle: &String,
    selector: &PathBuf,
    resolved: PathBuf,
)
    ensures
        scope_models(final(scopes)@) == group_step(
            scope_models(old(scopes)@),
            handle@,
            buf_spelling(*selector),
            buf_spelling(resolved),
        ),
{
    let ghost before = scope_models(scopes@);
    let ghost p = buf_spelling(resolved);
    let ghost sel = buf_spelling(*selector);
    match find_scope(scopes, &resolved) {
        Some(i) => {
            let mut scope = scopes.remove(i);
            let ghost old_scope = scope;
            scope.contributing_selectors.push(selector.clone());
            scopes.insert(i, scope);
            proof {
                assert(first_match(before, p, i as int));
                let c = choose|c: int| first_match(before, p, c);
                lemma_first_match_unique(before, p, i as int, c);
                assert(spellings(scope.contributing_selectors@) =~= spellings(
                    old_scope.contributing_selectors@,
                ).push(sel));
                assert(scope_models(scopes@) =~= before.update(i as int, scope@));
            }
        },
        None => {
            let mut selectors: Vec<PathBuf> = Vec::new();
            selectors.push(selector.clone());
            let scope = ConfiguredDirectoryScope {
                album_handle: handle.clone(),
                resolved_directory: resolved,
                contributing_selectors: selectors,
            };
            scopes.push(scope);
            proof {
                assert(!exists|c: int| first_match(before, p, c));
                assert(spellings(selectors@) =~= seq![sel]);
                assert(scope_models(scopes@) =~= before.push(scope@));
            }
        },
    }
}

/// Copies a list of paths, spelling for spelling.
fn copy_paths(paths: &Vec<PathBuf>) -> (r: Vec<PathBuf>)
    ensures
        spellings(r@) == spellings(paths@),
{
    let mut copies: Vec<PathBuf> = Vec::new();
    let mut i: usize = 0;
    while i < paths.len()
        invariant
            i <= paths@.len(),
            spellings(copies@) =~= spellings(paths@).take(i as int),
        decreases paths@.len() - i,
    {
        let ghost before = copies@;
        copies.push(paths[i].clone());
        proof {
            assert(spellings(copies@) =~= spellings(before).push(buf_spelling(paths@[i as int])));
            assert(spellings(paths@).take(i + 1) =~= spellings(paths@).take(i as int).push(
                spellings(paths@)[i as int],
            ));
        }
        i = i + 1;
    }
    proof {
        assert(spellings(paths@).take(i as int) =~= spellings(paths@));
    }
    copies
}

/// The warning for a group of several selectors.
fn warning_for(scope: &ConfiguredDirectoryScope) -> (w: RedundancyWarning)
    ensures
        w@ == scope@,
{
    RedundancyWarning {
        album_handle: scope.album_handle.clone(),
        resolved_directory: scope.resolved_directory.clone(),
        contributing_selectors: copy_paths(&scope.contributing_selectors),
    }
}

/// Groups one album's selectors from their resolution outcomes, which it
/// takes from the front of `outcomes`; appends the album's groups, failures
/// and redundancy warnings.
fn group_album(
    handle: &String,
    selectors: &Vec<PathBuf>,
    outcomes: &mut Vec<Result<PathBuf, std::io::Error>>,
    scopes: &mut Vec<ConfiguredDirectoryScope>,
    failures: &mut Vec<ConfiguredSelectorFailure>,
    warnings: &mut Vec<RedundancyWarning>,
)
    requires
        old(outcomes)@.len() >= selectors@.len(),
    ensures
        final(outcomes)@ == old(outcomes)@.skip(selectors@.len() as int),
        scope_models(final(scopes)@) == scope_models(old(scopes)@) + album_groups(
            handle@,
            spellings(selectors@),
            old(outcomes)@,
        ),
        failure_models(final(failures)@) == failure_models(old(failures)@) + album_failures(
            handle@,
            spellings(selectors@),
            old(outcomes)@,
        ),
        warning_models(final(warnings)@) == warning_models(old(warnings)@) + redundancies(
            album_groups(handle@, spellings(selectors@), old(outcomes)@),
        ),
{
    let ghost given = outcomes@;
    let ghost sels = spellings(selectors@);
    let ghost failures0 = failure_models(failures@);
    let mut album_scopes: Vec<ConfiguredDirectoryScope> = Vec::new();
    proof {
        assert(given.skip(0) =~= given);
        assert(sels.take(0) =~= Seq::<Seq<u8>>::empty());
        assert(failure_models(failures@) =~= failures0 + Seq::<SelectorFailureModel>::empty());
    }
    let mut j: usize = 0;
    while j < selectors.len()
        invariant
            j <= selectors@.len(),
            given.len() >= selectors@.len(),
            sels == spellings(selectors@),
            outcomes@ == given.skip(j as int),
            scope_models(album_scopes@) == album_groups(handle@, sels.take(j as int), given),
            failure_models(failures@) == failures0 + album_failures(handle@, sels.take(j as int), given),
        decreases selectors@.len() - j,
    {
        let outcome = outcomes.remove(0);
        proof {
            assert(outcome == given[j as int]);
            assert(outcomes@ =~= given.skip(j + 1));
            assert(sels.take(j + 1).drop_last() =~= sels.take(j as int));
            assert(sels.take(j + 1).last() == buf_spelling(selectors@[j as int]));
        }
        match outcome {
            Ok(resolved) => {
                add_resolved(&mut album_scopes, handle, &selectors[j], resolved);
            },
            Err(error) => {
                let failure = ConfiguredSelectorFailure {
                    album_handle: handle.clone(),
                    configured_selector: selectors[j].clone(),
                    error,
                };
                failures.push(failure);
                proof {
                    assert(failure_models(failures@) =~= (failures0 + album_failures(
                        handle@,
                        sels.take(j as int),
                        given,
                    )).push(failure@));
                }
            },
        }
        j = j + 1;
    }
    proof {
        assert(sels.take(j as int) =~= sels);
    }
    let ghost groups = album_groups(handle@, sels, given);
    let ghost warnings0 = warning_models(warnings@);
    proof {
        assert(groups.take(0) =~= Seq::<ScopeModel>::empty());
        assert(redundancies(Seq::<ScopeModel>::empty()) =~= Seq::<ScopeModel>::empty());
        assert(warning_models(warnings@) =~= warnings0 + redundancies(groups.take(0)));
    }
    let mut i: usize = 0;
    while i < album_scopes.len()
        invariant
            i <= album_scopes@.len(),
            scope_models(album_scopes@) == groups,
            warning_models(warnings@) == warnings0 + redundancies(groups.take(i as int)),
        decreases album_scopes@.len() - i,
    {
        proof {
            assert(groups.take(i + 1) =~= groups.take(i as int).push(groups[i as int]));
            groups.take(i as int).lemma_filter_push(groups[i as int], |s: ScopeModel| is_redundant(s));
        }
        if album_scopes[i].contributing_selectors.len() >= 2 {
            let warning = warning_for(&album_scopes[i]);
            warnings.push(warning);
            proof {
                assert(warning_models(warnings@) =~= (warnings0 + redundancies(
                    groups.take(i as int),
                )).push(warning@));
            }
        }
        i = i + 1;
    }
    proof {
        assert(groups.take(i as int) =~= groups);
    }
    let ghost scopes_before = scope_models(scopes@);
    scopes.append(&mut album_scopes);
    proof {
        assert(scope_models(scopes@) =~= scopes_before + groups);
    }
}

/// One source-root scope shared by albums without selectors.
#[derive(Debug)]
pub struct DefaultSourceRootScope {
    /// Source-root spelling supplied by the caller.
    pub original_source_root: PathBuf,
    /// Resolved path for later filesystem work.
    pub resolved_traversal_root: PathBuf,
    /// Albums that use this scope, in declaration order.
    pub dependent_album_handles: Vec<String>,
}

pub struct DefaultScopeModel {
    pub original_root: Seq<u8>,
    pub resolved_root: Seq<u8>,
    pub dependents: Seq<Seq<char>>,
}

impl View for DefaultSourceRootScope {
    type V = DefaultScopeModel;

    open spec fn view(&self) -> DefaultScopeModel {
        DefaultScopeModel {
            original_root: buf_spelling(self.original_source_root),
            resolved_root: buf_spelling(self.resolved_traversal_root),
            dependents: self.dependent_album_handles.deep_view(),
        }
    }
}

/// Why preparing the default source root failed.
#[derive(Debug)]
pub enum DefaultSourceRootFailureKind {
    /// The supplied root is empty. Whitespace is not empty.
    EmptyInput,
    /// The path form is not allowed on this host (no form is refused on
    /// hosts other than Windows).
    UnsupportedPathForm,
    /// Resolving the supplied root failed.
    ResolutionFailed {
        /// Filesystem error from resolution.
        error: std::io::Error,
    },
    /// Inspecting the resolved path failed.
    ResolvedPathInspectionFailed {
        /// Path that could not be inspected.
        resolved_path: PathBuf,
        /// Filesystem error from inspection.
        error: std::io::Error,
    },
    /// The resolved path is not a directory.
    ResolvedTargetNotDirectory {
        /// Path that is not a directory.
        resolved_path: PathBuf,
    },
}

pub enum DefaultFailureKindModel {
    EmptyInput,
    UnsupportedPathForm,
    ResolutionFailed(std::io::Error),
    ResolvedPathInspectionFailed(Seq<u8>, std::io::Error),
    ResolvedTargetNotDirectory(Seq<u8>),
}

impl View for DefaultSourceRootFailureKind {
    type V = DefaultFailureKindModel;

    open spec fn view(&self) -> DefaultFailureKindModel {
        match self {
            DefaultSourceRootFailureKind::EmptyInput => DefaultFailureKindModel::EmptyInput,
            DefaultSourceRootFailureKind::UnsupportedPathForm => DefaultFailureKindModel::UnsupportedPathForm,
            DefaultSourceRootFailureKind::ResolutionFailed { error } => DefaultFailureKindModel::ResolutionFailed(*error),
            DefaultSourceRootFailureKind::ResolvedPathInspectionFailed { resolved_path, error } => {
                DefaultFailureKindModel::ResolvedPathInspectionFailed(buf_spelling(*resolved_path), *error)
            },
            DefaultSourceRootFailureKind::ResolvedTargetNotDirectory { resolved_path } => {
                DefaultFailureKindModel::ResolvedTargetNotDirectory(buf_spelling(*resolved_path))
            },
        }
    }
}

/// Failure to prepare the shared default source root.
#[derive(Debug)]
pub struct DefaultSourceRootFailure {
    /// Source-root spelling supplied by the caller.
    pub original_source_root: PathBuf,
    /// Albums affected by the failure, in declaration order.
    pub dependent_album_handles: Vec<String>,
    /// Reason preparation failed.
    pub kind: DefaultSourceRootFailureKind,
}

pub struct DefaultFailureModel {
    pub original_root: Seq<u8>,
    pub dependents: Seq<Seq<char>>,
    pub kind: DefaultFailureKindModel,
}

impl View for DefaultSourceRootFailure {
    type V = DefaultFailureModel;

    open spec fn view(&self) -> DefaultFailureModel {
        DefaultFailureModel {
            original_root: buf_spelling(self.original_source_root),
            dependents: self.dependent_album_handles.deep_view(),
            kind: self.kind@,
        }
    }
}

/// What the caller's filesystem work reported of the source root: its
/// canonicalization, then a metadata lookup through the resolved path.
#[derive(Debug)]
pub enum DefaultRootProbe {
    /// Resolving the supplied root failed.
    Unresolved(std::io::Error),
    /// The root resolved, but inspecting the resolved path failed.
    Uninspectable { resolved_path: PathBuf, error: std::io::Error },
    /// The root resolved and its inspection reported whether it is a directory.
    Inspected { resolved_path: PathBuf, is_directory: bool },
}

/// Scopes from a successful preparation.
#[derive(Debug)]
pub struct PreparedAlbumScopes {
    /// Configured scopes in album and first-selector order.
    pub configured_directory_scopes: Vec<ConfiguredDirectoryScope>,
    /// Shared by albums without configured selectors, if any.
    pub default_source_root_scope: Option<DefaultSourceRootScope>,
}

pub struct PreparedModel {
    pub configured: Seq<ScopeModel>,
    pub default_root: Option<DefaultScopeModel>,
}

impl View for PreparedAlbumScopes {
    type V = PreparedModel;

    open spec fn view(&self) -> PreparedModel {
        PreparedModel {
            configured: scope_models(self.configured_directory_scopes@),
            default_root: match &self.default_source_root_scope {
                Some(s) => Some(s@),
                None => None,
            },
        }
    }
}

/// Result of preparing album filesystem scopes.
#[derive(Debug)]
pub enum AlbumScopePreparation {
    /// Every required scope was prepared.
    Prepared {
        /// The prepared scopes.
        scopes: PreparedAlbumScopes,
        /// Redundancy warnings from successful configured groups.
        warnings: Vec<RedundancyWarning>,
    },
    /// At least one required scope failed to prepare.
    Failed {
        /// Selector failures in album and selector order; duplicates stay separate.
        configured_failures: Vec<ConfiguredSelectorFailure>,
        /// Failure to prepare the shared default root, if needed.
        default_source_root_failure: Option<DefaultSourceRootFailure>,
        /// Redundancy warnings from successful configured groups.
        warnings: Vec<RedundancyWarning>,
    },
}

pub enum PreparationModel {
    Prepared { scopes: PreparedModel, warnings: Seq<ScopeModel> },
    Failed {
        failures: Seq<SelectorFailureModel>,
        default_failure: Option<DefaultFailureModel>,
        warnings: Seq<ScopeModel>,
    },
}

impl View for AlbumScopePreparation {
    type V = PreparationModel;

    open spec fn view(&self) -> PreparationModel {
        match self {
            AlbumScopePreparation::Prepared { scopes, warnings } => PreparationModel::Prepared {
                scopes: scopes@,
                warnings: warning_models(warnings@),
            },
            AlbumScopePreparation::Failed {
                configured_failures,
                default_source_root_failure,
                warnings,
            } => PreparationModel::Failed {
                failures: failure_models(configured_failures@),
                default_failure: match default_source_root_failure {
                    Some(f) => Some(f@),
                    None => None,
                },
                warnings: warning_models(warnings@),
            },
        }
    }
}

/// Handles of the albums without configured selectors, in declaration order.
pub open spec fn default_dependents(albums: Seq<(Seq<char>, AlbumModel)>) -> Seq<Seq<char>>
    decreases albums.len(),
{
    if albums.len() == 0 {
        Seq::empty()
    } else {
        let before = default_dependents(albums.drop_last());
        if albums.last().1.directories is None {
            before.push(albums.last().0)
        } else {
            before
        }
    }
}

/// Whether a non-empty default root with these facts has an admitted form.
/// Drive and UNC prefixes need a fully absolute root, a verbatim drive needs
/// its root component, a verbatim UNC prefix is admitted, device and other
/// verbatim prefixes are not; without a prefix, a root component is admitted
/// only on an absolute path (paths rooted on the current drive are not).
pub open spec fn root_form_admitted(
    prefix: Option<PathPrefix>,
    has_root: bool,
    is_absolute: bool,
    root_after_prefix: bool,
) -> bool {
    match prefix {
        Some(PathPrefix::Disk) | Some(PathPrefix::UNC) => is_absolute,
        Some(PathPrefix::VerbatimDisk) => root_after_prefix,
        Some(PathPrefix::VerbatimUNC) => true,
        Some(PathPrefix::DeviceNS) | Some(PathPrefix::Verbatim) => false,
        None => !has_root || is_absolute,
    }
}

/// Whether the default root with this spelling has an admitted form.
pub open spec fn root_form_supported(root: Seq<u8>) -> bool {
    root_form_admitted(
        leading_prefix(root),
        spells_rooted(root),
        spells_absolute(root),
        root_follows_first(root),
    )
}

/// Whether preparation needs the caller to resolve and inspect the source
/// root: some album depends on it, and the root is neither empty nor of an
/// unsupported form (both are refused without filesystem work).
pub open spec fn default_probe_needed(albums: Seq<(Seq<char>, AlbumModel)>, root: Seq<u8>) -> bool {
    default_dependents(albums).len() > 0 && root.len() > 0 && root_form_supported(root)
}

/// The resolved default root, or why it cannot serve as a scope.
pub open spec fn root_outcome(root: Seq<u8>, probe: Option<DefaultRootProbe>) -> Result<
    Seq<u8>,
    DefaultFailureKindModel,
>
    recommends
        root.len() > 0 && root_form_supported(root) ==> probe is Some,
{
    if root.len() == 0 {
        Err(DefaultFailureKindModel::EmptyInput)
    } else if !root_form_supported(root) {
        Err(DefaultFailureKindModel::UnsupportedPathForm)
    } else {
        match probe.unwrap() {
            DefaultRootProbe::Unresolved(e) => Err(DefaultFailureKindModel::ResolutionFailed(e)),
            DefaultRootProbe::Uninspectable { resolved_path, error } => Err(
                DefaultFailureKindModel::ResolvedPathInspectionFailed(buf_spelling(resolved_path), error),
            ),
            DefaultRootProbe::Inspected { resolved_path, is_directory } => if is_directory {
                Ok(buf_spelling(resolved_path))
            } else {
                Err(DefaultFailureKindModel::ResolvedTargetNotDirectory(buf_spelling(resolved_path)))
            },
        }
    }
}

/// The shared default scope, or its failure; nothing when no album needs it.
pub open spec fn default_preparation(
    root: Seq<u8>,
    dependents: Seq<Seq<char>>,
    probe: Option<DefaultRootProbe>,
) -> Option<Result<DefaultScopeModel, DefaultFailureModel>> {
    if dependents.len() == 0 {
        None
    } else {
        match root_outcome(root, probe) {
            Ok(resolved) => Some(
                Ok(DefaultScopeModel { original_root: root, resolved_root: resolved, dependents }),
            ),
            Err(kind) => Some(Err(DefaultFailureModel { original_root: root, dependents, kind })),
        }
    }
}

/// The whole preparation: scopes and warnings when no required resolution
/// failed, otherwise the failures and the warnings.
pub open spec fn preparation(
    albums: Seq<(Seq<char>, AlbumModel)>,
    root: Seq<u8>,
    outcomes: Seq<Result<PathBuf, std::io::Error>>,
    probe: Option<DefaultRootProbe>,
) -> PreparationModel {
    let groups = configured_groups(albums, outcomes);
    let failures = selector_failures(albums, outcomes);
    let default_root = default_preparation(root, default_dependents(albums), probe);
    if failures.len() == 0 && !(default_root matches Some(Err(_))) {
        PreparationModel::Prepared {
            scopes: PreparedModel {
                configured: groups,
                default_root: match default_root {
                    Some(Ok(s)) => Some(s),
                    _ => None,
                },
            },
            warnings: redundancies(groups),
        }
    } else {
        PreparationModel::Failed {
            failures,
            default_failure: match default_root {
                Some(Err(f)) => Some(f),
                _ => None,
            },
            warnings: redundancies(groups),
        }
    }
}

proof fn lemma_selector_list_prefix(albums: Seq<(Seq<char>, AlbumModel)>, i: int)
    requires
        0 <= i <= albums.len(),
    ensures
        configured_selector_list(albums.take(i)).len() <= configured_selector_list(albums).len(),
    decreases albums.len(),
{
    if i < albums.len() {
        assert(albums.drop_last().take(i) =~= albums.take(i));
        lemma_selector_list_prefix(albums.drop_last(), i);
    } else {
        assert(albums.take(i) =~= albums);
    }
}

/// Every configured selector, in album then selector order: the pathnames
/// the caller resolves (each against the supplied source root) before
/// preparation.
pub fn configured_selectors(spec: &LibraryBuildSpec) -> (r: Vec<PathBuf>)
    ensures
        spellings(r@) == configured_selector_list(spec@.albums),
{
    let albums = spec.albums();
    let ghost entries = album_entries(*albums);
    let n = album_count(albums);
    let mut selectors: Vec<PathBuf> = Vec::new();
    let mut k: usize = 0;
    proof {
        assert(entries.take(0) =~= Seq::<(Seq<char>, AlbumModel)>::empty());
        assert(spellings(selectors@) =~= Seq::<Seq<u8>>::empty());
    }
    while k < n
        invariant
            k <= n,
            n == entries.len(),
            entries == album_entries(*albums),
            spellings(selectors@) == configured_selector_list(entries.take(k as int)),
        decreases n - k,
    {
        let (_, album) = album_at(albums, k).unwrap();
        proof {
            assert(entries.take(k + 1).drop_last() =~= entries.take(k as int));
        }
        let ghost before = selectors@;
        match &album.directories {
            Some(directories) => {
                let mut copies = copy_paths(directories);
                selectors.append(&mut copies);
                proof {
                    assert(spellings(selectors@) =~= spellings(before) + spellings(directories@));
                }
            },
            None => {
                proof {
                    assert(spellings(selectors@) =~= spellings(before) + Seq::<Seq<u8>>::empty());
                }
            },
        }
        k = k + 1;
    }
    proof {
        assert(entries.take(k as int) =~= entries);
    }
    selectors
}

/// Whether a non-empty default root with these facts has an admitted form.
pub fn default_root_form_admitted(
    prefix: Option<PathPrefix>,
    has_root: bool,
    is_absolute: bool,
    root_after_prefix: bool,
) -> (r: bool)
    ensures
        r == root_form_admitted(prefix, has_root, is_absolute, root_after_prefix),
{
    match prefix {
        Some(PathPrefix::Disk) | Some(PathPrefix::UNC) => is_absolute,
        Some(PathPrefix::VerbatimDisk) => root_after_prefix,
        Some(PathPrefix::VerbatimUNC) => true,
        Some(PathPrefix::DeviceNS) | Some(PathPrefix::Verbatim) => false,
        None => !has_root || is_absolute,
    }
}

/// Whether the default root `root` has an admitted form.
pub fn default_root_form_supported(root: &Path) -> (r: bool)
    ensures
        r == root_form_supported(path_spelling(root)),
{
    default_root_form_admitted(
        component_prefix(root),
        path_has_root(root),
        path_is_absolute(root),
        root_after_first_component(root),
    )
}

/// Whether [`prepare_album_scopes`] needs the caller to resolve and inspect
/// the source root: some album has no configured selector, and the root is
/// neither empty nor of an unsupported form (both are rejected without
/// filesystem work).
pub fn default_root_probe_needed(spec: &LibraryBuildSpec, source_root: &Path) -> (r: bool)
    ensures
        r == default_probe_needed(spec@.albums, path_spelling(source_root)),
{
    let albums = spec.albums();
    let ghost entries = album_entries(*albums);
    let n = album_count(albums);
    let mut needed = false;
    let mut k: usize = 0;
    proof {
        assert(entries.take(0) =~= Seq::<(Seq<char>, AlbumModel)>::empty());
    }
    while k < n
        invariant
            k <= n,
            n == entries.len(),
            entries == album_entries(*albums),
            needed == (default_dependents(entries.take(k as int)).len() > 0),
        decreases n - k,
    {
        let (_, album) = album_at(albums, k).unwrap();
        proof {
            assert(entries.take(k + 1).drop_last() =~= entries.take(k as int));
        }
        if album.directories.is_none() {
            needed = true;
        }
        k = k + 1;
    }
    proof {
        assert(entries.take(k as int) =~= entries);
    }
    needed && !path_is_empty(source_root) && default_root_form_supported(source_root)
}

/// Resolves and checks the shared source root for albums that need it, from
/// what the caller's filesystem work reported.
fn prepare_default_source_root(
    source_root: &Path,
    dependent_album_handles: &Vec<String>,
    probe: Option<DefaultRootProbe>,
) -> (r: Result<DefaultSourceRootScope, DefaultSourceRootFailureKind>)
    requires
        path_spelling(source_root).len() > 0 && root_form_supported(path_spelling(source_root))
            ==> probe is Some,
    ensures
        match (r, root_outcome(path_spelling(source_root), probe)) {
            (Ok(scope), Ok(resolved)) => scope@ == DefaultScopeModel {
                original_root: path_spelling(source_root),
                resolved_root: resolved,
                dependents: dependent_album_handles.deep_view(),
            },
            (Err(kind), Err(expected)) => kind@ == expected,
            _ => false,
        },
{
    if path_is_empty(source_root) {
        return Err(DefaultSourceRootFailureKind::EmptyInput);
    }
    if !default_root_form_supported(source_root) {
        return Err(DefaultSourceRootFailureKind::UnsupportedPathForm);
    }
    match probe.unwrap() {
        DefaultRootProbe::Unresolved(error) => Err(
            DefaultSourceRootFailureKind::ResolutionFailed { error },
        ),
        DefaultRootProbe::Uninspectable { resolved_path, error } => Err(
            DefaultSourceRootFailureKind::ResolvedPathInspectionFailed { resolved_path, error },
        ),
        DefaultRootProbe::Inspected { resolved_path, is_directory } => {
            if !is_directory {
                return Err(DefaultSourceRootFailureKind::ResolvedTargetNotDirectory { resolved_path });
            }
            Ok(
                DefaultSourceRootScope {
                    original_source_root: owned_path(source_root),
                    resolved_traversal_root: resolved_path,
                    dependent_album_handles: copy_texts(dependent_album_handles),
                },
            )
        },
    }
}

/// Prepares filesystem scopes for the albums of `spec`.
///
/// `resolutions` holds the outcome of resolving every configured selector,
/// in the order [`configured_selectors`] lists them, each against
/// `source_root`. `default_root` is what resolving and inspecting
/// `source_root` reported, present exactly when
/// [`default_root_probe_needed`] says so.
///
/// Selectors whose resolved paths are equal form one scope within their
/// album; groups of several selectors produce one warning each. Failures are
/// collected and do not stop preparation. Scopes are returned only if every
/// required resolution succeeded; otherwise the failures and the warnings of
/// the successful groups are returned.
pub fn prepare_album_scopes(
    spec: &LibraryBuildSpec,
    source_root: &Path,
    resolutions: Vec<Result<PathBuf, std::io::Error>>,
    default_root: Option<DefaultRootProbe>,
) -> (r: AlbumScopePreparation)
    requires
        resolutions@.len() == configured_selector_list(spec@.albums).len(),
        default_root is Some <==> default_probe_needed(spec@.albums, path_spelling(source_root)),
    ensures
        r@ == preparation(spec@.albums, path_spelling(source_root), resolutions@, default_root),
{
    let albums = spec.albums();
    let ghost entries = album_entries(*albums);
    let ghost given = resolutions@;
    let n = album_count(albums);
    let mut outcomes = resolutions;
    let mut configured_directory_scopes: Vec<ConfiguredDirectoryScope> = Vec::new();
    let mut configured_failures: Vec<ConfiguredSelectorFailure> = Vec::new();
    let mut warnings: Vec<RedundancyWarning> = Vec::new();
    let mut dependent_album_handles: Vec<String> = Vec::new();
    proof {
        assert(entries.take(0) =~= Seq::<(Seq<char>, AlbumModel)>::empty());
        assert(given.skip(0) =~= given);
        assert(scope_models(configured_directory_scopes@) =~= Seq::<ScopeModel>::empty());
        assert(failure_models(configured_failures@) =~= Seq::<SelectorFailureModel>::empty());
        assert(warning_models(warnings@) =~= Seq::<ScopeModel>::empty());
        assert(redundancies(Seq::<ScopeModel>::empty()) =~= Seq::<ScopeModel>::empty());
        assert(dependent_album_handles.deep_view() =~= Seq::<Seq<char>>::empty());
    }
    let mut k: usize = 0;
    while k < n
        invariant
            k <= n,
            n == entries.len(),
            entries == album_entries(*albums),
            given.len() == configured_selector_list(entries).len(),
            outcomes@ == given.skip(configured_selector_list(entries.take(k as int)).len() as int),
            scope_models(configured_directory_scopes@) == configured_groups(entries.take(k as int), given),
            failure_models(configured_failures@) == selector_failures(entries.take(k as int), given),
            warning_models(warnings@) == redundancies(configured_groups(entries.take(k as int), given)),
            dependent_album_handles.deep_view() == default_dependents(entries.take(k as int)),
        decreases n - k,
    {
        let (handle, album) = album_at(albums, k).unwrap();
        let ghost before = entries.take(k as int);
        let ghost base = configured_selector_list(before).len();
        proof {
            assert(entries.take(k + 1).drop_last() =~= before);
            assert(entries.take(k + 1).last() == entries[k as int]);
            lemma_selector_list_prefix(entries, k + 1);
        }
        match &album.directories {
            Some(selectors) => {
                let ghost groups0 = scope_models(configured_directory_scopes@);
                let ghost warnings0 = warning_models(warnings@);
                group_album(
                    handle,
                    selectors,
                    &mut outcomes,
                    &mut configured_directory_scopes,
                    &mut configured_failures,
                    &mut warnings,
                );
                proof {
                    let added = album_groups(handle@, spellings(selectors@), given.skip(base as int));
                    assert(outcomes@ =~= given.skip(base + selectors@.len() as int));
                    Seq::filter_distributes_over_add(groups0, added, |s: ScopeModel| is_redundant(s));
                }
            },
            None => {
                let ghost handles0 = dependent_album_handles@;
                dependent_album_handles.push(handle.clone());
                proof {
                    assert(configured_selector_list(entries.take(k + 1)) =~= configured_selector_list(before));
                    assert(configured_groups(entries.take(k + 1), given) =~= configured_groups(before, given));
                    assert(selector_failures(entries.take(k + 1), given) =~= selector_failures(before, given));
                    assert(dependent_album_handles.deep_view() =~= default_dependents(before).push(handle@));
                }
            },
        }
        k = k + 1;
    }
    proof {
        assert(entries.take(k as int) =~= entries);
    }
    let mut default_source_root_scope: Option<DefaultSourceRootScope> = None;
    let mut default_source_root_failure: Option<DefaultSourceRootFailure> = None;
    if dependent_album_handles.len() > 0 {
        match prepare_default_source_root(source_root, &dependent_album_handles, default_root) {
            Ok(scope) => {
                default_source_root_scope = Some(scope);
            },
            Err(kind) => {
                default_source_root_failure = Some(
                    DefaultSourceRootFailure {
                        original_source_root: owned_path(source_root),
                        dependent_album_handles,
                        kind,
                    },
                );
            },
        }
    }
    if configured_failures.len() == 0 && default_source_root_failure.is_none() {
        AlbumScopePreparation::Prepared {
            scopes: PreparedAlbumScopes { configured_directory_scopes, default_source_root_scope },
            warnings,
        }
    } else {
        AlbumScopePreparation::Failed {
            configured_failures,
            default_source_root_failure,
            warnings,
        }
    }
}

/// How many selector occurrences the groups hold together.
pub open spec fn selector_total(groups: Seq<ScopeModel>) -> nat
    decreases groups.len(),
{
    if groups.len() == 0 {
        0
    } else {
        selector_total(groups.drop_last()) + groups.last().selectors.len()
    }
}

/// No two groups have equal resolved paths.
pub open spec fn distinct_paths(groups: Seq<ScopeModel>) -> bool {
    forall|i: int, j: int|
        0 <= i < j < groups.len() ==> !same_path(#[trigger] groups[i].resolved, #[trigger] groups[j].resolved)
}

proof fn lemma_total_push(groups: Seq<ScopeModel>, g: ScopeModel)
    ensures
        selector_total(groups.push(g)) == selector_total(groups) + g.selectors.len(),
{
    assert(groups.push(g).drop_last() =~= groups);
}

proof fn lemma_total_update(groups: Seq<ScopeModel>, i: int, g: ScopeModel)
    requires
        0 <= i < groups.len(),
    ensures
        selector_total(groups.update(i, g)) + groups[i].selectors.len() == selector_total(groups)
            + g.selectors.len(),
    decreases groups.len(),
{
    if i == groups.len() - 1 {
        assert(groups.update(i, g).drop_last() =~= groups.drop_last());
    } else {
        assert(groups.update(i, g).drop_last() =~= groups.drop_last().update(i, g));
        lemma_total_update(groups.drop_last(), i, g);
    }
}

proof fn lemma_total_concat(a: Seq<ScopeModel>, b: Seq<ScopeModel>)
    ensures
        selector_total(a + b) == selector_total(a) + selector_total(b),
    decreases b.len(),
{
    if b.len() > 0 {
        assert((a + b).drop_last() =~= a + b.drop_last());
        lemma_total_concat(a, b.drop_last());
    } else {
        assert(a + b =~= a);
    }
}

proof fn lemma_some_match_has_first(scopes: Seq<ScopeModel>, resolved: Seq<u8>, i: int)
    requires
        0 <= i < scopes.len(),
        same_path(scopes[i].resolved, resolved),
    ensures
        exists|k: int| first_match(scopes, resolved, k),
    decreases i,
{
    if exists|j: int| 0 <= j < i && same_path(#[trigger] scopes[j].resolved, resolved) {
        let j = choose|j: int| 0 <= j < i && same_path(#[trigger] scopes[j].resolved, resolved);
        lemma_some_match_has_first(scopes, resolved, j);
    } else {
        assert(first_match(scopes, resolved, i));
    }
}

/// Grouping one album's selectors partitions them: the groups have pairwise
/// distinct resolved paths, each belongs to the album and holds at least one
/// selector, every successfully resolved selector occurrence sits in the
/// group of its resolved path, and each occurrence is counted exactly once,
/// either in a group or as a failure.
pub proof fn album_grouping_partitions_selectors(
    handle: Seq<char>,
    selectors: Seq<Seq<u8>>,
    outcomes: Seq<Result<PathBuf, std::io::Error>>,
)
    requires
        outcomes.len() >= selectors.len(),
    ensures
        distinct_paths(album_groups(handle, selectors, outcomes)),
        forall|i: int|
            0 <= i < album_groups(handle, selectors, outcomes).len() ==> {
                &&& (#[trigger] album_groups(handle, selectors, outcomes)[i]).album_handle == handle
                &&& album_groups(handle, selectors, outcomes)[i].selectors.len() >= 1
            },
        forall|j: int|
            #![trigger outcomes[j]]
            0 <= j < selectors.len() && outcomes[j] is Ok ==> exists|i: int|
                0 <= i < album_groups(handle, selectors, outcomes).len() && same_path(
                    (#[trigger] album_groups(handle, selectors, outcomes)[i]).resolved,
                    buf_spelling(outcomes[j]->Ok_0),
                ) && album_groups(handle, selectors, outcomes)[i].selectors.contains(selectors[j]),
        selector_total(album_groups(handle, selectors, outcomes)) + album_failures(
            handle,
            selectors,
            outcomes,
        ).len() == selectors.len(),
    decreases selectors.len(),
{
    if selectors.len() > 0 {
        let n = selectors.len() - 1;
        let before_sels = selectors.drop_last();
        album_grouping_partitions_selectors(handle, before_sels, outcomes);
        let prev = album_groups(handle, before_sels, outcomes);
        let groups = album_groups(handle, selectors, outcomes);
        match outcomes[n] {
            Err(_) => {
                assert(groups == prev);
                assert forall|j: int|
                    #![trigger outcomes[j]]
                    0 <= j < selectors.len() && outcomes[j] is Ok implies exists|i: int|
                        0 <= i < groups.len() && same_path(
                            (#[trigger] groups[i]).resolved,
                            buf_spelling(outcomes[j]->Ok_0),
                        ) && groups[i].selectors.contains(selectors[j]) by {
                    assert(before_sels[j] == selectors[j]);
                }
            },
            Ok(p) => {
                let sp = buf_spelling(p);
                let sel = selectors.last();
                if exists|i: int| first_match(prev, sp, i) {
                    let i = choose|i: int| first_match(prev, sp, i);
                    let g = ScopeModel {
                        album_handle: prev[i].album_handle,
                        resolved: prev[i].resolved,
                        selectors: prev[i].selectors.push(sel),
                    };
                    assert(groups == prev.update(i, g));
                    lemma_total_update(prev, i, g);
                    assert forall|a: int, b: int|
                        0 <= a < b < groups.len() implies !same_path(
                        #[trigger] groups[a].resolved,
                        #[trigger] groups[b].resolved,
                    ) by {
                        assert(groups[a].resolved == prev[a].resolved);
                        assert(groups[b].resolved == prev[b].resolved);
                    }
                    assert forall|j: int|
                        #![trigger outcomes[j]]
                        0 <= j < selectors.len() && outcomes[j] is Ok implies exists|k: int|
                            0 <= k < groups.len() && same_path(
                                (#[trigger] groups[k]).resolved,
                                buf_spelling(outcomes[j]->Ok_0),
                            ) && groups[k].selectors.contains(selectors[j]) by {
                        if j == n {
                            assert(g.selectors.last() == sel);
                            assert(groups[i].selectors.contains(selectors[j]));
                        } else {
                            assert(before_sels[j] == selectors[j]);
                            let k = choose|k: int|
                                0 <= k < prev.len() && same_path(
                                    (#[trigger] prev[k]).resolved,
                                    buf_spelling(outcomes[j]->Ok_0),
                                ) && prev[k].selectors.contains(selectors[j]);
                            if k == i {
                                let m = choose|m: int|
                                    0 <= m < prev[k].selectors.len() && prev[k].selectors[m]
                                        == selectors[j];
                                assert(groups[k].selectors[m] == selectors[j]);
                            }
                            assert(groups[k].resolved == prev[k].resolved);
                        }
                    }
                } else {
                    let g = ScopeModel { album_handle: handle, resolved: sp, selectors: seq![sel] };
                    assert(groups == prev.push(g));
                    lemma_total_push(prev, g);
                    assert forall|a: int, b: int|
                        0 <= a < b < groups.len() implies !same_path(
                        #[trigger] groups[a].resolved,
                        #[trigger] groups[b].resolved,
                    ) by {
                        if b == prev.len() && same_path(prev[a].resolved, sp) {
                            lemma_some_match_has_first(prev, sp, a);
                        }
                    }
                    assert forall|j: int|
                        #![trigger outcomes[j]]
                        0 <= j < selectors.len() && outcomes[j] is Ok implies exists|k: int|
                            0 <= k < groups.len() && same_path(
                                (#[trigger] groups[k]).resolved,
                                buf_spelling(outcomes[j]->Ok_0),
                            ) && groups[k].selectors.contains(selectors[j]) by {
                        if j == n {
                            assert(groups[prev.len() as int].selectors[0] == sel);
                            assert(groups[prev.len() as int].selectors.contains(selectors[j]));
                        } else {
                            assert(before_sels[j] == selectors[j]);
                            let k = choose|k: int|
                                0 <= k < prev.len() && same_path(
                                    (#[trigger] prev[k]).resolved,
                                    buf_spelling(outcomes[j]->Ok_0),
                                ) && prev[k].selectors.contains(selectors[j]);
                            assert(groups[k] == prev[k]);
                        }
                    }
                }
            },
        }
    }
}

/// Every configured selector occurrence is accounted for exactly once:
/// either in one configured scope or as one failure.
pub proof fn configured_selectors_are_conserved(
    albums: Seq<(Seq<char>, AlbumModel)>,
    outcomes: Seq<Result<PathBuf, std::io::Error>>,
)
    requires
        outcomes.len() >= configured_selector_list(albums).len(),
    ensures
        selector_total(configured_groups(albums, outcomes)) + selector_failures(albums, outcomes).len()
            == configured_selector_list(albums).len(),
    decreases albums.len(),
{
    if albums.len() > 0 {
        let before = albums.drop_last();
        let base = configured_selector_list(before).len();
        let sels = album_selectors(albums.last().1);
        configured_selectors_are_conserved(before, outcomes);
        album_grouping_partitions_selectors(albums.last().0, sels, outcomes.skip(base as int));
        lemma_total_concat(
            configured_groups(before, outcomes),
            album_groups(albums.last().0, sels, outcomes.skip(base as int)),
        );
    }
}

proof fn lemma_album_failures_empty(
    handle: Seq<char>,
    selectors: Seq<Seq<u8>>,
    outcomes: Seq<Result<PathBuf, std::io::Error>>,
)
    requires
        outcomes.len() >= selectors.len(),
    ensures
        album_failures(handle, selectors, outcomes).len() == 0 <==> forall|j: int|
            0 <= j < selectors.len() ==> (#[trigger] outcomes[j]) is Ok,
    decreases selectors.len(),
{
    if selectors.len() > 0 {
        lemma_album_failures_empty(handle, selectors.drop_last(), outcomes);
    }
}

proof fn lemma_selector_failures_empty(
    albums: Seq<(Seq<char>, AlbumModel)>,
    outcomes: Seq<Result<PathBuf, std::io::Error>>,
)
    requires
        outcomes.len() >= configured_selector_list(albums).len(),
    ensures
        selector_failures(albums, outcomes).len() == 0 <==> forall|j: int|
            0 <= j < configured_selector_list(albums).len() ==> (#[trigger] outcomes[j]) is Ok,
    decreases albums.len(),
{
    if albums.len() > 0 {
        let before = albums.drop_last();
        let base = configured_selector_list(before).len() as int;
        let sels = album_selectors(albums.last().1);
        let rest = outcomes.skip(base);
        lemma_selector_failures_empty(before, outcomes);
        lemma_album_failures_empty(albums.last().0, sels, rest);
        let all_ok = forall|j: int|
            0 <= j < configured_selector_list(albums).len() ==> (#[trigger] outcomes[j]) is Ok;
        if all_ok {
            assert forall|j: int| 0 <= j < sels.len() implies (#[trigger] rest[j]) is Ok by {
                assert(rest[j] == outcomes[base + j]);
            }
        }
        if selector_failures(albums, outcomes).len() == 0 {
            assert forall|j: int|
                0 <= j < configured_selector_list(albums).len() implies (
                #[trigger] outcomes[j]) is Ok by {
                if j >= base {
                    assert(rest[j - base] == outcomes[j]);
                }
            }
        }
    }
}

/// Preparation returns scopes exactly when every configured selector
/// resolved and, where some album depends on the default root, the root
/// could serve as a scope.
pub proof fn preparation_succeeds_exactly_when_every_resolution_succeeds(
    albums: Seq<(Seq<char>, AlbumModel)>,
    root: Seq<u8>,
    outcomes: Seq<Result<PathBuf, std::io::Error>>,
    probe: Option<DefaultRootProbe>,
)
    requires
        outcomes.len() == configured_selector_list(albums).len(),
    ensures
        preparation(albums, root, outcomes, probe) is Prepared <==> {
            &&& forall|j: int| 0 <= j < outcomes.len() ==> (#[trigger] outcomes[j]) is Ok
            &&& default_dependents(albums).len() > 0 ==> root_outcome(root, probe) is Ok
        },
{
    lemma_selector_failures_empty(albums, outcomes);
}

/// The redundancy warnings are exactly the configured groups that hold
/// several selectors, in the groups' order.
pub proof fn warnings_are_exactly_the_shared_groups(groups: Seq<ScopeModel>)
    ensures
        forall|k: int|
            0 <= k < redundancies(groups).len() ==> (#[trigger] redundancies(groups)[k]).selectors.len()
                >= 2 && groups.contains(redundancies(groups)[k]),
        forall|g: ScopeModel|
            groups.contains(g) && g.selectors.len() >= 2 ==> #[trigger] redundancies(groups).contains(g),
{
    let pred = |s: ScopeModel| is_redundant(s);
    assert forall|k: int| 0 <= k < redundancies(groups).len() implies (
    #[trigger] redundancies(groups)[k]).selectors.len() >= 2 && groups.contains(
        redundancies(groups)[k],
    ) by {
        groups.lemma_filter_pred(pred, k);
        groups.lemma_filter_contains_rev(pred, redundancies(groups)[k]);
    }
    assert forall|g: ScopeModel| groups.contains(g) && g.selectors.len() >= 2 implies #[trigger] redundancies(
        groups,
    ).contains(g) by {
        let i = choose|i: int| 0 <= i < groups.len() && groups[i] == g;
        groups.lemma_filter_contains(pred, i);
    }
}

proof fn lemma_selector_list_nonempty(albums: Seq<(Seq<char>, AlbumModel)>)
    requires
        forall|i: int| 0 <= i < albums.len() ==> album_well_formed(#[trigger] albums[i].1),
    ensures
        forall|j: int|
            0 <= j < configured_selector_list(albums).len() ==> (#[trigger] configured_selector_list(
                albums,
            )[j]).len() > 0,
    decreases albums.len(),
{
    if albums.len() > 0 {
        let before = albums.drop_last();
        assert forall|i: int| 0 <= i < before.len() implies album_well_formed(#[trigger] before[i].1) by {
            assert(before[i] == albums[i]);
        }
        lemma_selector_list_nonempty(before);
        assert(album_well_formed(albums[albums.len() - 1].1));
        let list = configured_selector_list(albums);
        let head = configured_selector_list(before);
        let last = album_selectors(albums.last().1);
        assert forall|j: int| 0 <= j < list.len() implies (#[trigger] list[j]).len() > 0 by {
            if j < head.len() {
                assert(list[j] == head[j]);
            } else {
                assert(list[j] == last[j - head.len()]);
            }
        }
    }
}

/// Every configured selector of a validated configuration is a nonempty
/// spelling, so building its effective pathname never meets the
/// empty-selector rejection.
pub proof fn validated_selectors_are_never_empty(raw: RawLibraryBuildSpecModel)
    requires
        validation(raw) is Ok,
    ensures
        forall|j: int|
            0 <= j < configured_selector_list(validation(raw)->Ok_0.albums).len() ==> (
            #[trigger] configured_selector_list(validation(raw)->Ok_0.albums)[j]).len() > 0,
{
    let albums = validation(raw)->Ok_0.albums;
    validated_albums_are_well_formed(raw);
    assert forall|i: int| 0 <= i < albums.len() implies album_well_formed(#[trigger] albums[i].1) by {
        assert(albums[i] == validation(raw)->Ok_0.albums[i]);
    }
    lemma_selector_list_nonempty(albums);
}

/// Two album lists with the same handles and the same configured
/// directories, album by album (names and artists may differ).
pub open spec fn same_scoping(a: Seq<(Seq<char>, AlbumModel)>, b: Seq<(Seq<char>, AlbumModel)>) -> bool {
    &&& a.len() == b.len()
    &&& forall|i: int|
        0 <= i < a.len() ==> (#[trigger] a[i]).0 == b[i].0 && a[i].1.directories == b[i].1.directories
}

proof fn lemma_same_scoping(
    a: Seq<(Seq<char>, AlbumModel)>,
    b: Seq<(Seq<char>, AlbumModel)>,
    outcomes: Seq<Result<PathBuf, std::io::Error>>,
)
    requires
        same_scoping(a, b),
    ensures
        configured_selector_list(a) == configured_selector_list(b),
        configured_groups(a, outcomes) == configured_groups(b, outcomes),
        selector_failures(a, outcomes) == selector_failures(b, outcomes),
        default_dependents(a) == default_dependents(b),
    decreases a.len(),
{
    if a.len() > 0 {
        let (a0, b0) = (a.drop_last(), b.drop_last());
        assert forall|i: int| 0 <= i < a0.len() implies (#[trigger] a0[i]).0 == b0[i].0
            && a0[i].1.directories == b0[i].1.directories by {
            assert(a0[i] == a[i] && b0[i] == b[i]);
        }
        lemma_same_scoping(a0, b0, outcomes);
        assert(a.last().0 == b.last().0 && a.last().1.directories == b.last().1.directories) by {
            assert(a[a.len() - 1] == a.last());
        }
    }
}

/// Scope preparation reads nothing of the configuration but the album
/// handles and their configured directories, in order: profiles that agree
/// on those (whatever their files, rules, names or artists) list the same
/// selectors, need the same root probe, and prepare alike. The later stages
/// take the prepared scopes and scans, not the configuration.
pub proof fn preparation_depends_only_on_handles_and_directories(
    a: Seq<(Seq<char>, AlbumModel)>,
    b: Seq<(Seq<char>, AlbumModel)>,
    root: Seq<u8>,
    outcomes: Seq<Result<PathBuf, std::io::Error>>,
    probe: Option<DefaultRootProbe>,
)
    requires
        same_scoping(a, b),
    ensures
        configured_selector_list(a) == configured_selector_list(b),
        default_probe_needed(a, root) == default_probe_needed(b, root),
        preparation(a, root, outcomes, probe) == preparation(b, root, outcomes, probe),
{
    lemma_same_scoping(a, b, outcomes);
}

} // verus!
