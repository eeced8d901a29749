//! Discovered files for prepared album scopes.
//!
//! Each required scope is scanned once, by the caller, under its resolved
//! root: the configured scopes in preparation order, then the shared default
//! scope if there is one. Configured scopes and the default scope stay
//! separate even when their roots are equal or overlap. If any scan failed,
//! every failure is reported and the successful scans are discarded.

use crate::album_scope::{
    scope_models, ConfiguredDirectoryScope, DefaultSourceRootScope, PreparedAlbumScopes, PreparedModel,
    RedundancyWarning, ScopeModel,
};
use crate::config::spellings;
use crate::discovery::DiscoveryError;
use crate::paths::buf_spelling;
use std::path::PathBuf;
use vstd::prelude::*;

verus! {

/// A configured scope and the files found under its resolved root.
#[derive(Debug)]
pub struct ConfiguredScopeCoverage {
    /// Prepared configured-directory scope, including its contributing selectors.
    pub scope: ConfiguredDirectoryScope,
    /// Files found under the resolved directory.
    pub files: Vec<PathBuf>,
}

/// The shared default scope and the files found under its resolved root.
#[derive(Debug)]
pub struct DefaultScopeCoverage {
    /// Prepared scope and dependent albums.
    pub scope: DefaultSourceRootScope,
    /// Files found under the resolved traversal root.
    pub files: Vec<PathBuf>,
}

/// Discovered files grouped by required scope.
#[derive(Debug)]
pub struct RequiredCoverage {
    /// Configured scopes in preparation order.
    pub configured: Vec<ConfiguredScopeCoverage>,
    /// Shared default scope, if required.
    pub default_root: Option<DefaultScopeCoverage>,
}

/// A configured scope and its discovery error.
#[derive(Debug)]
pub struct ConfiguredScopeFailure {
    /// Affected configured-directory scope.
    pub scope: ConfiguredDirectoryScope,
    /// Original discovery error.
    pub error: DiscoveryError,
}

/// The shared default scope and its discovery error.
#[derive(Debug)]
pub struct DefaultScopeFailure {
    /// Affected scope and dependent albums.
    pub scope: DefaultSourceRootScope,
    /// Original discovery error.
    pub error: DiscoveryError,
}

/// Failures grouped by required scope.
#[derive(Debug)]
pub struct RequiredFailures {
    /// Configured-scope failures in preparation order.
    pub configured: Vec<ConfiguredScopeFailure>,
    /// Shared default-scope failure, if any.
    pub default_root: Option<DefaultScopeFailure>,
}

/// Outcome of discovery across all required scopes.
#[derive(Debug)]
pub enum RequiredDiscovery {
    /// Every required scan succeeded.
    Completed {
        /// Coverage for every required scope, including empty scopes.
        coverage: RequiredCoverage,
        /// Preparation warnings.
        warnings: Vec<RedundancyWarning>,
    },
    /// One or more scans failed; partial coverage is discarded.
    Failed {
        /// All failures.
        failures: RequiredFailures,
        /// Preparation warnings.
        warnings: Vec<RedundancyWarning>,
    },
}

/// The roots to scan, one per required scope: the configured scopes'
/// resolved directories in order, then the default scope's resolved root.
pub open spec fn scan_root_list(scopes: PreparedModel) -> Seq<Seq<u8>> {
    scopes.configured.map_values(|s: ScopeModel| s.resolved) + match scopes.default_root {
        Some(d) => seq![d.resolved_root],
        None => Seq::empty(),
    }
}

/// How many scans the prepared scopes require.
pub open spec fn required_scan_count(scopes: PreparedAlbumScopes) -> nat {
    scopes.configured_directory_scopes@.len() + if scopes.default_source_root_scope is Some {
        1nat
    } else {
        0nat
    }
}

/// The scans that failed among the configured scopes, in order, each with
/// its scope.
pub open spec fn configured_scan_failures(
    scopes: Seq<ConfiguredDirectoryScope>,
    scans: Seq<Result<Vec<PathBuf>, DiscoveryError>>,
) -> Seq<ConfiguredScopeFailure>
    decreases scopes.len(),
{
    if scopes.len() == 0 {
        Seq::empty()
    } else {
        let before = configured_scan_failures(scopes.drop_last(), scans);
        match scans[scopes.len() - 1] {
            Ok(_) => before,
            Err(e) => before.push(ConfiguredScopeFailure { scope: scopes.last(), error: e }),
        }
    }
}

/// The successful scans among the configured scopes, in order, each with
/// its scope.
pub open spec fn configured_scan_coverage(
    scopes: Seq<ConfiguredDirectoryScope>,
    scans: Seq<Result<Vec<PathBuf>, DiscoveryError>>,
) -> Seq<ConfiguredScopeCoverage>
    decreases scopes.len(),
{
    if scopes.len() == 0 {
        Seq::empty()
    } else {
        let before = configured_scan_coverage(scopes.drop_last(), scans);
        match scans[scopes.len() - 1] {
            Ok(files) => before.push(ConfiguredScopeCoverage { scope: scopes.last(), files }),
            Err(_) => before,
        }
    }
}

proof fn lemma_full_coverage(
    scopes: Seq<ConfiguredDirectoryScope>,
    scans: Seq<Result<Vec<PathBuf>, DiscoveryError>>,
)
    requires
        scans.len() >= scopes.len(),
        forall|i: int| 0 <= i < scopes.len() ==> (#[trigger] scans[i]) is Ok,
    ensures
        configured_scan_coverage(scopes, scans).len() == scopes.len(),
        forall|i: int|
            0 <= i < scopes.len() ==> #[trigger] configured_scan_coverage(scopes, scans)[i]
                == (ConfiguredScopeCoverage { scope: scopes[i], files: scans[i]->Ok_0 }),
    decreases scopes.len(),
{
    if scopes.len() > 0 {
        lemma_full_coverage(scopes.drop_last(), scans);
        assert(scans[scopes.len() - 1] is Ok);
    }
}

proof fn lemma_no_failures(
    scopes: Seq<ConfiguredDirectoryScope>,
    scans: Seq<Result<Vec<PathBuf>, DiscoveryError>>,
)
    requires
        scans.len() >= scopes.len(),
    ensures
        configured_scan_failures(scopes, scans).len() == 0 <==> (forall|i: int|
            0 <= i < scopes.len() ==> ((#[trigger] scans[i]) is Ok)),
    decreases scopes.len(),
{
    if scopes.len() > 0 {
        lemma_no_failures(scopes.drop_last(), scans);
    }
}

/// The roots to scan, one per required scope, in the order
/// [`discover_required_files`] takes the scans.
pub fn scan_roots(scopes: &PreparedAlbumScopes) -> (r: Vec<PathBuf>)
    ensures
        spellings(r@) == scan_root_list(scopes@),
{
    let ghost expected = scan_root_list(scopes@);
    let ghost models = scopes@.configured;
    let mut roots: Vec<PathBuf> = Vec::new();
    let mut i: usize = 0;
    while i < scopes.configured_directory_scopes.len()
        invariant
            i <= scopes.configured_directory_scopes@.len(),
            models == scopes@.configured,
            models == scope_models(scopes.configured_directory_scopes@),
            spellings(roots@) =~= models.map_values(|s: ScopeModel| s.resolved).take(i as int),
        decreases scopes.configured_directory_scopes@.len() - i,
    {
        let ghost before = roots@;
        roots.push(scopes.configured_directory_scopes[i].resolved_directory.clone());
        proof {
            assert(models[i as int] == scopes.configured_directory_scopes@[i as int]@);
            assert(spellings(roots@) =~= spellings(before).push(models[i as int].resolved));
            assert(models.map_values(|s: ScopeModel| s.resolved).take(i + 1)
                =~= models.map_values(|s: ScopeModel| s.resolved).take(i as int).push(
                models[i as int].resolved,
            ));
        }
        i = i + 1;
    }
    let ghost configured_roots = roots@;
    match &scopes.default_source_root_scope {
        Some(default_scope) => {
            roots.push(default_scope.resolved_traversal_root.clone());
            proof {
                assert(spellings(roots@) =~= spellings(configured_roots).push(
                    buf_spelling(default_scope.resolved_traversal_root),
                ));
            }
        },
        None => {},
    }
    proof {
        assert(models.map_values(|s: ScopeModel| s.resolved).take(i as int) =~= models.map_values(
            |s: ScopeModel| s.resolved,
        ));
        assert(spellings(roots@) =~= expected);
    }
    roots
}

/// Pairs each required scope with its scan, taken in [`scan_roots`] order.
///
/// All scans count: if every one succeeded, the coverage of every scope
/// (empty ones included) is returned; otherwise every failure is returned and
/// the successful scans are discarded. `warnings` accompany either outcome.
pub fn discover_required_files(
    scopes: PreparedAlbumScopes,
    warnings: Vec<RedundancyWarning>,
    scans: Vec<Result<Vec<PathBuf>, DiscoveryError>>,
) -> (r: RequiredDiscovery)
    requires
        scans@.len() == required_scan_count(scopes),
    ensures
        r is Completed <==> (forall|i: int| 0 <= i < scans@.len() ==> ((#[trigger] scans@[i]) is Ok)),
        r matches RequiredDiscovery::Completed { coverage, warnings: w } ==> {
            &&& w == warnings
            &&& coverage.configured@.len() == scopes.configured_directory_scopes@.len()
            &&& forall|i: int|
                0 <= i < scopes.configured_directory_scopes@.len() ==> #[trigger] coverage.configured@[i]
                    == (ConfiguredScopeCoverage {
                    scope: scopes.configured_directory_scopes@[i],
                    files: scans@[i]->Ok_0,
                })
            &&& coverage.default_root == match scopes.default_source_root_scope {
                Some(s) => Some(
                    (DefaultScopeCoverage {
                        scope: s,
                        files: scans@[scopes.configured_directory_scopes@.len() as int]->Ok_0,
                    }),
                ),
                None => None,
            }
        },
        r matches RequiredDiscovery::Failed { failures, warnings: w } ==> {
            &&& w == warnings
            &&& failures.configured@ == configured_scan_failures(
                scopes.configured_directory_scopes@,
                scans@,
            )
            &&& failures.default_root == match scopes.default_source_root_scope {
                Some(s) => match scans@[scopes.configured_directory_scopes@.len() as int] {
                    Err(e) => Some((DefaultScopeFailure { scope: s, error: e })),
                    Ok(_) => None,
                },
                None => None,
            }
        },
{
    let ghost configured = scopes.configured_directory_scopes@;
    let ghost given = scans@;
    let PreparedAlbumScopes { configured_directory_scopes, default_source_root_scope } = scopes;
    let n = configured_directory_scopes.len();
    let mut remaining_scopes = configured_directory_scopes;
    let mut remaining_scans = scans;
    let mut coverage: Vec<ConfiguredScopeCoverage> = Vec::new();
    let mut failures: Vec<ConfiguredScopeFailure> = Vec::new();
    proof {
        assert(configured.skip(0) =~= configured);
        assert(given.skip(0) =~= given);
        assert(configured.take(0) =~= Seq::<ConfiguredDirectoryScope>::empty());
    }
    let mut i: usize = 0;
    while i < n
        invariant
            i <= n,
            n == configured.len(),
            given.len() >= n,
            remaining_scopes@ == configured.skip(i as int),
            remaining_scans@ == given.skip(i as int),
            coverage@ == configured_scan_coverage(configured.take(i as int), given),
            failures@ == configured_scan_failures(configured.take(i as int), given),
        decreases n - i,
    {
        let scope = remaining_scopes.remove(0);
        let scan = remaining_scans.remove(0);
        proof {
            assert(scope == configured[i as int]);
            assert(scan == given[i as int]);
            assert(remaining_scopes@ =~= configured.skip(i + 1));
            assert(remaining_scans@ =~= given.skip(i + 1));
            assert(configured.take(i + 1).drop_last() =~= configured.take(i as int));
        }
        match scan {
            Ok(files) => {
                coverage.push(ConfiguredScopeCoverage { scope, files });
            },
            Err(error) => {
                failures.push(ConfiguredScopeFailure { scope, error });
            },
        }
        i = i + 1;
    }
    proof {
        assert(configured.take(n as int) =~= configured);
        lemma_no_failures(configured, given);
    }
    let mut default_coverage: Option<DefaultScopeCoverage> = None;
    let mut default_failure: Option<DefaultScopeFailure> = None;
    match default_source_root_scope {
        Some(scope) => {
            let scan = remaining_scans.remove(0);
            proof {
                assert(scan == given[n as int]);
            }
            match scan {
                Ok(files) => {
                    default_coverage = Some(DefaultScopeCoverage { scope, files });
                },
                Err(error) => {
                    default_failure = Some(DefaultScopeFailure { scope, error });
                },
            }
        },
        None => {},
    }
    if failures.len() == 0 && default_failure.is_none() {
        proof {
            assert forall|j: int| 0 <= j < given.len() implies (#[trigger] given[j]) is Ok by {
                if j < n {
                    assert(given[j] is Ok);
                }
            }
            lemma_full_coverage(configured, given);
        }
        RequiredDiscovery::Completed {
            coverage: RequiredCoverage { configured: coverage, default_root: default_coverage },
            warnings,
        }
    } else {
        proof {
            if failures.len() > 0 {
                let j = choose|j: int| 0 <= j < n && !(#[trigger] given[j] is Ok);
                assert(!(given[j] is Ok));
            } else {
                assert(!(given[n as int] is Ok));
            }
        }
        RequiredDiscovery::Failed {
            failures: RequiredFailures { configured: failures, default_root: default_failure },
            warnings,
        }
    }
}

} // verus!
