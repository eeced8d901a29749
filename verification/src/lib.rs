//! Parsing and validation of Scarab's TOML configuration, recognition of
//! source-audio candidates among pathnames, and the decisions that turn the
//! configured album selectors, their resolutions and the discovered files
//! into a candidate inventory.
//!
//! [`parse`] deserializes TOML text into the validated [`LibraryBuildSpec`]
//! model or reports the first problem it finds. Ambiguity, such as a rule
//! applied twice, is rejected instead of being decided by declaration order.
//!
//! Filesystem work (resolving selectors, inspecting the source root,
//! walking directories) is done by the caller; the library decides from
//! what that work reported: [`album_directory`] builds the pathname a
//! selector names, [`album_scope`] groups resolved selectors into scopes,
//! [`required_discovery`] pairs scopes with their scans, and
//! [`candidate_inventory`] combines the scans into candidates.

pub mod album_directory;
pub mod album_scope;
pub mod candidate_inventory;
mod config;
mod config_schema;
pub mod discovery;
pub mod probe;
mod paths;
pub mod required_discovery;
mod source_audio;
mod text;
mod toml_input;
pub mod validated;

pub use candidate_inventory::{
    Candidate, CandidateInventory, CandidateInventoryFailure, CandidateInventorySuccess,
    ConfiguredSelectorFailure, DefaultSourceRootFailure, DefaultSourceRootFailureKind,
    RedundantConfiguredSelectors, RequiredScope, RequiredScopeDiscoveryFailure,
};
pub use config::{
    Album, AlbumRule, Codec, EncodingProfile, Files, InvalidLibraryBuildSpec, LibraryBuildSpec,
    SizeMode, TrackAction, TrackRule, TrackRuleGroup, TrackTarget,
};
pub use config_schema::{parse, parse_table, LibraryBuildSpecError, SchemaMismatch, TomlError};
pub use discovery::DiscoveryError;
pub use probe::ProbedTrack;
pub use paths::PathPrefix;
pub use source_audio::{classify_source_audio, SourceAudioFormat};
