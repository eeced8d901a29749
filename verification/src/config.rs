//! The validated library build configuration and the rules that produce it.
//!
//! A configuration document is first decoded into raw declarations
//! (`crate::config_schema`), then validated here. Validation rejects
//! ambiguity instead of resolving it by declaration order, and reports the
//! first violated rule in a fixed order: the size mode, then every album
//! declaration in declaration order, then album rules, then track rules.

use std::path::PathBuf;

use indexmap::IndexMap;
use vstd::prelude::*;

use crate::paths::{buf_spelling, path_from_string};
use crate::text::{append_decimal, decimal};
use vstd::utf8::encode_utf8;

verus! {

/// The only codec supported by the prototype.
#[derive(Debug, Clone, Copy, PartialEq, Eq, Structural)]
pub enum Codec {
    Opus,
}

/// Opus encoding profile, defaulting to `music` when omitted.
#[derive(Debug, Clone, Copy, PartialEq, Eq, Structural)]
pub enum EncodingProfile {
    Music,
    NoProfile,
}

impl View for Codec {
    type V = Codec;

    open spec fn view(&self) -> Codec {
        *self
    }
}

impl View for EncodingProfile {
    type V = EncodingProfile;

    open spec fn view(&self) -> EncodingProfile {
        *self
    }
}

impl Default for EncodingProfile {
    fn default() -> (r: Self)
        ensures
            r == EncodingProfile::Music,
    {
        EncodingProfile::Music
    }
}

/// Global output size mode with exactly one of the two forms configured.
#[derive(Debug, Clone, PartialEq, Eq)]
pub enum SizeMode {
    /// Constant bitrate in kbps as configured by `bitrate`.
    Bitrate(u32),
    /// Target size exactly as configured by `target_size`. Sizing strings
    /// are not interpreted yet.
    TargetSize(String),
}

pub enum SizeModeModel {
    Bitrate(u32),
    TargetSize(Seq<char>),
}

impl View for SizeMode {
    type V = SizeModeModel;

    open spec fn view(&self) -> SizeModeModel {
        match self {
            SizeMode::Bitrate(b) => SizeModeModel::Bitrate(*b),
            SizeMode::TargetSize(t) => SizeModeModel::TargetSize(t@),
        }
    }
}

/// Optional selection for the output library.
///
/// `include` and `exclude` may both be configured. Selection semantics are
/// not applied by this parser.
#[derive(Debug, PartialEq, Eq)]
pub struct Files {
    /// Copy a standalone front cover when one is found.
    pub album_art: Option<bool>,
    /// File extensions to include.
    pub included: Option<Vec<String>>,
    /// File extensions to exclude.
    pub exclude: Option<Vec<String>>,
}

pub struct FilesModel {
    pub album_art: Option<bool>,
    pub included: Option<Seq<Seq<char>>>,
    pub exclude: Option<Seq<Seq<char>>>,
}

impl View for Files {
    type V = FilesModel;

    open spec fn view(&self) -> FilesModel {
        FilesModel {
            album_art: self.album_art,
            included: self.included.deep_view(),
            exclude: self.exclude.deep_view(),
        }
    }
}

impl Default for Files {
    fn default() -> (r: Self)
        ensures
            r@ == (FilesModel { album_art: None, included: None, exclude: None }),
    {
        Files { album_art: None, included: None, exclude: None }
    }
}

/// Optional selectors for one declared album.
///
/// `name` and `artist` are optional, independent metadata predicates.
/// Supplied values are preserved exactly.
///
/// `directories` is the collapsed filesystem candidate scope from the
/// `directory` or `directories` configuration fields. `None` means no
/// filesystem scope was configured, in which case resolution uses the
/// caller-supplied default scope. Configured directories are preserved
/// exactly, including order, duplicates, and relative/absolute spelling.
#[derive(Debug, Clone, PartialEq, Eq)]
pub struct Album {
    pub name: Option<String>,
    pub artist: Option<String>,
    pub directories: Option<Vec<PathBuf>>,
}

pub struct AlbumModel {
    pub name: Option<Seq<char>>,
    pub artist: Option<Seq<char>>,
    /// The spellings of the configured directories.
    pub directories: Option<Seq<Seq<u8>>>,
}

pub open spec fn spellings(paths: Seq<PathBuf>) -> Seq<Seq<u8>> {
    paths.map_values(|p: PathBuf| buf_spelling(p))
}

impl View for Album {
    type V = AlbumModel;

    open spec fn view(&self) -> AlbumModel {
        AlbumModel {
            name: self.name.deep_view(),
            artist: self.artist.deep_view(),
            directories: match &self.directories {
                Some(d) => Some(spellings(d@)),
                None => None,
            },
        }
    }
}

/// A bitrate override applied to every track of one or more declared albums.
#[derive(Debug, PartialEq, Eq)]
pub struct AlbumRule {
    pub album_handles: Vec<String>,
    pub bitrate: u32,
}

pub struct AlbumRuleModel {
    pub album_handles: Seq<Seq<char>>,
    pub bitrate: u32,
}

impl View for AlbumRule {
    type V = AlbumRuleModel;

    open spec fn view(&self) -> AlbumRuleModel {
        AlbumRuleModel { album_handles: self.album_handles.deep_view(), bitrate: self.bitrate }
    }
}

/// A group of track overrides for one declared album.
#[derive(Debug, Clone, PartialEq, Eq)]
pub struct TrackRuleGroup {
    pub album_handle: String,
    pub rules: Vec<TrackRule>,
}

/// One or more tracks ([`TrackTarget`]) and the action ([`TrackAction`])
/// to perform on them.
#[derive(Debug, Clone, PartialEq, Eq)]
pub struct TrackRule {
    pub target: TrackTarget,
    pub action: TrackAction,
}

/// The track names a rule applies to.
#[derive(Debug, Clone, PartialEq, Eq)]
pub enum TrackTarget {
    /// A single track name.
    Track(String),
    /// A list of track names. [`parse`](crate::parse) guarantees the list is
    /// non-empty. Independently constructed `TrackTarget`s do not make this
    /// guarantee.
    Tracks(Vec<String>),
}

/// The effect to be applied to a track.
#[derive(Debug, Clone, Copy, PartialEq, Eq, Structural)]
pub enum TrackAction {
    Exclude,
    Bitrate(u32),
}

pub enum TrackTargetModel {
    Track(Seq<char>),
    Tracks(Seq<Seq<char>>),
}

pub struct TrackRuleModel {
    pub target: TrackTargetModel,
    pub action: TrackAction,
}

pub struct TrackRuleGroupModel {
    pub album_handle: Seq<char>,
    pub rules: Seq<TrackRuleModel>,
}

impl View for TrackTarget {
    type V = TrackTargetModel;

    open spec fn view(&self) -> TrackTargetModel {
        match self {
            TrackTarget::Track(t) => TrackTargetModel::Track(t@),
            TrackTarget::Tracks(ts) => TrackTargetModel::Tracks(ts.deep_view()),
        }
    }
}

impl View for TrackRule {
    type V = TrackRuleModel;

    open spec fn view(&self) -> TrackRuleModel {
        TrackRuleModel { target: self.target@, action: self.action }
    }
}

impl View for TrackRuleGroup {
    type V = TrackRuleGroupModel;

    open spec fn view(&self) -> TrackRuleGroupModel {
        TrackRuleGroupModel {
            album_handle: self.album_handle@,
            rules: self.rules@.map_values(|r: TrackRule| r@),
        }
    }
}

/// The track names a target applies to.
pub open spec fn target_names(target: TrackTargetModel) -> Seq<Seq<char>> {
    match target {
        TrackTargetModel::Track(t) => seq![t],
        TrackTargetModel::Tracks(ts) => ts,
    }
}

impl TrackTarget {
    /// The track names this target applies to, in order.
    fn track_names(&self) -> (r: Vec<String>)
        ensures
            r.deep_view() == target_names(self@),
    {
        match self {
            TrackTarget::Track(track_name) => {
                let mut names = Vec::new();
                names.push(track_name.clone());
                proof {
                    assert(names.deep_view() =~= seq![track_name@]);
                }
                names
            },
            TrackTarget::Tracks(track_names) => {
                let names = track_names.clone();
                proof {
                    assert(names.deep_view() =~= track_names.deep_view());
                }
                names
            },
        }
    }
}

/// Configuration-internal rules enforced by [`parse`](crate::parse).
#[derive(Debug, Clone, PartialEq, Eq)]
pub enum InvalidLibraryBuildSpec {
    /// Neither `bitrate` nor `target_size` was configured.
    MissingSizeMode,
    /// Both `bitrate` and `target_size` were configured.
    ConflictingSizeMode,
    /// An `[albums.<handle>]` table configured none of `name`, `artist`,
    /// `directory`, or `directories`.
    MissingAlbumSelector { album_handle: String },
    /// An album configured both `directory` and `directories`.
    ConflictingAlbumPaths { album_handle: String },
    /// An album configured an empty `directory` path.
    EmptyAlbumDirectory { album_handle: String },
    /// An album configured an empty `directories` list.
    EmptyAlbumDirectories { album_handle: String },
    /// An album configured an empty entry in its `directories` list.
    EmptyAlbumDirectoriesEntry { album_handle: String, index: usize },
    /// A rule referenced an album handle with no `[albums.<handle>]` entry.
    UnknownAlbum { album_handle: String },
    /// An album rule configured an empty `albums` list.
    EmptyAlbums,
    /// More than one album rule targeted the same album, including twice
    /// within one rule.
    DuplicateAlbumRule { album_handle: String },
    /// More than one track rule targeted the same track of the same album.
    DuplicateTrackRule { album_handle: String, track_name: String },
    /// An explicit `[[track_rules]]` group configured no nested rules.
    EmptyTrackRules { album_handle: String },
    /// A track rule set both `track` and `tracks`, or neither.
    TrackTargetNotExclusive { album_handle: String },
    /// A track rule configured an empty `tracks` list.
    EmptyTracks { album_handle: String },
    /// A track rule set both `exclude = true` and `bitrate`, or neither.
    TrackActionNotExclusive { album_handle: String },
}

pub enum Violation {
    MissingSizeMode,
    ConflictingSizeMode,
    MissingAlbumSelector { album_handle: Seq<char> },
    ConflictingAlbumPaths { album_handle: Seq<char> },
    EmptyAlbumDirectory { album_handle: Seq<char> },
    EmptyAlbumDirectories { album_handle: Seq<char> },
    EmptyAlbumDirectoriesEntry { album_handle: Seq<char>, index: int },
    UnknownAlbum { album_handle: Seq<char> },
    EmptyAlbums,
    DuplicateAlbumRule { album_handle: Seq<char> },
    DuplicateTrackRule { album_handle: Seq<char>, track_name: Seq<char> },
    EmptyTrackRules { album_handle: Seq<char> },
    TrackTargetNotExclusive { album_handle: Seq<char> },
    EmptyTracks { album_handle: Seq<char> },
    TrackActionNotExclusive { album_handle: Seq<char> },
}

impl View for InvalidLibraryBuildSpec {
    type V = Violation;

    open spec fn view(&self) -> Violation {
        match self {
            InvalidLibraryBuildSpec::MissingSizeMode => Violation::MissingSizeMode,
            InvalidLibraryBuildSpec::ConflictingSizeMode => Violation::ConflictingSizeMode,
            InvalidLibraryBuildSpec::MissingAlbumSelector { album_handle } =>
                Violation::MissingAlbumSelector { album_handle: album_handle@ },
            InvalidLibraryBuildSpec::ConflictingAlbumPaths { album_handle } =>
                Violation::ConflictingAlbumPaths { album_handle: album_handle@ },
            InvalidLibraryBuildSpec::EmptyAlbumDirectory { album_handle } =>
                Violation::EmptyAlbumDirectory { album_handle: album_handle@ },
            InvalidLibraryBuildSpec::EmptyAlbumDirectories { album_handle } =>
                Violation::EmptyAlbumDirectories { album_handle: album_handle@ },
            InvalidLibraryBuildSpec::EmptyAlbumDirectoriesEntry { album_handle, index } =>
                Violation::EmptyAlbumDirectoriesEntry {
                    album_handle: album_handle@,
                    index: *index as int,
                },
            InvalidLibraryBuildSpec::UnknownAlbum { album_handle } =>
                Violation::UnknownAlbum { album_handle: album_handle@ },
            InvalidLibraryBuildSpec::EmptyAlbums => Violation::EmptyAlbums,
            InvalidLibraryBuildSpec::DuplicateAlbumRule { album_handle } =>
                Violation::DuplicateAlbumRule { album_handle: album_handle@ },
            InvalidLibraryBuildSpec::DuplicateTrackRule { album_handle, track_name } =>
                Violation::DuplicateTrackRule {
                    album_handle: album_handle@,
                    track_name: track_name@,
                },
            InvalidLibraryBuildSpec::EmptyTrackRules { album_handle } =>
                Violation::EmptyTrackRules { album_handle: album_handle@ },
            InvalidLibraryBuildSpec::TrackTargetNotExclusive { album_handle } =>
                Violation::TrackTargetNotExclusive { album_handle: album_handle@ },
            InvalidLibraryBuildSpec::EmptyTracks { album_handle } =>
                Violation::EmptyTracks { album_handle: album_handle@ },
            InvalidLibraryBuildSpec::TrackActionNotExclusive { album_handle } =>
                Violation::TrackActionNotExclusive { album_handle: album_handle@ },
        }
    }
}


#[verifier::external_type_specification]
#[verifier::external_body]
#[verifier::reject_recursive_types(K)]
#[verifier::reject_recursive_types(V)]
#[verifier::reject_recursive_types(S)]
pub struct ExIndexMap<K, V, S>(IndexMap<K, V, S>);

/// `Clone::clone` for `IndexMap`, used by the derived `Clone` of
/// [`LibraryBuildSpec`]. Nothing is claimed of the copy.
pub assume_specification<K, V, S>[ <IndexMap<K, V, S> as Clone>::clone ](
    map: &IndexMap<K, V, S>,
) -> IndexMap<K, V, S>
    where
        K: Clone,
        V: Clone,
        S: Clone,
;

/// The entries of an album map in its iteration order, keys and albums taken
/// by their views.
pub uninterp spec fn album_entries(m: IndexMap<String, Album>) -> Seq<(Seq<char>, AlbumModel)>;

pub open spec fn handles_of(entries: Seq<(Seq<char>, AlbumModel)>) -> Seq<Seq<char>> {
    entries.map_values(|e: (Seq<char>, AlbumModel)| e.0)
}

/// `IndexMap::new`.
#[verifier::external_body]
fn new_album_map() -> (m: IndexMap<String, Album>)
    ensures
        album_entries(m) == Seq::<(Seq<char>, AlbumModel)>::empty(),
{
    IndexMap::new()
}

/// `IndexMap::insert`: an existing key keeps its place and takes the new
/// album; a new key is appended last.
#[verifier::external_body]
fn insert_album(m: &mut IndexMap<String, Album>, handle: String, album: Album)
    ensures
        album_entries(*final(m)) == (if handles_of(album_entries(*old(m))).contains(handle@) {
            album_entries(*old(m)).update(
                handles_of(album_entries(*old(m))).index_of(handle@),
                (handle@, album@),
            )
        } else {
            album_entries(*old(m)).push((handle@, album@))
        }),
{
    m.insert(handle, album);
}

/// `IndexMap::contains_key`.
#[verifier::external_body]
fn album_map_contains(m: &IndexMap<String, Album>, handle: &str) -> (r: bool)
    ensures
        r == handles_of(album_entries(*m)).contains(handle@),
{
    m.contains_key(handle)
}

/// `IndexMap::len`.
#[verifier::external_body]
pub(crate) fn album_count(m: &IndexMap<String, Album>) -> (r: usize)
    ensures
        r == album_entries(*m).len(),
{
    m.len()
}

/// `IndexMap::get_index`.
#[verifier::external_body]
pub(crate) fn album_at(m: &IndexMap<String, Album>, index: usize) -> (r: Option<(&String, &Album)>)
    ensures
        r is Some <==> index < album_entries(*m).len(),
        r matches Some(pair) ==> (pair.0@, pair.1@) == album_entries(*m)[index as int],
{
    m.get_index(index)
}

/// A complete library build configuration produced by [`parse`](crate::parse).
///
/// The only public construction path from untrusted config input is
/// `parse`, which rejects documents violating config-level rules.
///
/// This does not certify filesystem resources, album membership,
/// metadata matching, interpreted target-size semantics, or deferred
/// file-selection policy.
#[derive(Debug, Clone, PartialEq, Eq)]
pub struct LibraryBuildSpec {
    codec: Codec,
    encoding_profile: EncodingProfile,
    size_mode: SizeMode,
    files: Files,
    /// Albums keyed by their configuration handles.
    albums: IndexMap<String, Album>,
    album_rules: Vec<AlbumRule>,
    track_rules: Vec<TrackRuleGroup>,
}

pub struct LibraryBuildSpecModel {
    pub codec: Codec,
    pub encoding_profile: EncodingProfile,
    pub size_mode: SizeModeModel,
    pub files: FilesModel,
    pub albums: Seq<(Seq<char>, AlbumModel)>,
    pub album_rules: Seq<AlbumRuleModel>,
    pub track_rules: Seq<TrackRuleGroupModel>,
}

pub open spec fn album_rule_models(rules: Seq<AlbumRule>) -> Seq<AlbumRuleModel> {
    rules.map_values(|r: AlbumRule| r@)
}

pub open spec fn group_models(groups: Seq<TrackRuleGroup>) -> Seq<TrackRuleGroupModel> {
    groups.map_values(|g: TrackRuleGroup| g@)
}

impl View for LibraryBuildSpec {
    type V = LibraryBuildSpecModel;

    closed spec fn view(&self) -> LibraryBuildSpecModel {
        LibraryBuildSpecModel {
            codec: self.codec,
            encoding_profile: self.encoding_profile,
            size_mode: self.size_mode@,
            files: self.files@,
            albums: album_entries(self.albums),
            album_rules: album_rule_models(self.album_rules@),
            track_rules: group_models(self.track_rules@),
        }
    }
}

impl LibraryBuildSpec {
    /// The configured codec.
    pub fn codec(&self) -> (r: Codec)
        ensures
            r == self@.codec,
    {
        self.codec
    }

    /// The configured encoding profile.
    pub fn encoding_profile(&self) -> (r: EncodingProfile)
        ensures
            r == self@.encoding_profile,
    {
        self.encoding_profile
    }

    /// The configured global output size mode.
    pub fn size_mode(&self) -> (r: &SizeMode)
        ensures
            r@ == self@.size_mode,
    {
        &self.size_mode
    }

    /// The configured file selection.
    pub fn files(&self) -> (r: &Files)
        ensures
            r@ == self@.files,
    {
        &self.files
    }

    /// Albums keyed by their configuration handles.
    ///
    /// [`parse`](crate::parse) preserves album declaration order. A handle's
    /// position is established by its first introduction in the document, and
    /// later additions to an album do not change its position.
    pub fn albums(&self) -> (r: &IndexMap<String, Album>)
        ensures
            album_entries(*r) == self@.albums,
    {
        &self.albums
    }

    /// The configured album rules, in document order.
    pub fn album_rules(&self) -> (r: &[AlbumRule])
        ensures
            album_rule_models(r@) == self@.album_rules,
    {
        self.album_rules.as_slice()
    }

    /// The configured track rule groups, in document order.
    pub fn track_rules(&self) -> (r: &[TrackRuleGroup])
        ensures
            group_models(r@) == self@.track_rules,
    {
        self.track_rules.as_slice()
    }
}


/// One `[albums.<handle>]` declaration before validation.
///
/// Keeps the singular `directory` and plural `directories` fields separate
/// until validation collapses them into [`Album::directories`].
#[derive(Debug, PartialEq, Eq)]
pub struct RawAlbum {
    pub name: Option<String>,
    pub artist: Option<String>,
    pub directory: Option<String>,
    pub directories: Option<Vec<String>>,
}

pub struct RawAlbumModel {
    pub name: Option<Seq<char>>,
    pub artist: Option<Seq<char>>,
    pub directory: Option<Seq<char>>,
    pub directories: Option<Seq<Seq<char>>>,
}

impl View for RawAlbum {
    type V = RawAlbumModel;

    open spec fn view(&self) -> RawAlbumModel {
        RawAlbumModel {
            name: self.name.deep_view(),
            artist: self.artist.deep_view(),
            directory: self.directory.deep_view(),
            directories: self.directories.deep_view(),
        }
    }
}

/// One track rule entry before validation.
#[derive(Debug, PartialEq, Eq)]
pub struct RawTrackRule {
    pub track: Option<String>,
    pub tracks: Option<Vec<String>>,
    pub exclude: Option<bool>,
    pub bitrate: Option<u32>,
}

pub struct RawTrackRuleModel {
    pub track: Option<Seq<char>>,
    pub tracks: Option<Seq<Seq<char>>>,
    pub exclude: Option<bool>,
    pub bitrate: Option<u32>,
}

impl View for RawTrackRule {
    type V = RawTrackRuleModel;

    open spec fn view(&self) -> RawTrackRuleModel {
        RawTrackRuleModel {
            track: self.track.deep_view(),
            tracks: self.tracks.deep_view(),
            exclude: self.exclude,
            bitrate: self.bitrate,
        }
    }
}

/// A copy of a list of texts.
pub fn copy_texts(texts: &Vec<String>) -> (r: Vec<String>)
    ensures
        r.deep_view() == texts.deep_view(),
{
    let r = texts.clone();
    proof {
        assert(r.deep_view() =~= texts.deep_view());
    }
    r
}

/// A copy of an optional text.
pub fn copy_optional_text(text: &Option<String>) -> (r: Option<String>)
    ensures
        r.deep_view() == text.deep_view(),
{
    match text {
        Some(t) => Some(t.clone()),
        None => None,
    }
}

/// A copy of an optional list of texts.
pub fn copy_optional_texts(texts: &Option<Vec<String>>) -> (r: Option<Vec<String>>)
    ensures
        r.deep_view() == texts.deep_view(),
{
    match texts {
        Some(t) => Some(copy_texts(t)),
        None => None,
    }
}

impl Clone for Files {
    fn clone(&self) -> (r: Self)
        ensures
            r@ == self@,
    {
        Files {
            album_art: self.album_art,
            included: copy_optional_texts(&self.included),
            exclude: copy_optional_texts(&self.exclude),
        }
    }
}

impl Clone for AlbumRule {
    fn clone(&self) -> (r: Self)
        ensures
            r@ == self@,
    {
        AlbumRule { album_handles: copy_texts(&self.album_handles), bitrate: self.bitrate }
    }
}

/// A copy of a list of album rules.
fn copy_album_rules(rules: &Vec<AlbumRule>) -> (r: Vec<AlbumRule>)
    ensures
        album_rule_models(r@) == album_rule_models(rules@),
{
    let mut copies: Vec<AlbumRule> = Vec::new();
    let mut i: usize = 0;
    while i < rules.len()
        invariant
            i <= rules.len(),
            album_rule_models(copies@) =~= album_rule_models(rules@).take(i as int),
        decreases rules.len() - i,
    {
        let ghost before = copies@;
        let copy = rules[i].clone();
        copies.push(copy);
        proof {
            assert(copies@ == before.push(copy));
            assert(album_rule_models(copies@) =~= album_rule_models(before).push(copy@));
                        assert(album_rule_models(copies@) =~= album_rule_models(rules@).take(i + 1));
        }
        i = i + 1;
    }
    proof {
        assert(album_rule_models(rules@).take(i as int) =~= album_rule_models(rules@));
    }
    copies
}

impl Clone for RawAlbum {
    fn clone(&self) -> (r: Self)
        ensures
            r@ == self@,
    {
        RawAlbum {
            name: copy_optional_text(&self.name),
            artist: copy_optional_text(&self.artist),
            directory: copy_optional_text(&self.directory),
            directories: copy_optional_texts(&self.directories),
        }
    }
}

impl Clone for RawTrackRule {
    fn clone(&self) -> (r: Self)
        ensures
            r@ == self@,
    {
        RawTrackRule {
            track: copy_optional_text(&self.track),
            tracks: copy_optional_texts(&self.tracks),
            exclude: self.exclude,
            bitrate: self.bitrate,
        }
    }
}

/// One `[[track_rules]]` group before validation.
#[derive(Debug, Clone, PartialEq, Eq)]
pub struct RawTrackRuleGroup {
    pub album_handle: String,
    pub rules: Vec<RawTrackRule>,
}

pub struct RawTrackRuleGroupModel {
    pub album_handle: Seq<char>,
    pub rules: Seq<RawTrackRuleModel>,
}

pub open spec fn raw_rule_models(rules: Seq<RawTrackRule>) -> Seq<RawTrackRuleModel> {
    rules.map_values(|r: RawTrackRule| r@)
}

impl View for RawTrackRuleGroup {
    type V = RawTrackRuleGroupModel;

    open spec fn view(&self) -> RawTrackRuleGroupModel {
        RawTrackRuleGroupModel {
            album_handle: self.album_handle@,
            rules: raw_rule_models(self.rules@),
        }
    }
}

/// A whole configuration document before validation.
///
/// `albums` holds the album declarations in document order; a TOML table
/// never repeats a key, so the handles are distinct.
#[derive(Debug, Clone, PartialEq, Eq)]
pub struct RawLibraryBuildSpec {
    pub codec: Codec,
    pub encoding_profile: EncodingProfile,
    pub bitrate: Option<u32>,
    pub target_size: Option<String>,
    pub files: Files,
    pub albums: Vec<(String, RawAlbum)>,
    pub album_rules: Vec<AlbumRule>,
    pub track_rules: Vec<RawTrackRuleGroup>,
}

pub struct RawLibraryBuildSpecModel {
    pub codec: Codec,
    pub encoding_profile: EncodingProfile,
    pub bitrate: Option<u32>,
    pub target_size: Option<Seq<char>>,
    pub files: FilesModel,
    pub albums: Seq<(Seq<char>, RawAlbumModel)>,
    pub album_rules: Seq<AlbumRuleModel>,
    pub track_rules: Seq<RawTrackRuleGroupModel>,
}

pub open spec fn raw_album_models(albums: Seq<(String, RawAlbum)>) -> Seq<(Seq<char>, RawAlbumModel)> {
    albums.map_values(|e: (String, RawAlbum)| (e.0@, e.1@))
}

pub open spec fn raw_group_models(groups: Seq<RawTrackRuleGroup>) -> Seq<RawTrackRuleGroupModel> {
    groups.map_values(|g: RawTrackRuleGroup| g@)
}

impl View for RawLibraryBuildSpec {
    type V = RawLibraryBuildSpecModel;

    open spec fn view(&self) -> RawLibraryBuildSpecModel {
        RawLibraryBuildSpecModel {
            codec: self.codec,
            encoding_profile: self.encoding_profile,
            bitrate: self.bitrate,
            target_size: self.target_size.deep_view(),
            files: self.files@,
            albums: raw_album_models(self.albums@),
            album_rules: album_rule_models(self.album_rules@),
            track_rules: raw_group_models(self.track_rules@),
        }
    }
}

/// Whether no key occurs twice among the album declarations.
pub open spec fn distinct_handles(albums: Seq<(Seq<char>, RawAlbumModel)>) -> bool {
    forall|i: int, j: int|
        0 <= i < albums.len() && 0 <= j < albums.len() && i != j ==> albums[i].0 != albums[j].0
}

// ---------------------------------------------------------------------------
// The validation rules, stated over the models.

/// The size mode: exactly one of `bitrate` and `target_size`.
pub open spec fn size_mode_outcome(bitrate: Option<u32>, target_size: Option<Seq<char>>) -> Result<
    SizeModeModel,
    Violation,
> {
    match (bitrate, target_size) {
        (Some(b), None) => Ok(SizeModeModel::Bitrate(b)),
        (None, Some(t)) => Ok(SizeModeModel::TargetSize(t)),
        (Some(_), Some(_)) => Err(Violation::ConflictingSizeMode),
        (None, None) => Err(Violation::MissingSizeMode),
    }
}

/// The position of the first empty entry, if any.
pub open spec fn first_empty(entries: Seq<Seq<char>>) -> Option<int>
    decreases entries.len(),
{
    if entries.len() == 0 {
        None
    } else if entries[0].len() == 0 {
        Some(0)
    } else {
        match first_empty(entries.drop_first()) {
            Some(i) => Some(i + 1),
            None => None,
        }
    }
}

/// One album declaration, validated: at least one selector, at most one of
/// the two directory forms, no empty directory spelling. Metadata is kept
/// exactly and directories keep their order, duplicates and spelling.
pub open spec fn album_outcome(handle: Seq<char>, raw: RawAlbumModel) -> Result<AlbumModel, Violation> {
    if raw.name is None && raw.artist is None && raw.directory is None && raw.directories is None {
        Err(Violation::MissingAlbumSelector { album_handle: handle })
    } else {
        match (raw.directory, raw.directories) {
            (None, None) => Ok(AlbumModel { name: raw.name, artist: raw.artist, directories: None }),
            (Some(d), None) => if d.len() == 0 {
                Err(Violation::EmptyAlbumDirectory { album_handle: handle })
            } else {
                Ok(
                    AlbumModel {
                        name: raw.name,
                        artist: raw.artist,
                        directories: Some(seq![encode_utf8(d)]),
                    },
                )
            },
            (None, Some(ds)) => if ds.len() == 0 {
                Err(Violation::EmptyAlbumDirectories { album_handle: handle })
            } else {
                match first_empty(ds) {
                    Some(i) => Err(
                        Violation::EmptyAlbumDirectoriesEntry { album_handle: handle, index: i },
                    ),
                    None => Ok(
                        AlbumModel {
                            name: raw.name,
                            artist: raw.artist,
                            directories: Some(ds.map_values(|d: Seq<char>| encode_utf8(d))),
                        },
                    ),
                }
            },
            (Some(_), Some(_)) => Err(Violation::ConflictingAlbumPaths { album_handle: handle }),
        }
    }
}

/// Puts finished items before the outcome of processing the rest.
pub open spec fn prepend<T, E>(done: Seq<T>, rest: Result<Seq<T>, E>) -> Result<Seq<T>, E> {
    match rest {
        Ok(r) => Ok(done + r),
        Err(v) => Err(v),
    }
}

/// Every album declaration in order; the first invalid one decides.
pub open spec fn albums_outcome(albums: Seq<(Seq<char>, RawAlbumModel)>) -> Result<
    Seq<(Seq<char>, AlbumModel)>,
    Violation,
>
    decreases albums.len(),
{
    if albums.len() == 0 {
        Ok(seq![])
    } else {
        match album_outcome(albums[0].0, albums[0].1) {
            Err(v) => Err(v),
            Ok(a) => prepend(seq![(albums[0].0, a)], albums_outcome(albums.drop_first())),
        }
    }
}

/// The handles of one album rule, checked in order against the declared
/// handles and against every handle already claimed by a rule.
pub open spec fn handles_violation(
    handles: Seq<Seq<char>>,
    declared: Seq<Seq<char>>,
    claimed: Seq<Seq<char>>,
) -> Option<Violation>
    decreases handles.len(),
{
    if handles.len() == 0 {
        None
    } else if !declared.contains(handles[0]) {
        Some(Violation::UnknownAlbum { album_handle: handles[0] })
    } else if claimed.contains(handles[0]) {
        Some(Violation::DuplicateAlbumRule { album_handle: handles[0] })
    } else {
        handles_violation(handles.drop_first(), declared, claimed.push(handles[0]))
    }
}

/// The album rules in order: each lists at least one declared album, and no
/// album is targeted twice, within one rule or across rules.
pub open spec fn album_rules_violation(
    rules: Seq<AlbumRuleModel>,
    declared: Seq<Seq<char>>,
    claimed: Seq<Seq<char>>,
) -> Option<Violation>
    decreases rules.len(),
{
    if rules.len() == 0 {
        None
    } else if rules[0].album_handles.len() == 0 {
        Some(Violation::EmptyAlbums)
    } else {
        match handles_violation(rules[0].album_handles, declared, claimed) {
            Some(v) => Some(v),
            None => album_rules_violation(
                rules.drop_first(),
                declared,
                claimed + rules[0].album_handles,
            ),
        }
    }
}

/// One track rule entry, validated: exactly one non-empty target, and
/// exactly one of `exclude = true` and `bitrate`.
pub open spec fn rule_outcome(handle: Seq<char>, raw: RawTrackRuleModel) -> Result<
    TrackRuleModel,
    Violation,
> {
    let target = match (raw.track, raw.tracks) {
        (Some(t), None) => Ok(TrackTargetModel::Track(t)),
        (None, Some(ts)) => if ts.len() > 0 {
            Ok(TrackTargetModel::Tracks(ts))
        } else {
            Err(Violation::EmptyTracks { album_handle: handle })
        },
        _ => Err(Violation::TrackTargetNotExclusive { album_handle: handle }),
    };
    match target {
        Err(v) => Err(v),
        Ok(t) => match (raw.exclude, raw.bitrate) {
            (Some(true), None) => Ok(TrackRuleModel { target: t, action: TrackAction::Exclude }),
            (None, Some(b)) => Ok(TrackRuleModel { target: t, action: TrackAction::Bitrate(b) }),
            _ => Err(Violation::TrackActionNotExclusive { album_handle: handle }),
        },
    }
}

/// The (album, track) pairs of one rule's names, checked in order against
/// every pair already claimed; on success, the claimed pairs grown by them.
pub open spec fn names_outcome(
    handle: Seq<char>,
    names: Seq<Seq<char>>,
    claimed: Seq<(Seq<char>, Seq<char>)>,
) -> Result<Seq<(Seq<char>, Seq<char>)>, Violation>
    decreases names.len(),
{
    if names.len() == 0 {
        Ok(claimed)
    } else if claimed.contains((handle, names[0])) {
        Err(Violation::DuplicateTrackRule { album_handle: handle, track_name: names[0] })
    } else {
        names_outcome(handle, names.drop_first(), claimed.push((handle, names[0])))
    }
}

/// The rules of one group in order; on success, the validated rules and the
/// claimed pairs grown by their names.
pub open spec fn group_rules_outcome(
    handle: Seq<char>,
    rules: Seq<RawTrackRuleModel>,
    claimed: Seq<(Seq<char>, Seq<char>)>,
) -> Result<(Seq<TrackRuleModel>, Seq<(Seq<char>, Seq<char>)>), Violation>
    decreases rules.len(),
{
    if rules.len() == 0 {
        Ok((seq![], claimed))
    } else {
        match rule_outcome(handle, rules[0]) {
            Err(v) => Err(v),
            Ok(rule) => match names_outcome(handle, target_names(rule.target), claimed) {
                Err(v) => Err(v),
                Ok(grown) => match group_rules_outcome(handle, rules.drop_first(), grown) {
                    Err(v) => Err(v),
                    Ok((rest, last)) => Ok((seq![rule] + rest, last)),
                },
            },
        }
    }
}

/// The track rule groups in order: each names a declared album, has at least
/// one rule, and no (album, track) pair is targeted twice.
pub open spec fn groups_outcome(
    groups: Seq<RawTrackRuleGroupModel>,
    declared: Seq<Seq<char>>,
    claimed: Seq<(Seq<char>, Seq<char>)>,
) -> Result<Seq<TrackRuleGroupModel>, Violation>
    decreases groups.len(),
{
    if groups.len() == 0 {
        Ok(seq![])
    } else if !declared.contains(groups[0].album_handle) {
        Err(Violation::UnknownAlbum { album_handle: groups[0].album_handle })
    } else if groups[0].rules.len() == 0 {
        Err(Violation::EmptyTrackRules { album_handle: groups[0].album_handle })
    } else {
        match group_rules_outcome(groups[0].album_handle, groups[0].rules, claimed) {
            Err(v) => Err(v),
            Ok((rules, grown)) => prepend(
                seq![TrackRuleGroupModel { album_handle: groups[0].album_handle, rules }],
                groups_outcome(groups.drop_first(), declared, grown),
            ),
        }
    }
}

/// The whole validation, in its fixed order: size mode, album declarations,
/// album rules, track rules.
pub open spec fn validation(raw: RawLibraryBuildSpecModel) -> Result<LibraryBuildSpecModel, Violation> {
    match size_mode_outcome(raw.bitrate, raw.target_size) {
        Err(v) => Err(v),
        Ok(size_mode) => match albums_outcome(raw.albums) {
            Err(v) => Err(v),
            Ok(albums) => match album_rules_violation(raw.album_rules, handles_of(albums), seq![]) {
                Some(v) => Err(v),
                None => match groups_outcome(raw.track_rules, handles_of(albums), seq![]) {
                    Err(v) => Err(v),
                    Ok(track_rules) => Ok(
                        LibraryBuildSpecModel {
                            codec: raw.codec,
                            encoding_profile: raw.encoding_profile,
                            size_mode,
                            files: raw.files,
                            albums,
                            album_rules: raw.album_rules,
                            track_rules,
                        },
                    ),
                },
            },
        },
    }
}


// ---------------------------------------------------------------------------
// Validation.

/// Whether a result agrees with a validation outcome stated over models.
pub open spec fn agrees<T: View>(r: Result<T, InvalidLibraryBuildSpec>, expected: Result<T::V, Violation>) -> bool {
    match r {
        Ok(v) => expected == Ok::<T::V, Violation>(v@),
        Err(e) => expected == Err::<T::V, Violation>(e@),
    }
}

proof fn lemma_first_empty_in_range(entries: Seq<Seq<char>>)
    ensures
        first_empty(entries) matches Some(i) ==> 0 <= i < entries.len() && entries[i].len() == 0,
    decreases entries.len(),
{
    if entries.len() > 0 && entries[0].len() != 0 {
        lemma_first_empty_in_range(entries.drop_first());
    }
}

/// The position of the first empty entry, if any.
fn first_empty_position(entries: &Vec<String>) -> (r: Option<usize>)
    ensures
        match first_empty(entries.deep_view()) {
            Some(i) => r == Some(i as usize) && i == r.unwrap() as int,
            None => r is None,
        },
{
    proof {
        assert(entries.deep_view().skip(0) =~= entries.deep_view());
        lemma_first_empty_in_range(entries.deep_view());
    }
    let mut i: usize = 0;
    while i < entries.len()
        invariant
            i <= entries.len(),
            first_empty(entries.deep_view()) == match first_empty(entries.deep_view().skip(i as int)) {
                Some(k) => Some(k + i),
                None => None::<int>,
            },
        decreases entries.len() - i,
    {
        proof {
            let s = entries.deep_view().skip(i as int);
            assert(s.drop_first() =~= entries.deep_view().skip(i + 1));
            assert(s[0] == entries[i as int]@);
        }
        if entries[i].as_str().is_empty() {
            return Some(i);
        }
        i = i + 1;
    }
    proof {
        assert(entries.deep_view().skip(i as int).len() == 0);
    }
    None
}

/// The configured directory spellings as paths, in order.
fn paths_from_strings(entries: Vec<String>) -> (r: Vec<PathBuf>)
    ensures
        spellings(r@) == entries.deep_view().map_values(|d: Seq<char>| encode_utf8(d)),
{
    let mut paths: Vec<PathBuf> = Vec::new();
    let mut i: usize = 0;
    while i < entries.len()
        invariant
            i <= entries.len(),
            spellings(paths@) == entries.deep_view().take(i as int).map_values(
                |d: Seq<char>| encode_utf8(d),
            ),
        decreases entries.len() - i,
    {
        let ghost before = paths@;
        let path = path_from_string(entries[i].clone());
        paths.push(path);
        proof {
            assert(paths@ == before.push(path));
            assert(spellings(paths@) =~= spellings(before).push(buf_spelling(path)));
            assert(entries.deep_view().take(i + 1) =~= entries.deep_view().take(i as int).push(
                entries[i as int]@,
            ));
            assert(spellings(paths@) =~= entries.deep_view().take(i + 1).map_values(
                |d: Seq<char>| encode_utf8(d),
            ));
        }
        i = i + 1;
    }
    proof {
        assert(entries.deep_view().take(i as int) =~= entries.deep_view());
    }
    paths
}

impl RawAlbum {
    /// Collapses one raw album declaration into its validated form.
    ///
    /// Metadata predicates are preserved exactly, including empty and
    /// whitespace-only values. The singular `directory` and plural
    /// `directories` forms collapse into one ordered collection, and no
    /// successful validation ever produces an empty collection.
    pub fn into_album(self, album_handle: &String) -> (r: Result<Album, InvalidLibraryBuildSpec>)
        ensures
            agrees(r, album_outcome(album_handle@, self@)),
    {
        let RawAlbum { name, artist, directory, directories } = self;
        let has_selector = name.is_some() || artist.is_some() || directory.is_some()
            || directories.is_some();
        if !has_selector {
            return Err(InvalidLibraryBuildSpec::MissingAlbumSelector { album_handle: album_handle.clone() });
        }
        let directories = match (directory, directories) {
            (None, None) => None,
            (Some(directory), None) => {
                // An empty decoded string is exactly an empty path.
                if directory.as_str().is_empty() {
                    return Err(
                        InvalidLibraryBuildSpec::EmptyAlbumDirectory { album_handle: album_handle.clone() },
                    );
                }
                let ghost spelled = directory@;
                let mut paths: Vec<PathBuf> = Vec::new();
                paths.push(path_from_string(directory));
                proof {
                    assert(spellings(paths@) =~= seq![encode_utf8(spelled)]);
                }
                Some(paths)
            },
            (None, Some(directories)) => {
                if directories.len() == 0 {
                    return Err(
                        InvalidLibraryBuildSpec::EmptyAlbumDirectories { album_handle: album_handle.clone() },
                    );
                }
                if let Some(index) = first_empty_position(&directories) {
                    return Err(
                        InvalidLibraryBuildSpec::EmptyAlbumDirectoriesEntry {
                            album_handle: album_handle.clone(),
                            index,
                        },
                    );
                }
                Some(paths_from_strings(directories))
            },
            (Some(_), Some(_)) => {
                return Err(
                    InvalidLibraryBuildSpec::ConflictingAlbumPaths { album_handle: album_handle.clone() },
                );
            },
        };
        Ok(Album { name, artist, directories })
    }
}

impl RawTrackRule {
    /// Validates one track rule entry of the group for `album_handle`.
    pub fn into_rule(self, album_handle: &String) -> (r: Result<TrackRule, InvalidLibraryBuildSpec>)
        ensures
            agrees(r, rule_outcome(album_handle@, self@)),
    {
        let RawTrackRule { track, tracks, exclude, bitrate } = self;
        let target = match (track, tracks) {
            (Some(track), None) => TrackTarget::Track(track),
            (None, Some(tracks)) => {
                if tracks.len() > 0 {
                    TrackTarget::Tracks(tracks)
                } else {
                    return Err(InvalidLibraryBuildSpec::EmptyTracks { album_handle: album_handle.clone() });
                }
            },
            _ => {
                return Err(
                    InvalidLibraryBuildSpec::TrackTargetNotExclusive { album_handle: album_handle.clone() },
                );
            },
        };
        let action = match (exclude, bitrate) {
            (Some(true), None) => TrackAction::Exclude,
            (None, Some(bitrate)) => TrackAction::Bitrate(bitrate),
            _ => {
                return Err(
                    InvalidLibraryBuildSpec::TrackActionNotExclusive { album_handle: album_handle.clone() },
                );
            },
        };
        Ok(TrackRule { target, action })
    }
}


/// Whether `text` occurs among `texts`.
fn contains_text(texts: &Vec<String>, text: &String) -> (r: bool)
    ensures
        r == texts.deep_view().contains(text@),
{
    let mut i: usize = 0;
    while i < texts.len()
        invariant
            i <= texts.len(),
            forall|k: int| 0 <= k < i ==> texts.deep_view()[k] != text@,
        decreases texts.len() - i,
    {
        if texts[i] == *text {
            proof {
                assert(texts.deep_view()[i as int] == text@);
            }
            return true;
        }
        i = i + 1;
    }
    false
}

/// Whether the (album, track) pair occurs among `pairs`.
fn contains_pair(pairs: &Vec<(String, String)>, album: &String, track: &String) -> (r: bool)
    ensures
        r == pairs.deep_view().contains((album@, track@)),
{
    let mut i: usize = 0;
    while i < pairs.len()
        invariant
            i <= pairs.len(),
            forall|k: int| 0 <= k < i ==> pairs.deep_view()[k] != (album@, track@),
        decreases pairs.len() - i,
    {
        if pairs[i].0 == *album && pairs[i].1 == *track {
            proof {
                assert(pairs.deep_view()[i as int] == (album@, track@));
            }
            return true;
        }
        i = i + 1;
    }
    false
}

/// Checks that `album_handle` names a declared album.
fn check_album_handle_defined(albums: &IndexMap<String, Album>, album_handle: &String) -> (r: Result<
    (),
    InvalidLibraryBuildSpec,
>)
    ensures
        r is Ok <==> handles_of(album_entries(*albums)).contains(album_handle@),
        r matches Err(e) ==> e@ == (Violation::UnknownAlbum { album_handle: album_handle@ }),
{
    if album_map_contains(albums, album_handle.as_str()) {
        Ok(())
    } else {
        Err(InvalidLibraryBuildSpec::UnknownAlbum { album_handle: album_handle.clone() })
    }
}

/// Validates every album declaration in order into the album map.
fn validate_albums(albums: &Vec<(String, RawAlbum)>) -> (r: Result<IndexMap<String, Album>, InvalidLibraryBuildSpec>)
    requires
        distinct_handles(raw_album_models(albums@)),
    ensures
        match (r, albums_outcome(raw_album_models(albums@))) {
            (Ok(m), Ok(expected)) => album_entries(m) == expected,
            (Err(e), Err(v)) => e@ == v,
            _ => false,
        },
{
    let ghost raw = raw_album_models(albums@);
    let mut validated = new_album_map();
    let ghost mut done: Seq<(Seq<char>, AlbumModel)> = seq![];
    proof {
        assert(raw.skip(0) =~= raw);
        assert(done + seq![] =~= done);
    }
    let mut i: usize = 0;
    while i < albums.len()
        invariant
            i <= albums.len(),
            raw == raw_album_models(albums@),
            distinct_handles(raw),
            album_entries(validated) == done,
            handles_of(done) =~= raw.take(i as int).map_values(|e: (Seq<char>, RawAlbumModel)| e.0),
            albums_outcome(raw) == prepend(done, albums_outcome(raw.skip(i as int))),
        decreases albums.len() - i,
    {
        let ghost rest = raw.skip(i as int);
        proof {
            assert(rest[0] == raw[i as int]);
            assert(rest.drop_first() =~= raw.skip(i + 1));
        }
        let handle = albums[i].0.clone();
        let album = match albums[i].1.clone().into_album(&handle) {
            Ok(album) => album,
            Err(error) => {
                return Err(error);
            },
        };
        let ghost entry = (handle@, album@);
        proof {
            assert(!handles_of(done).contains(handle@)) by {
                if handles_of(done).contains(handle@) {
                    let k = choose|k: int| 0 <= k < handles_of(done).len() && handles_of(done)[k] == handle@;
                    assert(raw[k].0 == raw[i as int].0);
                }
            }
        }
        insert_album(&mut validated, handle, album);
        proof {
            let next = done.push(entry);
            assert(prepend(done, albums_outcome(rest)) == prepend(next, albums_outcome(raw.skip(i + 1)))) by {
                assert(done + seq![entry] =~= next);
                match albums_outcome(raw.skip(i + 1)) {
                    Ok(tail) => {
                        assert(done + (seq![entry] + tail) =~= next + tail);
                    },
                    Err(_) => {},
                }
            }
            assert(raw.take(i + 1) =~= raw.take(i as int).push(raw[i as int]));
            assert(handles_of(next) =~= handles_of(done).push(handle@));
            done = next;
        }
        i = i + 1;
    }
    proof {
        assert(raw.skip(i as int) =~= Seq::<(Seq<char>, RawAlbumModel)>::empty());
        assert(done + Seq::<(Seq<char>, AlbumModel)>::empty() =~= done);
    }
    Ok(validated)
}

/// Checks the album rules in order against the declared albums.
fn check_album_rules(rules: &Vec<AlbumRule>, albums: &IndexMap<String, Album>) -> (r: Result<
    (),
    InvalidLibraryBuildSpec,
>)
    ensures
        match album_rules_violation(
            album_rule_models(rules@),
            handles_of(album_entries(*albums)),
            seq![],
        ) {
            None => r is Ok,
            Some(v) => r matches Err(e) && e@ == v,
        },
{
    let ghost models = album_rule_models(rules@);
    let ghost declared = handles_of(album_entries(*albums));
    let mut claimed: Vec<String> = Vec::new();
    proof {
        assert(models.skip(0) =~= models);
        assert(claimed.deep_view() =~= Seq::<Seq<char>>::empty());
    }
    let mut k: usize = 0;
    while k < rules.len()
        invariant
            k <= rules.len(),
            models == album_rule_models(rules@),
            declared == handles_of(album_entries(*albums)),
            album_rules_violation(models, declared, seq![]) == album_rules_violation(
                models.skip(k as int),
                declared,
                claimed.deep_view(),
            ),
        decreases rules.len() - k,
    {
        let ghost rest = models.skip(k as int);
        let ghost claimed_before = claimed.deep_view();
        let rule = &rules[k];
        proof {
            assert(rest[0] == models[k as int]);
            assert(rest.drop_first() =~= models.skip(k + 1));
        }
        if rule.album_handles.len() == 0 {
            return Err(InvalidLibraryBuildSpec::EmptyAlbums);
        }
        let ghost handles = rule.album_handles.deep_view();
        proof {
            assert(handles.skip(0) =~= handles);
            assert(claimed_before + handles.take(0) =~= claimed_before);
        }
        let mut i: usize = 0;
        while i < rule.album_handles.len()
            invariant
                i <= rule.album_handles.len(),
                handles == rule.album_handles.deep_view(),
                claimed.deep_view() == claimed_before + handles.take(i as int),
                handles_violation(handles, declared, claimed_before) == handles_violation(
                    handles.skip(i as int),
                    declared,
                    claimed.deep_view(),
                ),
                declared == handles_of(album_entries(*albums)),
                models == album_rule_models(rules@),
                album_rules_violation(models, declared, seq![]) == match handles_violation(
                    handles,
                    declared,
                    claimed_before,
                ) {
                    Some(v) => Some(v),
                    None => album_rules_violation(
                        models.skip(k + 1),
                        declared,
                        claimed_before + handles,
                    ),
                },
            decreases rule.album_handles.len() - i,
        {
            let handle = &rule.album_handles[i];
            let ghost hs = handles.skip(i as int);
            proof {
                assert(hs[0] == handle@);
                assert(hs.drop_first() =~= handles.skip(i + 1));
            }
            match check_album_handle_defined(albums, handle) {
                Ok(()) => {},
                Err(error) => {
                    proof {
                        assert(handles_violation(hs, declared, claimed.deep_view()) == Some(
                            Violation::UnknownAlbum { album_handle: handle@ },
                        ));
                    }
                    return Err(error);
                },
            }
            if contains_text(&claimed, handle) {
                return Err(InvalidLibraryBuildSpec::DuplicateAlbumRule { album_handle: handle.clone() });
            }
            let ghost claimed_now = claimed.deep_view();
            claimed.push(handle.clone());
            proof {
                assert(claimed.deep_view() =~= claimed_now.push(handle@));
                assert(handles.take(i + 1) =~= handles.take(i as int).push(handle@));
            }
            proof {
                assert(claimed.deep_view() =~= claimed_before + handles.take(i + 1));
            }
            i = i + 1;
        }
        proof {
            assert(handles.skip(i as int) =~= Seq::<Seq<char>>::empty());
            assert(handles.take(i as int) =~= handles);
            assert(claimed.deep_view() == claimed_before + handles);
        }
        k = k + 1;
    }
    Ok(())
}

/// Checks the names of one rule against the claimed (album, track) pairs and
/// claims them.
fn claim_track_names(
    album_handle: &String,
    names: &Vec<String>,
    claimed: &mut Vec<(String, String)>,
) -> (r: Result<(), InvalidLibraryBuildSpec>)
    ensures
        match names_outcome(album_handle@, names.deep_view(), old(claimed).deep_view()) {
            Ok(grown) => r is Ok && final(claimed).deep_view() == grown,
            Err(v) => r matches Err(e) && e@ == v,
        },
{
    let ghost all = names.deep_view();
    proof {
        assert(all.skip(0) =~= all);
    }
    let mut i: usize = 0;
    while i < names.len()
        invariant
            i <= names.len(),
            all == names.deep_view(),
            names_outcome(album_handle@, all, old(claimed).deep_view()) == names_outcome(
                album_handle@,
                all.skip(i as int),
                claimed.deep_view(),
            ),
        decreases names.len() - i,
    {
        let ghost rest = all.skip(i as int);
        proof {
            assert(rest[0] == names[i as int]@);
            assert(rest.drop_first() =~= all.skip(i + 1));
        }
        if contains_pair(claimed, album_handle, &names[i]) {
            return Err(
                InvalidLibraryBuildSpec::DuplicateTrackRule {
                    album_handle: album_handle.clone(),
                    track_name: names[i].clone(),
                },
            );
        }
        let ghost before = claimed.deep_view();
        claimed.push((album_handle.clone(), names[i].clone()));
        proof {
            assert(claimed.deep_view() =~= before.push((album_handle@, names[i as int]@)));
        }
        i = i + 1;
    }
    proof {
        assert(all.skip(i as int) =~= Seq::<Seq<char>>::empty());
    }
    Ok(())
}

/// Validates the rules of one group in order, claiming their track names.
fn validate_group_rules(
    album_handle: &String,
    rules: &Vec<RawTrackRule>,
    claimed: &mut Vec<(String, String)>,
) -> (r: Result<Vec<TrackRule>, InvalidLibraryBuildSpec>)
    ensures
        match group_rules_outcome(album_handle@, raw_rule_models(rules@), old(claimed).deep_view()) {
            Ok((validated, grown)) => r matches Ok(v) && v@.map_values(|t: TrackRule| t@)
                == validated && final(claimed).deep_view() == grown,
            Err(v) => r matches Err(e) && e@ == v,
        },
{
    let ghost all = raw_rule_models(rules@);
    let mut validated: Vec<TrackRule> = Vec::new();
    proof {
        assert(all.skip(0) =~= all);
    }
    let mut i: usize = 0;
    while i < rules.len()
        invariant
            i <= rules.len(),
            all == raw_rule_models(rules@),
            group_rules_outcome(album_handle@, all, old(claimed).deep_view()) == match group_rules_outcome(
                album_handle@,
                all.skip(i as int),
                claimed.deep_view(),
            ) {
                Ok((tail, last)) => Ok((validated@.map_values(|t: TrackRule| t@) + tail, last)),
                Err(v) => Err(v),
            },
        decreases rules.len() - i,
    {
        let ghost rest = all.skip(i as int);
        let ghost done = validated@.map_values(|t: TrackRule| t@);
        proof {
            assert(rest[0] == rules[i as int]@);
            assert(rest.drop_first() =~= all.skip(i + 1));
        }
        let rule = match rules[i].clone().into_rule(album_handle) {
            Ok(rule) => rule,
            Err(error) => {
                return Err(error);
            },
        };
        let names = rule.target.track_names();
        match claim_track_names(album_handle, &names, claimed) {
            Ok(()) => {},
            Err(error) => {
                return Err(error);
            },
        }
        let ghost rule_model = rule@;
        validated.push(rule);
        proof {
            assert(validated@.map_values(|t: TrackRule| t@) =~= done.push(rule_model));
            match group_rules_outcome(album_handle@, all.skip(i + 1), claimed.deep_view()) {
                Ok((tail, last)) => {
                    assert(done + (seq![rule_model] + tail) =~= done.push(rule_model) + tail);
                },
                Err(_) => {},
            }
        }
        i = i + 1;
    }
    proof {
        assert(all.skip(i as int) =~= Seq::<RawTrackRuleModel>::empty());
        assert(validated@.map_values(|t: TrackRule| t@) + Seq::<TrackRuleModel>::empty()
            =~= validated@.map_values(|t: TrackRule| t@));
    }
    Ok(validated)
}

/// Validates the track rule groups in order against the declared albums.
fn validate_track_rules(groups: &Vec<RawTrackRuleGroup>, albums: &IndexMap<String, Album>) -> (r: Result<
    Vec<TrackRuleGroup>,
    InvalidLibraryBuildSpec,
>)
    ensures
        match (r, groups_outcome(raw_group_models(groups@), handles_of(album_entries(*albums)), seq![])) {
            (Ok(v), Ok(expected)) => group_models(v@) == expected,
            (Err(e), Err(v)) => e@ == v,
            _ => false,
        },
{
    let ghost all = raw_group_models(groups@);
    let ghost declared = handles_of(album_entries(*albums));
    let mut claimed: Vec<(String, String)> = Vec::new();
    let mut validated: Vec<TrackRuleGroup> = Vec::new();
    proof {
        assert(all.skip(0) =~= all);
        assert(claimed.deep_view() =~= Seq::<(Seq<char>, Seq<char>)>::empty());
        assert(group_models(validated@) + Seq::<TrackRuleGroupModel>::empty() =~= Seq::<TrackRuleGroupModel>::empty());
    }
    let mut k: usize = 0;
    while k < groups.len()
        invariant
            k <= groups.len(),
            all == raw_group_models(groups@),
            declared == handles_of(album_entries(*albums)),
            groups_outcome(all, declared, seq![]) == prepend(
                group_models(validated@),
                groups_outcome(all.skip(k as int), declared, claimed.deep_view()),
            ),
        decreases groups.len() - k,
    {
        let ghost rest = all.skip(k as int);
        let ghost done = group_models(validated@);
        let group = &groups[k];
        proof {
            assert(rest[0] == groups[k as int]@);
            assert(rest.drop_first() =~= all.skip(k + 1));
        }
        match check_album_handle_defined(albums, &group.album_handle) {
            Ok(()) => {},
            Err(error) => {
                return Err(error);
            },
        }
        if group.rules.len() == 0 {
            return Err(
                InvalidLibraryBuildSpec::EmptyTrackRules { album_handle: group.album_handle.clone() },
            );
        }
        let rules = match validate_group_rules(&group.album_handle, &group.rules, &mut claimed) {
            Ok(rules) => rules,
            Err(error) => {
                return Err(error);
            },
        };
        let validated_group = TrackRuleGroup { album_handle: group.album_handle.clone(), rules };
        let ghost group_model = validated_group@;
        validated.push(validated_group);
        proof {
            assert(group_models(validated@) =~= done.push(group_model));
            match groups_outcome(all.skip(k + 1), declared, claimed.deep_view()) {
                Ok(tail) => {
                    assert(done + (seq![group_model] + tail) =~= done.push(group_model) + tail);
                },
                Err(_) => {},
            }
        }
        k = k + 1;
    }
    proof {
        assert(all.skip(k as int) =~= Seq::<RawTrackRuleGroupModel>::empty());
        assert(group_models(validated@) + Seq::<TrackRuleGroupModel>::empty() =~= group_models(validated@));
    }
    Ok(validated)
}

impl RawLibraryBuildSpec {
    /// Validates a decoded document, reporting the first violated rule in
    /// validation order.
    pub fn validate(&self) -> (r: Result<LibraryBuildSpec, InvalidLibraryBuildSpec>)
        requires
            distinct_handles(self@.albums),
        ensures
            agrees(r, validation(self@)),
    {
        let size_mode = match (self.bitrate, &self.target_size) {
            (Some(bitrate), None) => SizeMode::Bitrate(bitrate),
            (None, Some(target_size)) => SizeMode::TargetSize(target_size.clone()),
            (Some(_), Some(_)) => {
                return Err(InvalidLibraryBuildSpec::ConflictingSizeMode);
            },
            (None, None) => {
                return Err(InvalidLibraryBuildSpec::MissingSizeMode);
            },
        };

        // Validate each album declaration before checking rules that
        // reference handles, so a malformed declaration is reported first.
        let albums = match validate_albums(&self.albums) {
            Ok(albums) => albums,
            Err(error) => {
                return Err(error);
            },
        };
        match check_album_rules(&self.album_rules, &albums) {
            Ok(()) => {},
            Err(error) => {
                return Err(error);
            },
        }
        let track_rules = match validate_track_rules(&self.track_rules, &albums) {
            Ok(groups) => groups,
            Err(error) => {
                return Err(error);
            },
        };
        let spec = LibraryBuildSpec {
            codec: self.codec,
            encoding_profile: self.encoding_profile,
            size_mode,
            files: self.files.clone(),
            albums,
            album_rules: copy_album_rules(&self.album_rules),
            track_rules,
        };
        proof {
            assert(spec@.files == self@.files);
            assert(album_rule_models(spec.album_rules@) =~= self@.album_rules);
        }
        Ok(spec)
    }
}

// ---------------------------------------------------------------------------
// Messages.

/// The text describing a violated rule.
pub open spec fn violation_message(v: Violation) -> Seq<char> {
    match v {
        Violation::MissingSizeMode => "exactly one of bitrate or target_size must be set"@,
        Violation::ConflictingSizeMode => "bitrate and target_size are mutually exclusive"@,
        Violation::MissingAlbumSelector { album_handle } => "album `"@ + album_handle
            + "` must set at least one of name, artist, directory, or directories"@,
        Violation::ConflictingAlbumPaths { album_handle } => "album `"@ + album_handle
            + "` must set at most one of directory or directories"@,
        Violation::EmptyAlbumDirectory { album_handle } => "album `"@ + album_handle
            + "` has an empty directory path"@,
        Violation::EmptyAlbumDirectories { album_handle } => "album `"@ + album_handle
            + "` has an empty directories list"@,
        Violation::EmptyAlbumDirectoriesEntry { album_handle, index } => "album `"@ + album_handle
            + "` has an empty directories entry at index "@ + decimal(index as nat),
        Violation::UnknownAlbum { album_handle } => "rule references undeclared album handle `"@
            + album_handle + "`"@,
        Violation::EmptyAlbums => "album rule must list at least one album handle"@,
        Violation::DuplicateAlbumRule { album_handle } => "album `"@ + album_handle
            + "` receives more than one album rule"@,
        Violation::DuplicateTrackRule { album_handle, track_name } => "track `"@ + track_name
            + "` in album `"@ + album_handle + "` has more than one rule"@,
        Violation::EmptyTrackRules { album_handle } => "track rule group for `"@ + album_handle
            + "` has no nested rules"@,
        Violation::TrackTargetNotExclusive { album_handle } => "track rule for `"@ + album_handle
            + "` must set exactly one of track or tracks"@,
        Violation::EmptyTracks { album_handle } => "track rule for `"@ + album_handle
            + "` has an empty tracks list"@,
        Violation::TrackActionNotExclusive { album_handle } => "track rule for `"@ + album_handle
            + "` must set exactly one of exclude or bitrate"@,
    }
}

/// `before`, the text, then `after`.
fn framed(before: &str, text: &String, after: &str) -> (r: String)
    ensures
        r@ == before@ + text@ + after@,
{
    let mut out = String::from_str(before);
    out.append(text.as_str());
    out.append(after);
    out
}

impl InvalidLibraryBuildSpec {
    /// A sentence describing the violated rule.
    pub fn message(&self) -> (r: String)
        ensures
            r@ == violation_message(self@),
    {
        match self {
            InvalidLibraryBuildSpec::MissingSizeMode => String::from_str(
                "exactly one of bitrate or target_size must be set",
            ),
            InvalidLibraryBuildSpec::ConflictingSizeMode => String::from_str(
                "bitrate and target_size are mutually exclusive",
            ),
            InvalidLibraryBuildSpec::MissingAlbumSelector { album_handle } => framed(
                "album `",
                album_handle,
                "` must set at least one of name, artist, directory, or directories",
            ),
            InvalidLibraryBuildSpec::ConflictingAlbumPaths { album_handle } => framed(
                "album `",
                album_handle,
                "` must set at most one of directory or directories",
            ),
            InvalidLibraryBuildSpec::EmptyAlbumDirectory { album_handle } => framed(
                "album `",
                album_handle,
                "` has an empty directory path",
            ),
            InvalidLibraryBuildSpec::EmptyAlbumDirectories { album_handle } => framed(
                "album `",
                album_handle,
                "` has an empty directories list",
            ),
            InvalidLibraryBuildSpec::EmptyAlbumDirectoriesEntry { album_handle, index } => {
                let mut out = framed(
                    "album `",
                    album_handle,
                    "` has an empty directories entry at index ",
                );
                append_decimal(&mut out, *index);
                out
            },
            InvalidLibraryBuildSpec::UnknownAlbum { album_handle } => framed(
                "rule references undeclared album handle `",
                album_handle,
                "`",
            ),
            InvalidLibraryBuildSpec::EmptyAlbums => String::from_str(
                "album rule must list at least one album handle",
            ),
            InvalidLibraryBuildSpec::DuplicateAlbumRule { album_handle } => framed(
                "album `",
                album_handle,
                "` receives more than one album rule",
            ),
            InvalidLibraryBuildSpec::DuplicateTrackRule { album_handle, track_name } => {
                let mut out = framed("track `", track_name, "` in album `");
                out.append(album_handle.as_str());
                out.append("` has more than one rule");
                out
            },
            InvalidLibraryBuildSpec::EmptyTrackRules { album_handle } => framed(
                "track rule group for `",
                album_handle,
                "` has no nested rules",
            ),
            InvalidLibraryBuildSpec::TrackTargetNotExclusive { album_handle } => framed(
                "track rule for `",
                album_handle,
                "` must set exactly one of track or tracks",
            ),
            InvalidLibraryBuildSpec::EmptyTracks { album_handle } => framed(
                "track rule for `",
                album_handle,
                "` has an empty tracks list",
            ),
            InvalidLibraryBuildSpec::TrackActionNotExclusive { album_handle } => framed(
                "track rule for `",
                album_handle,
                "` must set exactly one of exclude or bitrate",
            ),
        }
    }
}

} // verus!
