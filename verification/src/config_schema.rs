//! The shape of a configuration document.
//!
//! A parsed TOML table is decoded into the raw declarations of
//! [`crate::config`]. Every table of the configuration rejects unknown keys.
//! A table-shaped value may also be written as an array listing its fields
//! in declaration order; surplus elements are ignored. The first mismatch in
//! document order is reported; a missing required key is reported after all
//! present keys were accepted.

use vstd::prelude::*;

use crate::config::{
    validation, InvalidLibraryBuildSpec, LibraryBuildSpec, album_rule_models, distinct_handles, prepend, raw_album_models, raw_group_models,
    raw_rule_models, AlbumRule, AlbumRuleModel, Codec, EncodingProfile, Files, FilesModel, RawAlbum,
    RawAlbumModel, RawLibraryBuildSpec, RawLibraryBuildSpecModel, RawTrackRule,
    RawTrackRuleGroup, RawTrackRuleGroupModel, RawTrackRuleModel,
};
use crate::config::violation_message;
use crate::toml_input::{
    entry_models, item_nodes, parse_toml_table, table_entries, toml_document, toml_entries,
    toml_error_display, toml_error_text, toml_node, value_shape, TomlNode, TomlShape,
};

verus! {

/// Why a document does not have the configuration's shape.
#[derive(Debug, Clone, PartialEq, Eq)]
pub enum SchemaMismatch {
    /// A table holds a key the configuration does not define.
    UnknownField { field: String },
    /// A required key is absent.
    MissingField { field: String },
    /// A value has the wrong TOML type.
    InvalidType { field: String },
    /// An array standing for a table lists too few fields.
    InvalidLength { field: String },
    /// An integer does not fit the field.
    OutOfRange { field: String },
    /// A string names no variant of the field's enumeration.
    UnknownVariant { field: String },
}

pub enum Mismatch {
    UnknownField { field: Seq<char> },
    MissingField { field: Seq<char> },
    InvalidType { field: Seq<char> },
    InvalidLength { field: Seq<char> },
    OutOfRange { field: Seq<char> },
    UnknownVariant { field: Seq<char> },
}

impl View for SchemaMismatch {
    type V = Mismatch;

    open spec fn view(&self) -> Mismatch {
        match self {
            SchemaMismatch::UnknownField { field } => Mismatch::UnknownField { field: field@ },
            SchemaMismatch::MissingField { field } => Mismatch::MissingField { field: field@ },
            SchemaMismatch::InvalidType { field } => Mismatch::InvalidType { field: field@ },
            SchemaMismatch::InvalidLength { field } => Mismatch::InvalidLength { field: field@ },
            SchemaMismatch::OutOfRange { field } => Mismatch::OutOfRange { field: field@ },
            SchemaMismatch::UnknownVariant { field } => Mismatch::UnknownVariant { field: field@ },
        }
    }
}

// ---------------------------------------------------------------------------
// The shape, stated over parsed TOML nodes.

pub open spec fn failure<T>(r: Result<T, Mismatch>) -> Option<Mismatch> {
    match r {
        Ok(_) => None,
        Err(m) => Some(m),
    }
}

/// The first entry of a table, in order, that a check rejects.
pub open spec fn first_failure(
    entries: Seq<(Seq<char>, TomlNode)>,
    check: spec_fn(Seq<char>, TomlNode) -> Option<Mismatch>,
) -> Option<Mismatch>
    decreases entries.len(),
{
    if entries.len() == 0 {
        None
    } else {
        match check(entries[0].0, entries[0].1) {
            Some(m) => Some(m),
            None => first_failure(entries.drop_first(), check),
        }
    }
}

/// The value stored under a key.
pub open spec fn lookup(entries: Seq<(Seq<char>, TomlNode)>, key: Seq<char>) -> Option<TomlNode>
    decreases entries.len(),
{
    if entries.len() == 0 {
        None
    } else if entries.last().0 == key {
        Some(entries.last().1)
    } else {
        lookup(entries.drop_last(), key)
    }
}

pub open spec fn decode_text(field: Seq<char>, node: TomlNode) -> Result<Seq<char>, Mismatch> {
    match node {
        TomlNode::Text(s) => Ok(s),
        _ => Err(Mismatch::InvalidType { field }),
    }
}

pub open spec fn decode_u32(field: Seq<char>, node: TomlNode) -> Result<u32, Mismatch> {
    match node {
        TomlNode::Integer(i) => if 0 <= i <= u32::MAX {
            Ok(i as u32)
        } else {
            Err(Mismatch::OutOfRange { field })
        },
        _ => Err(Mismatch::InvalidType { field }),
    }
}

pub open spec fn decode_bool(field: Seq<char>, node: TomlNode) -> Result<bool, Mismatch> {
    match node {
        TomlNode::Boolean(b) => Ok(b),
        _ => Err(Mismatch::InvalidType { field }),
    }
}

/// Every item of an array, in order, must be a string.
pub open spec fn texts_outcome(field: Seq<char>, items: Seq<TomlNode>) -> Result<Seq<Seq<char>>, Mismatch>
    decreases items.len(),
{
    if items.len() == 0 {
        Ok(seq![])
    } else {
        match decode_text(field, items[0]) {
            Err(m) => Err(m),
            Ok(s) => prepend(seq![s], texts_outcome(field, items.drop_first())),
        }
    }
}

pub open spec fn decode_texts(field: Seq<char>, node: TomlNode) -> Result<Seq<Seq<char>>, Mismatch> {
    match node {
        TomlNode::Array(items) => texts_outcome(field, items),
        _ => Err(Mismatch::InvalidType { field }),
    }
}

/// The payload a unit variant accepts when written as a one-key table.
pub open spec fn empty_payload(node: TomlNode) -> bool {
    match node {
        TomlNode::Array(items) => items.len() == 0,
        TomlNode::Table(entries) => entries.len() == 0,
        _ => false,
    }
}

/// The codec: the string `opus`, or a table whose only key is `opus` with an
/// empty array or table as its value.
pub open spec fn decode_codec(field: Seq<char>, node: TomlNode) -> Result<Codec, Mismatch> {
    match node {
        TomlNode::Text(s) => if s == "opus"@ {
            Ok(Codec::Opus)
        } else {
            Err(Mismatch::UnknownVariant { field })
        },
        TomlNode::Table(entries) => if entries.len() != 1 {
            Err(Mismatch::InvalidType { field })
        } else if entries[0].0 == "opus"@ {
            if empty_payload(entries[0].1) {
                Ok(Codec::Opus)
            } else {
                Err(Mismatch::InvalidType { field })
            }
        } else {
            Err(Mismatch::UnknownVariant { field })
        },
        _ => Err(Mismatch::InvalidType { field }),
    }
}

/// The encoding profile: `music` or `none`, as a string or as a table whose
/// only key is the name with an empty array or table as its value.
pub open spec fn decode_profile(field: Seq<char>, node: TomlNode) -> Result<EncodingProfile, Mismatch> {
    match node {
        TomlNode::Text(s) => if s == "music"@ {
            Ok(EncodingProfile::Music)
        } else if s == "none"@ {
            Ok(EncodingProfile::NoProfile)
        } else {
            Err(Mismatch::UnknownVariant { field })
        },
        TomlNode::Table(entries) => if entries.len() != 1 {
            Err(Mismatch::InvalidType { field })
        } else if entries[0].0 == "music"@ {
            if empty_payload(entries[0].1) {
                Ok(EncodingProfile::Music)
            } else {
                Err(Mismatch::InvalidType { field })
            }
        } else if entries[0].0 == "none"@ {
            if empty_payload(entries[0].1) {
                Ok(EncodingProfile::NoProfile)
            } else {
                Err(Mismatch::InvalidType { field })
            }
        } else {
            Err(Mismatch::UnknownVariant { field })
        },
        _ => Err(Mismatch::InvalidType { field }),
    }
}

/// A present optional field, decoded.
pub open spec fn present<T>(
    entries: Seq<(Seq<char>, TomlNode)>,
    key: Seq<char>,
    decode: spec_fn(Seq<char>, TomlNode) -> Result<T, Mismatch>,
) -> Option<T> {
    match lookup(entries, key) {
        Some(node) => match decode(key, node) {
            Ok(v) => Some(v),
            Err(_) => None,
        },
        None => None,
    }
}

/// The `i`-th element standing for a field, if the array is long enough.
pub open spec fn element<T>(
    items: Seq<TomlNode>,
    i: int,
    field: Seq<char>,
    decode: spec_fn(Seq<char>, TomlNode) -> Result<T, Mismatch>,
) -> Result<T, Mismatch> {
    if i < items.len() {
        decode(field, items[i])
    } else {
        Err(Mismatch::InvalidLength { field })
    }
}

// [files]

pub open spec fn files_check(key: Seq<char>, node: TomlNode) -> Option<Mismatch> {
    if key == "album_art"@ {
        failure(decode_bool(key, node))
    } else if key == "include"@ {
        failure(decode_texts(key, node))
    } else if key == "exclude"@ {
        failure(decode_texts(key, node))
    } else {
        Some(Mismatch::UnknownField { field: key })
    }
}

pub open spec fn files_from_table(entries: Seq<(Seq<char>, TomlNode)>) -> Result<FilesModel, Mismatch> {
    match first_failure(entries, files_checker()) {
        Some(m) => Err(m),
        None => Ok(
            FilesModel {
                album_art: present(entries, "album_art"@, bool_decoder()),
                included: present(entries, "include"@, texts_decoder()),
                exclude: present(entries, "exclude"@, texts_decoder()),
            },
        ),
    }
}

pub open spec fn files_from_array(items: Seq<TomlNode>) -> Result<FilesModel, Mismatch> {
    match element(items, 0, "album_art"@, bool_decoder()) {
        Err(m) => Err(m),
        Ok(album_art) => match element(items, 1, "include"@, texts_decoder()) {
            Err(m) => Err(m),
            Ok(included) => match element(items, 2, "exclude"@, texts_decoder()) {
                Err(m) => Err(m),
                Ok(exclude) => Ok(
                    FilesModel {
                        album_art: Some(album_art),
                        included: Some(included),
                        exclude: Some(exclude),
                    },
                ),
            },
        },
    }
}

pub open spec fn decode_files(field: Seq<char>, node: TomlNode) -> Result<FilesModel, Mismatch> {
    match node {
        TomlNode::Table(entries) => files_from_table(entries),
        TomlNode::Array(items) => files_from_array(items),
        _ => Err(Mismatch::InvalidType { field }),
    }
}

// [albums.<handle>]

pub open spec fn album_check(key: Seq<char>, node: TomlNode) -> Option<Mismatch> {
    if key == "name"@ {
        failure(decode_text(key, node))
    } else if key == "artist"@ {
        failure(decode_text(key, node))
    } else if key == "directory"@ {
        failure(decode_text(key, node))
    } else if key == "directories"@ {
        failure(decode_texts(key, node))
    } else {
        Some(Mismatch::UnknownField { field: key })
    }
}

pub open spec fn album_from_table(entries: Seq<(Seq<char>, TomlNode)>) -> Result<RawAlbumModel, Mismatch> {
    match first_failure(entries, album_checker()) {
        Some(m) => Err(m),
        None => Ok(
            RawAlbumModel {
                name: present(entries, "name"@, text_decoder()),
                artist: present(entries, "artist"@, text_decoder()),
                directory: present(entries, "directory"@, text_decoder()),
                directories: present(entries, "directories"@, texts_decoder()),
            },
        ),
    }
}

pub open spec fn album_from_array(items: Seq<TomlNode>) -> Result<RawAlbumModel, Mismatch> {
    match element(items, 0, "name"@, text_decoder()) {
        Err(m) => Err(m),
        Ok(name) => match element(items, 1, "artist"@, text_decoder()) {
            Err(m) => Err(m),
            Ok(artist) => match element(items, 2, "directory"@, text_decoder()) {
                Err(m) => Err(m),
                Ok(directory) => match element(items, 3, "directories"@, texts_decoder()) {
                    Err(m) => Err(m),
                    Ok(directories) => Ok(
                        RawAlbumModel {
                            name: Some(name),
                            artist: Some(artist),
                            directory: Some(directory),
                            directories: Some(directories),
                        },
                    ),
                },
            },
        },
    }
}

pub open spec fn decode_album(field: Seq<char>, node: TomlNode) -> Result<RawAlbumModel, Mismatch> {
    match node {
        TomlNode::Table(entries) => album_from_table(entries),
        TomlNode::Array(items) => album_from_array(items),
        _ => Err(Mismatch::InvalidType { field }),
    }
}

/// Every album declaration in order, keyed by its handle.
pub open spec fn albums_entries_outcome(entries: Seq<(Seq<char>, TomlNode)>) -> Result<
    Seq<(Seq<char>, RawAlbumModel)>,
    Mismatch,
>
    decreases entries.len(),
{
    if entries.len() == 0 {
        Ok(seq![])
    } else {
        match decode_album(entries[0].0, entries[0].1) {
            Err(m) => Err(m),
            Ok(a) => prepend(seq![(entries[0].0, a)], albums_entries_outcome(entries.drop_first())),
        }
    }
}

pub open spec fn decode_albums(field: Seq<char>, node: TomlNode) -> Result<Seq<(Seq<char>, RawAlbumModel)>, Mismatch> {
    match node {
        TomlNode::Table(entries) => albums_entries_outcome(entries),
        _ => Err(Mismatch::InvalidType { field }),
    }
}

// [[album_rules]]

pub open spec fn album_rule_check(key: Seq<char>, node: TomlNode) -> Option<Mismatch> {
    if key == "albums"@ {
        failure(decode_texts(key, node))
    } else if key == "bitrate"@ {
        failure(decode_u32(key, node))
    } else {
        Some(Mismatch::UnknownField { field: key })
    }
}

pub open spec fn album_rule_from_table(entries: Seq<(Seq<char>, TomlNode)>) -> Result<AlbumRuleModel, Mismatch> {
    match first_failure(entries, album_rule_checker()) {
        Some(m) => Err(m),
        None => match (
            present(entries, "albums"@, texts_decoder()),
            present(entries, "bitrate"@, u32_decoder()),
        ) {
            (None, _) => Err(Mismatch::MissingField { field: "albums"@ }),
            (Some(_), None) => Err(Mismatch::MissingField { field: "bitrate"@ }),
            (Some(handles), Some(bitrate)) => Ok(AlbumRuleModel { album_handles: handles, bitrate }),
        },
    }
}

pub open spec fn album_rule_from_array(items: Seq<TomlNode>) -> Result<AlbumRuleModel, Mismatch> {
    match element(items, 0, "albums"@, texts_decoder()) {
        Err(m) => Err(m),
        Ok(handles) => match element(items, 1, "bitrate"@, u32_decoder()) {
            Err(m) => Err(m),
            Ok(bitrate) => Ok(AlbumRuleModel { album_handles: handles, bitrate }),
        },
    }
}

pub open spec fn decode_album_rule(field: Seq<char>, node: TomlNode) -> Result<AlbumRuleModel, Mismatch> {
    match node {
        TomlNode::Table(entries) => album_rule_from_table(entries),
        TomlNode::Array(items) => album_rule_from_array(items),
        _ => Err(Mismatch::InvalidType { field }),
    }
}

/// Every item of an array, in order, decoded by `decode`.
pub open spec fn items_outcome<T>(
    field: Seq<char>,
    items: Seq<TomlNode>,
    decode: spec_fn(Seq<char>, TomlNode) -> Result<T, Mismatch>,
) -> Result<Seq<T>, Mismatch>
    decreases items.len(),
{
    if items.len() == 0 {
        Ok(seq![])
    } else {
        match decode(field, items[0]) {
            Err(m) => Err(m),
            Ok(v) => prepend(seq![v], items_outcome(field, items.drop_first(), decode)),
        }
    }
}

pub open spec fn decode_list<T>(
    field: Seq<char>,
    node: TomlNode,
    decode: spec_fn(Seq<char>, TomlNode) -> Result<T, Mismatch>,
) -> Result<Seq<T>, Mismatch> {
    match node {
        TomlNode::Array(items) => items_outcome(field, items, decode),
        _ => Err(Mismatch::InvalidType { field }),
    }
}

// Track rule entries.

pub open spec fn track_rule_check(key: Seq<char>, node: TomlNode) -> Option<Mismatch> {
    if key == "track"@ {
        failure(decode_text(key, node))
    } else if key == "tracks"@ {
        failure(decode_texts(key, node))
    } else if key == "exclude"@ {
        failure(decode_bool(key, node))
    } else if key == "bitrate"@ {
        failure(decode_u32(key, node))
    } else {
        Some(Mismatch::UnknownField { field: key })
    }
}

pub open spec fn track_rule_from_table(entries: Seq<(Seq<char>, TomlNode)>) -> Result<RawTrackRuleModel, Mismatch> {
    match first_failure(entries, track_rule_checker()) {
        Some(m) => Err(m),
        None => Ok(
            RawTrackRuleModel {
                track: present(entries, "track"@, text_decoder()),
                tracks: present(entries, "tracks"@, texts_decoder()),
                exclude: present(entries, "exclude"@, bool_decoder()),
                bitrate: present(entries, "bitrate"@, u32_decoder()),
            },
        ),
    }
}

pub open spec fn track_rule_from_array(items: Seq<TomlNode>) -> Result<RawTrackRuleModel, Mismatch> {
    match element(items, 0, "track"@, text_decoder()) {
        Err(m) => Err(m),
        Ok(track) => match element(items, 1, "tracks"@, texts_decoder()) {
            Err(m) => Err(m),
            Ok(tracks) => match element(items, 2, "exclude"@, bool_decoder()) {
                Err(m) => Err(m),
                Ok(exclude) => match element(items, 3, "bitrate"@, u32_decoder()) {
                    Err(m) => Err(m),
                    Ok(bitrate) => Ok(
                        RawTrackRuleModel {
                            track: Some(track),
                            tracks: Some(tracks),
                            exclude: Some(exclude),
                            bitrate: Some(bitrate),
                        },
                    ),
                },
            },
        },
    }
}

pub open spec fn decode_track_rule(field: Seq<char>, node: TomlNode) -> Result<RawTrackRuleModel, Mismatch> {
    match node {
        TomlNode::Table(entries) => track_rule_from_table(entries),
        TomlNode::Array(items) => track_rule_from_array(items),
        _ => Err(Mismatch::InvalidType { field }),
    }
}

// [[track_rules]]

pub open spec fn track_group_check(key: Seq<char>, node: TomlNode) -> Option<Mismatch> {
    if key == "album"@ {
        failure(decode_text(key, node))
    } else if key == "rules"@ {
        failure(decode_list(key, node, track_rule_decoder()))
    } else {
        Some(Mismatch::UnknownField { field: key })
    }
}

pub open spec fn track_group_from_table(entries: Seq<(Seq<char>, TomlNode)>) -> Result<RawTrackRuleGroupModel, Mismatch> {
    match first_failure(entries, track_group_checker()) {
        Some(m) => Err(m),
        None => match present(entries, "album"@, text_decoder()) {
            None => Err(Mismatch::MissingField { field: "album"@ }),
            Some(album) => Ok(
                RawTrackRuleGroupModel {
                    album_handle: album,
                    rules: match present(
                        entries,
                        "rules"@,
                        track_rules_decoder(),
                    ) {
                        Some(rules) => rules,
                        None => seq![],
                    },
                },
            ),
        },
    }
}

pub open spec fn track_group_from_array(items: Seq<TomlNode>) -> Result<RawTrackRuleGroupModel, Mismatch> {
    match element(items, 0, "album"@, text_decoder()) {
        Err(m) => Err(m),
        Ok(album) => if items.len() < 2 {
            Ok(RawTrackRuleGroupModel { album_handle: album, rules: seq![] })
        } else {
            match decode_list("rules"@, items[1], track_rule_decoder()) {
                Err(m) => Err(m),
                Ok(rules) => Ok(RawTrackRuleGroupModel { album_handle: album, rules }),
            }
        },
    }
}

pub open spec fn decode_track_group(field: Seq<char>, node: TomlNode) -> Result<RawTrackRuleGroupModel, Mismatch> {
    match node {
        TomlNode::Table(entries) => track_group_from_table(entries),
        TomlNode::Array(items) => track_group_from_array(items),
        _ => Err(Mismatch::InvalidType { field }),
    }
}

// The document.

pub open spec fn document_check(key: Seq<char>, node: TomlNode) -> Option<Mismatch> {
    if key == "codec"@ {
        failure(decode_codec(key, node))
    } else if key == "encoding_profile"@ {
        failure(decode_profile(key, node))
    } else if key == "bitrate"@ {
        failure(decode_u32(key, node))
    } else if key == "target_size"@ {
        failure(decode_text(key, node))
    } else if key == "files"@ {
        failure(decode_files(key, node))
    } else if key == "albums"@ {
        failure(decode_albums(key, node))
    } else if key == "album_rules"@ {
        failure(decode_list(key, node, album_rule_decoder()))
    } else if key == "track_rules"@ {
        failure(decode_list(key, node, track_group_decoder()))
    } else {
        Some(Mismatch::UnknownField { field: key })
    }
}

/// The raw declarations of a whole document, or its first mismatch.
pub open spec fn decode_document(entries: Seq<(Seq<char>, TomlNode)>) -> Result<RawLibraryBuildSpecModel, Mismatch> {
    match first_failure(entries, document_checker()) {
        Some(m) => Err(m),
        None => match present(entries, "codec"@, codec_decoder()) {
            None => Err(Mismatch::MissingField { field: "codec"@ }),
            Some(codec) => Ok(
                RawLibraryBuildSpecModel {
                    codec,
                    encoding_profile: match present(
                        entries,
                        "encoding_profile"@,
                        profile_decoder(),
                    ) {
                        Some(p) => p,
                        None => EncodingProfile::Music,
                    },
                    bitrate: present(entries, "bitrate"@, u32_decoder()),
                    target_size: present(entries, "target_size"@, text_decoder()),
                    files: match present(entries, "files"@, files_decoder()) {
                        Some(f) => f,
                        None => FilesModel { album_art: None, included: None, exclude: None },
                    },
                    albums: match present(entries, "albums"@, albums_decoder()) {
                        Some(a) => a,
                        None => seq![],
                    },
                    album_rules: match present(
                        entries,
                        "album_rules"@,
                        album_rules_decoder(),
                    ) {
                        Some(r) => r,
                        None => seq![],
                    },
                    track_rules: match present(
                        entries,
                        "track_rules"@,
                        track_groups_decoder(),
                    ) {
                        Some(g) => g,
                        None => seq![],
                    },
                },
            ),
        },
    }
}

// The decoders and checks, as values.

pub open spec fn text_decoder() -> spec_fn(Seq<char>, TomlNode) -> Result<Seq<char>, Mismatch> {
    |k: Seq<char>, n: TomlNode| decode_text(k, n)
}

pub open spec fn texts_decoder() -> spec_fn(Seq<char>, TomlNode) -> Result<Seq<Seq<char>>, Mismatch> {
    |k: Seq<char>, n: TomlNode| decode_texts(k, n)
}

pub open spec fn u32_decoder() -> spec_fn(Seq<char>, TomlNode) -> Result<u32, Mismatch> {
    |k: Seq<char>, n: TomlNode| decode_u32(k, n)
}

pub open spec fn bool_decoder() -> spec_fn(Seq<char>, TomlNode) -> Result<bool, Mismatch> {
    |k: Seq<char>, n: TomlNode| decode_bool(k, n)
}

pub open spec fn codec_decoder() -> spec_fn(Seq<char>, TomlNode) -> Result<Codec, Mismatch> {
    |k: Seq<char>, n: TomlNode| decode_codec(k, n)
}

pub open spec fn profile_decoder() -> spec_fn(Seq<char>, TomlNode) -> Result<EncodingProfile, Mismatch> {
    |k: Seq<char>, n: TomlNode| decode_profile(k, n)
}

pub open spec fn files_decoder() -> spec_fn(Seq<char>, TomlNode) -> Result<FilesModel, Mismatch> {
    |k: Seq<char>, n: TomlNode| decode_files(k, n)
}

pub open spec fn albums_decoder() -> spec_fn(Seq<char>, TomlNode) -> Result<Seq<(Seq<char>, RawAlbumModel)>, Mismatch> {
    |k: Seq<char>, n: TomlNode| decode_albums(k, n)
}

pub open spec fn album_rule_decoder() -> spec_fn(Seq<char>, TomlNode) -> Result<AlbumRuleModel, Mismatch> {
    |k: Seq<char>, n: TomlNode| decode_album_rule(k, n)
}

pub open spec fn track_rule_decoder() -> spec_fn(Seq<char>, TomlNode) -> Result<RawTrackRuleModel, Mismatch> {
    |k: Seq<char>, n: TomlNode| decode_track_rule(k, n)
}

pub open spec fn track_group_decoder() -> spec_fn(Seq<char>, TomlNode) -> Result<RawTrackRuleGroupModel, Mismatch> {
    |k: Seq<char>, n: TomlNode| decode_track_group(k, n)
}

pub open spec fn files_checker() -> spec_fn(Seq<char>, TomlNode) -> Option<Mismatch> {
    |k: Seq<char>, n: TomlNode| files_check(k, n)
}

pub open spec fn album_checker() -> spec_fn(Seq<char>, TomlNode) -> Option<Mismatch> {
    |k: Seq<char>, n: TomlNode| album_check(k, n)
}

pub open spec fn album_rule_checker() -> spec_fn(Seq<char>, TomlNode) -> Option<Mismatch> {
    |k: Seq<char>, n: TomlNode| album_rule_check(k, n)
}

pub open spec fn track_rule_checker() -> spec_fn(Seq<char>, TomlNode) -> Option<Mismatch> {
    |k: Seq<char>, n: TomlNode| track_rule_check(k, n)
}

pub open spec fn track_group_checker() -> spec_fn(Seq<char>, TomlNode) -> Option<Mismatch> {
    |k: Seq<char>, n: TomlNode| track_group_check(k, n)
}

pub open spec fn document_checker() -> spec_fn(Seq<char>, TomlNode) -> Option<Mismatch> {
    |k: Seq<char>, n: TomlNode| document_check(k, n)
}

pub open spec fn album_rules_decoder() -> spec_fn(Seq<char>, TomlNode) -> Result<Seq<AlbumRuleModel>, Mismatch> {
    |k: Seq<char>, n: TomlNode| decode_list(k, n, album_rule_decoder())
}

pub open spec fn track_rules_decoder() -> spec_fn(Seq<char>, TomlNode) -> Result<Seq<RawTrackRuleModel>, Mismatch> {
    |k: Seq<char>, n: TomlNode| decode_list(k, n, track_rule_decoder())
}

pub open spec fn track_groups_decoder() -> spec_fn(Seq<char>, TomlNode) -> Result<Seq<RawTrackRuleGroupModel>, Mismatch> {
    |k: Seq<char>, n: TomlNode| decode_list(k, n, track_group_decoder())
}

// ---------------------------------------------------------------------------
// Decoding.

/// Whether a decoding result agrees with the stated outcome (deep views).
pub open spec fn agrees_deep<T: DeepView>(r: Result<T, SchemaMismatch>, expected: Result<T::V, Mismatch>) -> bool {
    match r {
        Ok(v) => expected == Ok::<T::V, Mismatch>(v.deep_view()),
        Err(m) => expected == Err::<T::V, Mismatch>(m@),
    }
}

/// Whether a decoding result agrees with the stated outcome (views).
pub open spec fn agrees_view<T: View>(r: Result<T, SchemaMismatch>, expected: Result<T::V, Mismatch>) -> bool {
    match r {
        Ok(v) => expected == Ok::<T::V, Mismatch>(v@),
        Err(m) => expected == Err::<T::V, Mismatch>(m@),
    }
}

fn text_is(s: &String, literal: &str) -> (r: bool)
    ensures
        r == (s@ == literal@),
{
    *s == String::from_str(literal)
}

fn invalid_type(field: &str) -> (r: SchemaMismatch)
    ensures
        r@ == (Mismatch::InvalidType { field: field@ }),
{
    SchemaMismatch::InvalidType { field: String::from_str(field) }
}

fn text_value(field: &str, v: &toml::Value) -> (r: Result<String, SchemaMismatch>)
    ensures
        agrees_deep(r, decode_text(field@, toml_node(*v))),
{
    match value_shape(v) {
        TomlShape::Text(s) => Ok(s.clone()),
        _ => Err(invalid_type(field)),
    }
}

fn u32_value(field: &str, v: &toml::Value) -> (r: Result<u32, SchemaMismatch>)
    ensures
        agrees_deep(r, decode_u32(field@, toml_node(*v))),
{
    match value_shape(v) {
        TomlShape::Integer(i) => {
            if 0 <= i && i <= 0xffff_ffff {
                Ok(i as u32)
            } else {
                Err(SchemaMismatch::OutOfRange { field: String::from_str(field) })
            }
        },
        _ => Err(invalid_type(field)),
    }
}

fn bool_value(field: &str, v: &toml::Value) -> (r: Result<bool, SchemaMismatch>)
    ensures
        agrees_deep(r, decode_bool(field@, toml_node(*v))),
{
    match value_shape(v) {
        TomlShape::Boolean(b) => Ok(b),
        _ => Err(invalid_type(field)),
    }
}

fn texts_value(field: &str, v: &toml::Value) -> (r: Result<Vec<String>, SchemaMismatch>)
    ensures
        agrees_deep(r, decode_texts(field@, toml_node(*v))),
{
    match value_shape(v) {
        TomlShape::Array(items) => {
            let ghost nodes = item_nodes(items@);
            let mut texts: Vec<String> = Vec::new();
            proof {
                assert(nodes.skip(0) =~= nodes);
                match texts_outcome(field@, nodes) {
                    Ok(all) => {
                        assert(texts.deep_view() + all =~= all);
                    },
                    Err(_) => {},
                }
            }
            let mut i: usize = 0;
            while i < items.len()
                invariant
                    i <= items.len(),
                    nodes == item_nodes(items@),
                    toml_node(*v) == TomlNode::Array(nodes),
                    texts_outcome(field@, nodes) == prepend(
                        texts.deep_view(),
                        texts_outcome(field@, nodes.skip(i as int)),
                    ),
                decreases items.len() - i,
            {
                let ghost rest = nodes.skip(i as int);
                proof {
                    assert(rest[0] == toml_node(items@[i as int]));
                    assert(rest.drop_first() =~= nodes.skip(i + 1));
                }
                let text = match text_value(field, &items[i]) {
                    Ok(text) => text,
                    Err(m) => {
                        proof {
                            assert(rest.len() > 0);
                            assert(texts_outcome(field@, rest) == Err::<Seq<Seq<char>>, Mismatch>(m@));
                        }
                        return Err(m);
                    },
                };
                let ghost done = texts.deep_view();
                texts.push(text);
                proof {
                    assert(texts.deep_view() =~= done.push(text@));
                    match texts_outcome(field@, nodes.skip(i + 1)) {
                        Ok(tail) => {
                            assert(done + (seq![text@] + tail) =~= done.push(text@) + tail);
                        },
                        Err(_) => {},
                    }
                }
                i = i + 1;
            }
            proof {
                assert(nodes.skip(i as int) =~= Seq::<TomlNode>::empty());
                assert(texts.deep_view() + Seq::<Seq<char>>::empty() =~= texts.deep_view());
            }
            Ok(texts)
        },
        _ => Err(invalid_type(field)),
    }
}

fn empty_payload_value(v: &toml::Value) -> (r: bool)
    ensures
        r == empty_payload(toml_node(*v)),
{
    match value_shape(v) {
        TomlShape::Array(items) => items.len() == 0,
        TomlShape::Table(t) => table_entries(t).len() == 0,
        _ => false,
    }
}

fn codec_value(field: &str, v: &toml::Value) -> (r: Result<Codec, SchemaMismatch>)
    ensures
        agrees_view(r, decode_codec(field@, toml_node(*v))),
{
    match value_shape(v) {
        TomlShape::Text(s) => {
            if text_is(s, "opus") {
                Ok(Codec::Opus)
            } else {
                Err(SchemaMismatch::UnknownVariant { field: String::from_str(field) })
            }
        },
        TomlShape::Table(t) => {
            let entries = table_entries(t);
            if entries.len() != 1 {
                return Err(invalid_type(field));
            }
            let (name, payload) = entries[0];
            proof {
                assert(entry_models(entries@)[0] == (name@, toml_node(*payload)));
            }
            if text_is(name, "opus") {
                if empty_payload_value(payload) {
                    Ok(Codec::Opus)
                } else {
                    Err(invalid_type(field))
                }
            } else {
                Err(SchemaMismatch::UnknownVariant { field: String::from_str(field) })
            }
        },
        _ => Err(invalid_type(field)),
    }
}

fn profile_value(field: &str, v: &toml::Value) -> (r: Result<EncodingProfile, SchemaMismatch>)
    ensures
        agrees_view(r, decode_profile(field@, toml_node(*v))),
{
    match value_shape(v) {
        TomlShape::Text(s) => {
            if text_is(s, "music") {
                Ok(EncodingProfile::Music)
            } else if text_is(s, "none") {
                Ok(EncodingProfile::NoProfile)
            } else {
                Err(SchemaMismatch::UnknownVariant { field: String::from_str(field) })
            }
        },
        TomlShape::Table(t) => {
            let entries = table_entries(t);
            if entries.len() != 1 {
                return Err(invalid_type(field));
            }
            let (name, payload) = entries[0];
            proof {
                assert(entry_models(entries@)[0] == (name@, toml_node(*payload)));
            }
            if text_is(name, "music") {
                if empty_payload_value(payload) {
                    Ok(EncodingProfile::Music)
                } else {
                    Err(invalid_type(field))
                }
            } else if text_is(name, "none") {
                if empty_payload_value(payload) {
                    Ok(EncodingProfile::NoProfile)
                } else {
                    Err(invalid_type(field))
                }
            } else {
                Err(SchemaMismatch::UnknownVariant { field: String::from_str(field) })
            }
        },
        _ => Err(invalid_type(field)),
    }
}

pub open spec fn view_of<T: View>(o: Option<T>) -> Option<T::V> {
    match o {
        Some(x) => Some(x@),
        None => None,
    }
}

proof fn lemma_first_failure_step(
    entries: Seq<(Seq<char>, TomlNode)>,
    i: int,
    check: spec_fn(Seq<char>, TomlNode) -> Option<Mismatch>,
)
    requires
        0 <= i < entries.len(),
    ensures
        first_failure(entries.skip(i), check) == match check(entries[i].0, entries[i].1) {
            Some(m) => Some(m),
            None => first_failure(entries.skip(i + 1), check),
        },
{
    assert(entries.skip(i)[0] == entries[i]);
    assert(entries.skip(i).drop_first() =~= entries.skip(i + 1));
}

proof fn lemma_lookup_step(entries: Seq<(Seq<char>, TomlNode)>, i: int, key: Seq<char>)
    requires
        0 <= i < entries.len(),
    ensures
        lookup(entries.take(i + 1), key) == if entries[i].0 == key {
            Some(entries[i].1)
        } else {
            lookup(entries.take(i), key)
        },
{
    assert(entries.take(i + 1).last() == entries[i]);
    assert(entries.take(i + 1).drop_last() =~= entries.take(i));
}

proof fn lemma_table_start(entries: Seq<(Seq<char>, TomlNode)>, check: spec_fn(Seq<char>, TomlNode) -> Option<Mismatch>)
    ensures
        first_failure(entries, check) == first_failure(entries.skip(0), check),
        forall|key: Seq<char>| lookup(#[trigger] entries.take(0), key) is None,
{
    assert(entries.skip(0) =~= entries);
    assert(entries.take(0).len() == 0);
}

proof fn lemma_table_end(entries: Seq<(Seq<char>, TomlNode)>, check: spec_fn(Seq<char>, TomlNode) -> Option<Mismatch>)
    ensures
        first_failure(entries.skip(entries.len() as int), check) is None,
        entries.take(entries.len() as int) == entries,
{
    assert(entries.skip(entries.len() as int).len() == 0);
    assert(entries.take(entries.len() as int) =~= entries);
}

proof fn lemma_files_keys_distinct()
    ensures
        "album_art"@ != "include"@,
        "album_art"@ != "exclude"@,
        "include"@ != "exclude"@,
{
    reveal_strlit("album_art");
    reveal_strlit("include");
    reveal_strlit("exclude");
    assert("include"@[0] != "exclude"@[0]);
}

fn files_table(t: &toml::Table) -> (r: Result<Files, SchemaMismatch>)
    ensures
        agrees_view(r, files_from_table(toml_entries(*t))),
{
    let entries = table_entries(t);
    let ghost model = entry_models(entries@);
    let mut album_art: Option<bool> = None;
    let mut included: Option<Vec<String>> = None;
    let mut exclude: Option<Vec<String>> = None;
    proof {
        lemma_table_start(model, files_checker());
    }
    let mut i: usize = 0;
    while i < entries.len()
        invariant
            i <= entries.len(),
            model == entry_models(entries@),
            model == toml_entries(*t),
            first_failure(model, files_checker()) == first_failure(model.skip(i as int), files_checker()),
            album_art == present(model.take(i as int), "album_art"@, bool_decoder()),
            included.deep_view() == present(model.take(i as int), "include"@, texts_decoder()),
            exclude.deep_view() == present(model.take(i as int), "exclude"@, texts_decoder()),
        decreases entries.len() - i,
    {
        let (key, value) = entries[i];
        proof {
            assert(model[i as int] == (key@, toml_node(*value)));
            lemma_first_failure_step(model, i as int, files_checker());
            lemma_lookup_step(model, i as int, "album_art"@);
            lemma_lookup_step(model, i as int, "include"@);
            lemma_lookup_step(model, i as int, "exclude"@);
            lemma_files_keys_distinct();
        }
        if text_is(key, "album_art") {
            match bool_value("album_art", value) {
                Ok(b) => album_art = Some(b),
                Err(m) => {
                    return Err(m);
                },
            }
        } else if text_is(key, "include") {
            match texts_value("include", value) {
                Ok(v) => included = Some(v),
                Err(m) => {
                    return Err(m);
                },
            }
        } else if text_is(key, "exclude") {
            match texts_value("exclude", value) {
                Ok(v) => exclude = Some(v),
                Err(m) => {
                    return Err(m);
                },
            }
        } else {
            return Err(SchemaMismatch::UnknownField { field: key.clone() });
        }
        i = i + 1;
    }
    proof {
        lemma_table_end(model, files_checker());
    }
    Ok(Files { album_art, included, exclude })
}

fn invalid_length(field: &str) -> (r: SchemaMismatch)
    ensures
        r@ == (Mismatch::InvalidLength { field: field@ }),
{
    SchemaMismatch::InvalidLength { field: String::from_str(field) }
}

fn missing_field(field: &str) -> (r: SchemaMismatch)
    ensures
        r@ == (Mismatch::MissingField { field: field@ }),
{
    SchemaMismatch::MissingField { field: String::from_str(field) }
}

fn files_array(items: &Vec<toml::Value>) -> (r: Result<Files, SchemaMismatch>)
    ensures
        agrees_view(r, files_from_array(item_nodes(items@))),
{
    if items.len() < 1 {
        return Err(invalid_length("album_art"));
    }
    let album_art = match bool_value("album_art", &items[0]) {
        Ok(b) => b,
        Err(m) => {
            return Err(m);
        },
    };
    if items.len() < 2 {
        return Err(invalid_length("include"));
    }
    let included = match texts_value("include", &items[1]) {
        Ok(v) => v,
        Err(m) => {
            return Err(m);
        },
    };
    if items.len() < 3 {
        return Err(invalid_length("exclude"));
    }
    let exclude = match texts_value("exclude", &items[2]) {
        Ok(v) => v,
        Err(m) => {
            return Err(m);
        },
    };
    Ok(Files { album_art: Some(album_art), included: Some(included), exclude: Some(exclude) })
}

fn files_value(field: &str, v: &toml::Value) -> (r: Result<Files, SchemaMismatch>)
    ensures
        agrees_view(r, decode_files(field@, toml_node(*v))),
{
    match value_shape(v) {
        TomlShape::Table(t) => files_table(t),
        TomlShape::Array(items) => files_array(items),
        _ => Err(invalid_type(field)),
    }
}

proof fn lemma_album_keys_distinct()
    ensures
        "name"@ != "artist"@,
        "name"@ != "directory"@,
        "name"@ != "directories"@,
        "artist"@ != "directory"@,
        "artist"@ != "directories"@,
        "directory"@ != "directories"@,
{
    reveal_strlit("name");
    reveal_strlit("artist");
    reveal_strlit("directory");
    reveal_strlit("directories");
    assert("name"@.len() == 4);
    assert("artist"@.len() == 6);
    assert("directory"@.len() == 9);
    assert("directories"@.len() == 11);
}

fn album_table(t: &toml::Table) -> (r: Result<RawAlbum, SchemaMismatch>)
    ensures
        agrees_view(r, album_from_table(toml_entries(*t))),
{
    let entries = table_entries(t);
    let ghost model = entry_models(entries@);
    let mut name: Option<String> = None;
    let mut artist: Option<String> = None;
    let mut directory: Option<String> = None;
    let mut directories: Option<Vec<String>> = None;
    proof {
        lemma_table_start(model, album_checker());
    }
    let mut i: usize = 0;
    while i < entries.len()
        invariant
            i <= entries.len(),
            model == entry_models(entries@),
            model == toml_entries(*t),
            first_failure(model, album_checker()) == first_failure(model.skip(i as int), album_checker()),
            name.deep_view() == present(model.take(i as int), "name"@, text_decoder()),
            artist.deep_view() == present(model.take(i as int), "artist"@, text_decoder()),
            directory.deep_view() == present(model.take(i as int), "directory"@, text_decoder()),
            directories.deep_view() == present(model.take(i as int), "directories"@, texts_decoder()),
        decreases entries.len() - i,
    {
        let (key, value) = entries[i];
        proof {
            assert(model[i as int] == (key@, toml_node(*value)));
            lemma_first_failure_step(model, i as int, album_checker());
            lemma_lookup_step(model, i as int, "name"@);
            lemma_lookup_step(model, i as int, "artist"@);
            lemma_lookup_step(model, i as int, "directory"@);
            lemma_lookup_step(model, i as int, "directories"@);
            lemma_album_keys_distinct();
        }
        if text_is(key, "name") {
            match text_value("name", value) {
                Ok(v) => name = Some(v),
                Err(m) => {
                    return Err(m);
                },
            }
        } else if text_is(key, "artist") {
            match text_value("artist", value) {
                Ok(v) => artist = Some(v),
                Err(m) => {
                    return Err(m);
                },
            }
        } else if text_is(key, "directory") {
            match text_value("directory", value) {
                Ok(v) => directory = Some(v),
                Err(m) => {
                    return Err(m);
                },
            }
        } else if text_is(key, "directories") {
            match texts_value("directories", value) {
                Ok(v) => directories = Some(v),
                Err(m) => {
                    return Err(m);
                },
            }
        } else {
            return Err(SchemaMismatch::UnknownField { field: key.clone() });
        }
        i = i + 1;
    }
    proof {
        lemma_table_end(model, album_checker());
    }
    Ok(RawAlbum { name, artist, directory, directories })
}

fn album_array(items: &Vec<toml::Value>) -> (r: Result<RawAlbum, SchemaMismatch>)
    ensures
        agrees_view(r, album_from_array(item_nodes(items@))),
{
    if items.len() < 1 {
        return Err(invalid_length("name"));
    }
    let name = match text_value("name", &items[0]) {
        Ok(v) => v,
        Err(m) => {
            return Err(m);
        },
    };
    if items.len() < 2 {
        return Err(invalid_length("artist"));
    }
    let artist = match text_value("artist", &items[1]) {
        Ok(v) => v,
        Err(m) => {
            return Err(m);
        },
    };
    if items.len() < 3 {
        return Err(invalid_length("directory"));
    }
    let directory = match text_value("directory", &items[2]) {
        Ok(v) => v,
        Err(m) => {
            return Err(m);
        },
    };
    if items.len() < 4 {
        return Err(invalid_length("directories"));
    }
    let directories = match texts_value("directories", &items[3]) {
        Ok(v) => v,
        Err(m) => {
            return Err(m);
        },
    };
    Ok(
        RawAlbum {
            name: Some(name),
            artist: Some(artist),
            directory: Some(directory),
            directories: Some(directories),
        },
    )
}

fn album_value(field: &str, v: &toml::Value) -> (r: Result<RawAlbum, SchemaMismatch>)
    ensures
        agrees_view(r, decode_album(field@, toml_node(*v))),
{
    match value_shape(v) {
        TomlShape::Table(t) => album_table(t),
        TomlShape::Array(items) => album_array(items),
        _ => Err(invalid_type(field)),
    }
}

fn albums_value(field: &str, v: &toml::Value) -> (r: Result<Vec<(String, RawAlbum)>, SchemaMismatch>)
    ensures
        match r {
            Ok(a) => decode_albums(field@, toml_node(*v)) == Ok::<
                Seq<(Seq<char>, RawAlbumModel)>,
                Mismatch,
            >(raw_album_models(a@)) && distinct_handles(raw_album_models(a@)),
            Err(m) => decode_albums(field@, toml_node(*v)) == Err::<
                Seq<(Seq<char>, RawAlbumModel)>,
                Mismatch,
            >(m@),
        },
{
    match value_shape(v) {
        TomlShape::Table(t) => {
            let entries = table_entries(t);
            let ghost model = entry_models(entries@);
            let mut albums: Vec<(String, RawAlbum)> = Vec::new();
            proof {
                assert(model.skip(0) =~= model);
                match albums_entries_outcome(model) {
                    Ok(all) => {
                        assert(raw_album_models(albums@) + all =~= all);
                    },
                    Err(_) => {},
                }
            }
            let mut i: usize = 0;
            while i < entries.len()
                invariant
                    i <= entries.len(),
                    model == entry_models(entries@),
                    toml_node(*v) == TomlNode::Table(model),
                    forall|a: int, b: int|
                        0 <= a < entries@.len() && 0 <= b < entries@.len() && a != b ==> entries@[a].0@
                            != entries@[b].0@,
                    albums@.len() == i,
                    forall|k: int| 0 <= k < i ==> #[trigger] albums@[k].0@ == entries@[k].0@,
                    albums_entries_outcome(model) == prepend(
                        raw_album_models(albums@),
                        albums_entries_outcome(model.skip(i as int)),
                    ),
                decreases entries.len() - i,
            {
                let (key, value) = entries[i];
                let ghost rest = model.skip(i as int);
                proof {
                    assert(model[i as int] == (key@, toml_node(*value)));
                    assert(rest[0] == model[i as int]);
                    assert(rest.drop_first() =~= model.skip(i + 1));
                }
                let album = match album_value(key.as_str(), value) {
                    Ok(album) => album,
                    Err(m) => {
                        return Err(m);
                    },
                };
                let ghost done = raw_album_models(albums@);
                let ghost entry = (key@, album@);
                albums.push((key.clone(), album));
                proof {
                    assert(raw_album_models(albums@) =~= done.push(entry));
                    match albums_entries_outcome(model.skip(i + 1)) {
                        Ok(tail) => {
                            assert(done + (seq![entry] + tail) =~= done.push(entry) + tail);
                        },
                        Err(_) => {},
                    }
                }
                i = i + 1;
            }
            proof {
                assert(model.skip(i as int) =~= Seq::<(Seq<char>, TomlNode)>::empty());
                assert(raw_album_models(albums@) + Seq::<(Seq<char>, RawAlbumModel)>::empty()
                    =~= raw_album_models(albums@));
                assert(distinct_handles(raw_album_models(albums@))) by {
                    assert forall|a: int, b: int|
                        0 <= a < albums@.len() && 0 <= b < albums@.len() && a != b implies raw_album_models(albums@)[a].0
                            != raw_album_models(albums@)[b].0 by {
                        assert(albums@[a].0@ == entries@[a].0@);
                        assert(albums@[b].0@ == entries@[b].0@);
                    }
                }
            }
            Ok(albums)
        },
        _ => Err(invalid_type(field)),
    }
}

proof fn lemma_album_rule_keys_distinct()
    ensures
        "albums"@ != "bitrate"@,
{
    reveal_strlit("albums");
    reveal_strlit("bitrate");
    assert("albums"@.len() == 6);
    assert("bitrate"@.len() == 7);
}

fn album_rule_table(t: &toml::Table) -> (r: Result<AlbumRule, SchemaMismatch>)
    ensures
        agrees_view(r, album_rule_from_table(toml_entries(*t))),
{
    let entries = table_entries(t);
    let ghost model = entry_models(entries@);
    let mut handles: Option<Vec<String>> = None;
    let mut bitrate: Option<u32> = None;
    proof {
        lemma_table_start(model, album_rule_checker());
    }
    let mut i: usize = 0;
    while i < entries.len()
        invariant
            i <= entries.len(),
            model == entry_models(entries@),
            model == toml_entries(*t),
            first_failure(model, album_rule_checker()) == first_failure(
                model.skip(i as int),
                album_rule_checker(),
            ),
            handles.deep_view() == present(model.take(i as int), "albums"@, texts_decoder()),
            bitrate == present(model.take(i as int), "bitrate"@, u32_decoder()),
        decreases entries.len() - i,
    {
        let (key, value) = entries[i];
        proof {
            assert(model[i as int] == (key@, toml_node(*value)));
            lemma_first_failure_step(model, i as int, album_rule_checker());
            lemma_lookup_step(model, i as int, "albums"@);
            lemma_lookup_step(model, i as int, "bitrate"@);
            lemma_album_rule_keys_distinct();
        }
        if text_is(key, "albums") {
            match texts_value("albums", value) {
                Ok(v) => handles = Some(v),
                Err(m) => {
                    return Err(m);
                },
            }
        } else if text_is(key, "bitrate") {
            match u32_value("bitrate", value) {
                Ok(v) => bitrate = Some(v),
                Err(m) => {
                    return Err(m);
                },
            }
        } else {
            return Err(SchemaMismatch::UnknownField { field: key.clone() });
        }
        i = i + 1;
    }
    proof {
        lemma_table_end(model, album_rule_checker());
    }
    match (handles, bitrate) {
        (None, _) => Err(missing_field("albums")),
        (Some(_), None) => Err(missing_field("bitrate")),
        (Some(handles), Some(bitrate)) => Ok(AlbumRule { album_handles: handles, bitrate }),
    }
}

fn album_rule_array(items: &Vec<toml::Value>) -> (r: Result<AlbumRule, SchemaMismatch>)
    ensures
        agrees_view(r, album_rule_from_array(item_nodes(items@))),
{
    if items.len() < 1 {
        return Err(invalid_length("albums"));
    }
    let handles = match texts_value("albums", &items[0]) {
        Ok(v) => v,
        Err(m) => {
            return Err(m);
        },
    };
    if items.len() < 2 {
        return Err(invalid_length("bitrate"));
    }
    let bitrate = match u32_value("bitrate", &items[1]) {
        Ok(v) => v,
        Err(m) => {
            return Err(m);
        },
    };
    Ok(AlbumRule { album_handles: handles, bitrate })
}

fn album_rule_value(field: &str, v: &toml::Value) -> (r: Result<AlbumRule, SchemaMismatch>)
    ensures
        agrees_view(r, decode_album_rule(field@, toml_node(*v))),
{
    match value_shape(v) {
        TomlShape::Table(t) => album_rule_table(t),
        TomlShape::Array(items) => album_rule_array(items),
        _ => Err(invalid_type(field)),
    }
}

fn album_rules_value(field: &str, v: &toml::Value) -> (r: Result<Vec<AlbumRule>, SchemaMismatch>)
    ensures
        match r {
            Ok(rules) => decode_list(field@, toml_node(*v), album_rule_decoder()) == Ok::<
                Seq<AlbumRuleModel>,
                Mismatch,
            >(album_rule_models(rules@)),
            Err(m) => decode_list(field@, toml_node(*v), album_rule_decoder()) == Err::<
                Seq<AlbumRuleModel>,
                Mismatch,
            >(m@),
        },
{
    match value_shape(v) {
        TomlShape::Array(items) => {
            let ghost nodes = item_nodes(items@);
            let mut rules: Vec<AlbumRule> = Vec::new();
            proof {
                assert(nodes.skip(0) =~= nodes);
                match items_outcome(field@, nodes, album_rule_decoder()) {
                    Ok(all) => {
                        assert(album_rule_models(rules@) + all =~= all);
                    },
                    Err(_) => {},
                }
            }
            let mut i: usize = 0;
            while i < items.len()
                invariant
                    i <= items.len(),
                    nodes == item_nodes(items@),
                    toml_node(*v) == TomlNode::Array(nodes),
                    items_outcome(field@, nodes, album_rule_decoder()) == prepend(
                        album_rule_models(rules@),
                        items_outcome(field@, nodes.skip(i as int), album_rule_decoder()),
                    ),
                decreases items.len() - i,
            {
                let ghost rest = nodes.skip(i as int);
                proof {
                    assert(rest[0] == toml_node(items@[i as int]));
                    assert(rest.drop_first() =~= nodes.skip(i + 1));
                }
                let rule = match album_rule_value(field, &items[i]) {
                    Ok(rule) => rule,
                    Err(m) => {
                        return Err(m);
                    },
                };
                let ghost done = album_rule_models(rules@);
                let ghost model = rule@;
                rules.push(rule);
                proof {
                    assert(album_rule_models(rules@) =~= done.push(model));
                    match items_outcome(field@, nodes.skip(i + 1), album_rule_decoder()) {
                        Ok(tail) => {
                            assert(done + (seq![model] + tail) =~= done.push(model) + tail);
                        },
                        Err(_) => {},
                    }
                }
                i = i + 1;
            }
            proof {
                assert(nodes.skip(i as int) =~= Seq::<TomlNode>::empty());
                assert(album_rule_models(rules@) + Seq::<AlbumRuleModel>::empty() =~= album_rule_models(rules@));
            }
            Ok(rules)
        },
        _ => Err(invalid_type(field)),
    }
}

proof fn lemma_track_rule_keys_distinct()
    ensures
        "track"@ != "tracks"@,
        "track"@ != "exclude"@,
        "track"@ != "bitrate"@,
        "tracks"@ != "exclude"@,
        "tracks"@ != "bitrate"@,
        "exclude"@ != "bitrate"@,
{
    reveal_strlit("track");
    reveal_strlit("tracks");
    reveal_strlit("exclude");
    reveal_strlit("bitrate");
    assert("track"@.len() == 5);
    assert("tracks"@.len() == 6);
    assert("exclude"@.len() == 7);
    assert("bitrate"@.len() == 7);
    assert("exclude"@[0] != "bitrate"@[0]);
}

fn track_rule_table(t: &toml::Table) -> (r: Result<RawTrackRule, SchemaMismatch>)
    ensures
        agrees_view(r, track_rule_from_table(toml_entries(*t))),
{
    let entries = table_entries(t);
    let ghost model = entry_models(entries@);
    let mut track: Option<String> = None;
    let mut tracks: Option<Vec<String>> = None;
    let mut exclude: Option<bool> = None;
    let mut bitrate: Option<u32> = None;
    proof {
        lemma_table_start(model, track_rule_checker());
    }
    let mut i: usize = 0;
    while i < entries.len()
        invariant
            i <= entries.len(),
            model == entry_models(entries@),
            model == toml_entries(*t),
            first_failure(model, track_rule_checker()) == first_failure(
                model.skip(i as int),
                track_rule_checker(),
            ),
            track.deep_view() == present(model.take(i as int), "track"@, text_decoder()),
            tracks.deep_view() == present(model.take(i as int), "tracks"@, texts_decoder()),
            exclude == present(model.take(i as int), "exclude"@, bool_decoder()),
            bitrate == present(model.take(i as int), "bitrate"@, u32_decoder()),
        decreases entries.len() - i,
    {
        let (key, value) = entries[i];
        proof {
            assert(model[i as int] == (key@, toml_node(*value)));
            lemma_first_failure_step(model, i as int, track_rule_checker());
            lemma_lookup_step(model, i as int, "track"@);
            lemma_lookup_step(model, i as int, "tracks"@);
            lemma_lookup_step(model, i as int, "exclude"@);
            lemma_lookup_step(model, i as int, "bitrate"@);
            lemma_track_rule_keys_distinct();
        }
        if text_is(key, "track") {
            match text_value("track", value) {
                Ok(v) => track = Some(v),
                Err(m) => {
                    return Err(m);
                },
            }
        } else if text_is(key, "tracks") {
            match texts_value("tracks", value) {
                Ok(v) => tracks = Some(v),
                Err(m) => {
                    return Err(m);
                },
            }
        } else if text_is(key, "exclude") {
            match bool_value("exclude", value) {
                Ok(v) => exclude = Some(v),
                Err(m) => {
                    return Err(m);
                },
            }
        } else if text_is(key, "bitrate") {
            match u32_value("bitrate", value) {
                Ok(v) => bitrate = Some(v),
                Err(m) => {
                    return Err(m);
                },
            }
        } else {
            return Err(SchemaMismatch::UnknownField { field: key.clone() });
        }
        i = i + 1;
    }
    proof {
        lemma_table_end(model, track_rule_checker());
    }
    Ok(RawTrackRule { track, tracks, exclude, bitrate })
}

fn track_rule_array(items: &Vec<toml::Value>) -> (r: Result<RawTrackRule, SchemaMismatch>)
    ensures
        agrees_view(r, track_rule_from_array(item_nodes(items@))),
{
    if items.len() < 1 {
        return Err(invalid_length("track"));
    }
    let track = match text_value("track", &items[0]) {
        Ok(v) => v,
        Err(m) => {
            return Err(m);
        },
    };
    if items.len() < 2 {
        return Err(invalid_length("tracks"));
    }
    let tracks = match texts_value("tracks", &items[1]) {
        Ok(v) => v,
        Err(m) => {
            return Err(m);
        },
    };
    if items.len() < 3 {
        return Err(invalid_length("exclude"));
    }
    let exclude = match bool_value("exclude", &items[2]) {
        Ok(v) => v,
        Err(m) => {
            return Err(m);
        },
    };
    if items.len() < 4 {
        return Err(invalid_length("bitrate"));
    }
    let bitrate = match u32_value("bitrate", &items[3]) {
        Ok(v) => v,
        Err(m) => {
            return Err(m);
        },
    };
    Ok(
        RawTrackRule {
            track: Some(track),
            tracks: Some(tracks),
            exclude: Some(exclude),
            bitrate: Some(bitrate),
        },
    )
}

fn track_rule_value(field: &str, v: &toml::Value) -> (r: Result<RawTrackRule, SchemaMismatch>)
    ensures
        agrees_view(r, decode_track_rule(field@, toml_node(*v))),
{
    match value_shape(v) {
        TomlShape::Table(t) => track_rule_table(t),
        TomlShape::Array(items) => track_rule_array(items),
        _ => Err(invalid_type(field)),
    }
}

fn track_rules_value(field: &str, v: &toml::Value) -> (r: Result<Vec<RawTrackRule>, SchemaMismatch>)
    ensures
        match r {
            Ok(rules) => decode_list(field@, toml_node(*v), track_rule_decoder()) == Ok::<
                Seq<RawTrackRuleModel>,
                Mismatch,
            >(raw_rule_models(rules@)),
            Err(m) => decode_list(field@, toml_node(*v), track_rule_decoder()) == Err::<
                Seq<RawTrackRuleModel>,
                Mismatch,
            >(m@),
        },
{
    match value_shape(v) {
        TomlShape::Array(items) => {
            let ghost nodes = item_nodes(items@);
            let mut rules: Vec<RawTrackRule> = Vec::new();
            proof {
                assert(nodes.skip(0) =~= nodes);
                match items_outcome(field@, nodes, track_rule_decoder()) {
                    Ok(all) => {
                        assert(raw_rule_models(rules@) + all =~= all);
                    },
                    Err(_) => {},
                }
            }
            let mut i: usize = 0;
            while i < items.len()
                invariant
                    i <= items.len(),
                    nodes == item_nodes(items@),
                    toml_node(*v) == TomlNode::Array(nodes),
                    items_outcome(field@, nodes, track_rule_decoder()) == prepend(
                        raw_rule_models(rules@),
                        items_outcome(field@, nodes.skip(i as int), track_rule_decoder()),
                    ),
                decreases items.len() - i,
            {
                let ghost rest = nodes.skip(i as int);
                proof {
                    assert(rest[0] == toml_node(items@[i as int]));
                    assert(rest.drop_first() =~= nodes.skip(i + 1));
                }
                let rule = match track_rule_value(field, &items[i]) {
                    Ok(rule) => rule,
                    Err(m) => {
                        return Err(m);
                    },
                };
                let ghost done = raw_rule_models(rules@);
                let ghost model = rule@;
                rules.push(rule);
                proof {
                    assert(raw_rule_models(rules@) =~= done.push(model));
                    match items_outcome(field@, nodes.skip(i + 1), track_rule_decoder()) {
                        Ok(tail) => {
                            assert(done + (seq![model] + tail) =~= done.push(model) + tail);
                        },
                        Err(_) => {},
                    }
                }
                i = i + 1;
            }
            proof {
                assert(nodes.skip(i as int) =~= Seq::<TomlNode>::empty());
                assert(raw_rule_models(rules@) + Seq::<RawTrackRuleModel>::empty() =~= raw_rule_models(rules@));
            }
            Ok(rules)
        },
        _ => Err(invalid_type(field)),
    }
}

proof fn lemma_track_group_keys_distinct()
    ensures
        "album"@ != "rules"@,
{
    reveal_strlit("album");
    reveal_strlit("rules");
    assert("album"@[0] != "rules"@[0]);
}

fn track_group_table(t: &toml::Table) -> (r: Result<RawTrackRuleGroup, SchemaMismatch>)
    ensures
        agrees_view(r, track_group_from_table(toml_entries(*t))),
{
    let entries = table_entries(t);
    let ghost model = entry_models(entries@);
    let mut album: Option<String> = None;
    let mut rules: Option<Vec<RawTrackRule>> = None;
    proof {
        lemma_table_start(model, track_group_checker());
    }
    let mut i: usize = 0;
    while i < entries.len()
        invariant
            i <= entries.len(),
            model == entry_models(entries@),
            model == toml_entries(*t),
            first_failure(model, track_group_checker()) == first_failure(
                model.skip(i as int),
                track_group_checker(),
            ),
            album.deep_view() == present(model.take(i as int), "album"@, text_decoder()),
            match rules {
                Some(r) => present(model.take(i as int), "rules"@, track_rules_decoder()) == Some(
                    raw_rule_models(r@),
                ),
                None => present(model.take(i as int), "rules"@, track_rules_decoder()) is None,
            },
        decreases entries.len() - i,
    {
        let (key, value) = entries[i];
        proof {
            assert(model[i as int] == (key@, toml_node(*value)));
            lemma_first_failure_step(model, i as int, track_group_checker());
            lemma_lookup_step(model, i as int, "album"@);
            lemma_lookup_step(model, i as int, "rules"@);
            lemma_track_group_keys_distinct();
        }
        if text_is(key, "album") {
            match text_value("album", value) {
                Ok(v) => album = Some(v),
                Err(m) => {
                    return Err(m);
                },
            }
        } else if text_is(key, "rules") {
            match track_rules_value("rules", value) {
                Ok(v) => rules = Some(v),
                Err(m) => {
                    return Err(m);
                },
            }
        } else {
            return Err(SchemaMismatch::UnknownField { field: key.clone() });
        }
        i = i + 1;
    }
    proof {
        lemma_table_end(model, track_group_checker());
    }
    match album {
        None => Err(missing_field("album")),
        Some(album) => {
            let rules = match rules {
                Some(rules) => rules,
                None => Vec::new(),
            };
            proof {
                assert(raw_rule_models(rules@) =~= match present(model, "rules"@, track_rules_decoder()) {
                    Some(r) => r,
                    None => Seq::<RawTrackRuleModel>::empty(),
                });
            }
            Ok(RawTrackRuleGroup { album_handle: album, rules })
        },
    }
}

fn track_group_array(items: &Vec<toml::Value>) -> (r: Result<RawTrackRuleGroup, SchemaMismatch>)
    ensures
        agrees_view(r, track_group_from_array(item_nodes(items@))),
{
    if items.len() < 1 {
        return Err(invalid_length("album"));
    }
    let album = match text_value("album", &items[0]) {
        Ok(v) => v,
        Err(m) => {
            return Err(m);
        },
    };
    if items.len() < 2 {
        let rules: Vec<RawTrackRule> = Vec::new();
        proof {
            assert(raw_rule_models(rules@) =~= Seq::<RawTrackRuleModel>::empty());
        }
        return Ok(RawTrackRuleGroup { album_handle: album, rules });
    }
    let rules = match track_rules_value("rules", &items[1]) {
        Ok(v) => v,
        Err(m) => {
            return Err(m);
        },
    };
    Ok(RawTrackRuleGroup { album_handle: album, rules })
}

fn track_group_value(field: &str, v: &toml::Value) -> (r: Result<RawTrackRuleGroup, SchemaMismatch>)
    ensures
        agrees_view(r, decode_track_group(field@, toml_node(*v))),
{
    match value_shape(v) {
        TomlShape::Table(t) => track_group_table(t),
        TomlShape::Array(items) => track_group_array(items),
        _ => Err(invalid_type(field)),
    }
}

fn track_groups_value(field: &str, v: &toml::Value) -> (r: Result<Vec<RawTrackRuleGroup>, SchemaMismatch>)
    ensures
        match r {
            Ok(groups) => decode_list(field@, toml_node(*v), track_group_decoder()) == Ok::<
                Seq<RawTrackRuleGroupModel>,
                Mismatch,
            >(raw_group_models(groups@)),
            Err(m) => decode_list(field@, toml_node(*v), track_group_decoder()) == Err::<
                Seq<RawTrackRuleGroupModel>,
                Mismatch,
            >(m@),
        },
{
    match value_shape(v) {
        TomlShape::Array(items) => {
            let ghost nodes = item_nodes(items@);
            let mut groups: Vec<RawTrackRuleGroup> = Vec::new();
            proof {
                assert(nodes.skip(0) =~= nodes);
                match items_outcome(field@, nodes, track_group_decoder()) {
                    Ok(all) => {
                        assert(raw_group_models(groups@) + all =~= all);
                    },
                    Err(_) => {},
                }
            }
            let mut i: usize = 0;
            while i < items.len()
                invariant
                    i <= items.len(),
                    nodes == item_nodes(items@),
                    toml_node(*v) == TomlNode::Array(nodes),
                    items_outcome(field@, nodes, track_group_decoder()) == prepend(
                        raw_group_models(groups@),
                        items_outcome(field@, nodes.skip(i as int), track_group_decoder()),
                    ),
                decreases items.len() - i,
            {
                let ghost rest = nodes.skip(i as int);
                proof {
                    assert(rest[0] == toml_node(items@[i as int]));
                    assert(rest.drop_first() =~= nodes.skip(i + 1));
                }
                let group = match track_group_value(field, &items[i]) {
                    Ok(group) => group,
                    Err(m) => {
                        return Err(m);
                    },
                };
                let ghost done = raw_group_models(groups@);
                let ghost model = group@;
                groups.push(group);
                proof {
                    assert(raw_group_models(groups@) =~= done.push(model));
                    match items_outcome(field@, nodes.skip(i + 1), track_group_decoder()) {
                        Ok(tail) => {
                            assert(done + (seq![model] + tail) =~= done.push(model) + tail);
                        },
                        Err(_) => {},
                    }
                }
                i = i + 1;
            }
            proof {
                assert(nodes.skip(i as int) =~= Seq::<TomlNode>::empty());
                assert(raw_group_models(groups@) + Seq::<RawTrackRuleGroupModel>::empty() =~= raw_group_models(groups@));
            }
            Ok(groups)
        },
        _ => Err(invalid_type(field)),
    }
}

proof fn lemma_document_keys_distinct()
    ensures
        "codec"@ != "encoding_profile"@,
        "codec"@ != "bitrate"@,
        "codec"@ != "target_size"@,
        "codec"@ != "files"@,
        "codec"@ != "albums"@,
        "codec"@ != "album_rules"@,
        "codec"@ != "track_rules"@,
        "encoding_profile"@ != "bitrate"@,
        "encoding_profile"@ != "target_size"@,
        "encoding_profile"@ != "files"@,
        "encoding_profile"@ != "albums"@,
        "encoding_profile"@ != "album_rules"@,
        "encoding_profile"@ != "track_rules"@,
        "bitrate"@ != "target_size"@,
        "bitrate"@ != "files"@,
        "bitrate"@ != "albums"@,
        "bitrate"@ != "album_rules"@,
        "bitrate"@ != "track_rules"@,
        "target_size"@ != "files"@,
        "target_size"@ != "albums"@,
        "target_size"@ != "album_rules"@,
        "target_size"@ != "track_rules"@,
        "files"@ != "albums"@,
        "files"@ != "album_rules"@,
        "files"@ != "track_rules"@,
        "albums"@ != "album_rules"@,
        "albums"@ != "track_rules"@,
        "album_rules"@ != "track_rules"@,
{
    reveal_strlit("codec");
    reveal_strlit("encoding_profile");
    reveal_strlit("bitrate");
    reveal_strlit("target_size");
    reveal_strlit("files");
    reveal_strlit("albums");
    reveal_strlit("album_rules");
    reveal_strlit("track_rules");
    assert("codec"@.len() == 5);
    assert("encoding_profile"@.len() == 16);
    assert("bitrate"@.len() == 7);
    assert("target_size"@.len() == 11);
    assert("files"@.len() == 5);
    assert("albums"@.len() == 6);
    assert("album_rules"@.len() == 11);
    assert("track_rules"@.len() == 11);
    assert("codec"@[0] != "files"@[0]);
    assert("target_size"@[0] != "album_rules"@[0]);
    assert("target_size"@[1] != "track_rules"@[1]);
    assert("album_rules"@[0] != "track_rules"@[0]);
}

/// Decodes the raw declarations of a parsed configuration document.
pub fn decode_document_table(t: &toml::Table) -> (r: Result<RawLibraryBuildSpec, SchemaMismatch>)
    ensures
        agrees_view(r, decode_document(toml_entries(*t))),
        r matches Ok(raw) ==> distinct_handles(raw@.albums),
{
    let entries = table_entries(t);
    let ghost model = entry_models(entries@);
    let mut codec: Option<Codec> = None;
    let mut encoding_profile: Option<EncodingProfile> = None;
    let mut bitrate: Option<u32> = None;
    let mut target_size: Option<String> = None;
    let mut files: Option<Files> = None;
    let mut albums: Option<Vec<(String, RawAlbum)>> = None;
    let mut album_rules: Option<Vec<AlbumRule>> = None;
    let mut track_rules: Option<Vec<RawTrackRuleGroup>> = None;
    proof {
        lemma_table_start(model, document_checker());
    }
    let mut i: usize = 0;
    while i < entries.len()
        invariant
            i <= entries.len(),
            model == entry_models(entries@),
            model == toml_entries(*t),
            first_failure(model, document_checker()) == first_failure(
                model.skip(i as int),
                document_checker(),
            ),
            codec == present(model.take(i as int), "codec"@, codec_decoder()),
            encoding_profile == present(model.take(i as int), "encoding_profile"@, profile_decoder()),
            bitrate == present(model.take(i as int), "bitrate"@, u32_decoder()),
            target_size.deep_view() == present(model.take(i as int), "target_size"@, text_decoder()),
            view_of(files) == present(model.take(i as int), "files"@, files_decoder()),
            match albums {
                Some(a) => present(model.take(i as int), "albums"@, albums_decoder()) == Some(
                    raw_album_models(a@),
                ) && distinct_handles(raw_album_models(a@)),
                None => present(model.take(i as int), "albums"@, albums_decoder()) is None,
            },
            match album_rules {
                Some(a) => present(model.take(i as int), "album_rules"@, album_rules_decoder())
                    == Some(album_rule_models(a@)),
                None => present(model.take(i as int), "album_rules"@, album_rules_decoder()) is None,
            },
            match track_rules {
                Some(g) => present(model.take(i as int), "track_rules"@, track_groups_decoder())
                    == Some(raw_group_models(g@)),
                None => present(model.take(i as int), "track_rules"@, track_groups_decoder()) is None,
            },
        decreases entries.len() - i,
    {
        let (key, value) = entries[i];
        proof {
            assert(model[i as int] == (key@, toml_node(*value)));
            lemma_first_failure_step(model, i as int, document_checker());
            lemma_lookup_step(model, i as int, "codec"@);
            lemma_lookup_step(model, i as int, "encoding_profile"@);
            lemma_lookup_step(model, i as int, "bitrate"@);
            lemma_lookup_step(model, i as int, "target_size"@);
            lemma_lookup_step(model, i as int, "files"@);
            lemma_lookup_step(model, i as int, "albums"@);
            lemma_lookup_step(model, i as int, "album_rules"@);
            lemma_lookup_step(model, i as int, "track_rules"@);
            lemma_document_keys_distinct();
        }
        if text_is(key, "codec") {
            match codec_value("codec", value) {
                Ok(v) => codec = Some(v),
                Err(m) => {
                    return Err(m);
                },
            }
        } else if text_is(key, "encoding_profile") {
            match profile_value("encoding_profile", value) {
                Ok(v) => encoding_profile = Some(v),
                Err(m) => {
                    return Err(m);
                },
            }
        } else if text_is(key, "bitrate") {
            match u32_value("bitrate", value) {
                Ok(v) => bitrate = Some(v),
                Err(m) => {
                    return Err(m);
                },
            }
        } else if text_is(key, "target_size") {
            match text_value("target_size", value) {
                Ok(v) => target_size = Some(v),
                Err(m) => {
                    return Err(m);
                },
            }
        } else if text_is(key, "files") {
            match files_value("files", value) {
                Ok(v) => files = Some(v),
                Err(m) => {
                    return Err(m);
                },
            }
        } else if text_is(key, "albums") {
            match albums_value("albums", value) {
                Ok(v) => albums = Some(v),
                Err(m) => {
                    return Err(m);
                },
            }
        } else if text_is(key, "album_rules") {
            match album_rules_value("album_rules", value) {
                Ok(v) => album_rules = Some(v),
                Err(m) => {
                    return Err(m);
                },
            }
        } else if text_is(key, "track_rules") {
            match track_groups_value("track_rules", value) {
                Ok(v) => track_rules = Some(v),
                Err(m) => {
                    return Err(m);
                },
            }
        } else {
            return Err(SchemaMismatch::UnknownField { field: key.clone() });
        }
        i = i + 1;
    }
    proof {
        lemma_table_end(model, document_checker());
    }
    let codec = match codec {
        Some(codec) => codec,
        None => {
            return Err(missing_field("codec"));
        },
    };
    let encoding_profile = match encoding_profile {
        Some(p) => p,
        None => EncodingProfile::Music,
    };
    let files = match files {
        Some(f) => f,
        None => Files::default(),
    };
    let albums = match albums {
        Some(a) => a,
        None => {
            let a: Vec<(String, RawAlbum)> = Vec::new();
            proof {
                assert(raw_album_models(a@) =~= Seq::<(Seq<char>, RawAlbumModel)>::empty());
            }
            a
        },
    };
    let album_rules = match album_rules {
        Some(a) => a,
        None => {
            let a: Vec<AlbumRule> = Vec::new();
            proof {
                assert(album_rule_models(a@) =~= Seq::<AlbumRuleModel>::empty());
            }
            a
        },
    };
    let track_rules = match track_rules {
        Some(g) => g,
        None => {
            let g: Vec<RawTrackRuleGroup> = Vec::new();
            proof {
                assert(raw_group_models(g@) =~= Seq::<RawTrackRuleGroupModel>::empty());
            }
            g
        },
    };
    Ok(
        RawLibraryBuildSpec {
            codec,
            encoding_profile,
            bitrate,
            target_size,
            files,
            albums,
            album_rules,
            track_rules,
        },
    )
}

// ---------------------------------------------------------------------------
// Parsing a document.

/// A failure to read a configuration document as TOML of the configuration's
/// shape.
#[derive(Debug)]
pub enum TomlError {
    /// The text is not valid TOML.
    Syntax(toml::de::Error),
    /// The TOML does not match the configuration schema shape.
    Schema(SchemaMismatch),
}

/// A failure to parse or validate a configuration document.
#[derive(Debug)]
pub enum LibraryBuildSpecError {
    /// The text is not valid TOML or does not match the configuration schema shape.
    Toml(TomlError),
    /// The document is well-formed but violates a configuration-internal rule.
    Invalid(InvalidLibraryBuildSpec),
}

impl From<InvalidLibraryBuildSpec> for LibraryBuildSpecError {
    fn from(error: InvalidLibraryBuildSpec) -> (r: Self) {
        LibraryBuildSpecError::Invalid(error)
    }
}

impl vstd::std_specs::convert::FromSpecImpl<InvalidLibraryBuildSpec> for LibraryBuildSpecError {
    open spec fn obeys_from_spec() -> bool {
        true
    }

    open spec fn from_spec(v: InvalidLibraryBuildSpec) -> Self {
        LibraryBuildSpecError::Invalid(v)
    }
}

/// The sentence describing a shape mismatch.
pub open spec fn mismatch_message(m: Mismatch) -> Seq<char> {
    match m {
        Mismatch::UnknownField { field } => "unknown field `"@ + field + "`"@,
        Mismatch::MissingField { field } => "missing field `"@ + field + "`"@,
        Mismatch::InvalidType { field } => "invalid type for `"@ + field + "`"@,
        Mismatch::InvalidLength { field } => "too few elements for `"@ + field + "`"@,
        Mismatch::OutOfRange { field } => "value out of range for `"@ + field + "`"@,
        Mismatch::UnknownVariant { field } => "unknown variant for `"@ + field + "`"@,
    }
}

/// `before`, the field name, then a closing backtick.
fn quoted(before: &str, field: &String) -> (r: String)
    ensures
        r@ == before@ + field@ + "`"@,
{
    let mut out = String::from_str(before);
    out.append(field.as_str());
    out.append("`");
    out
}

impl SchemaMismatch {
    /// A sentence naming the mismatch and the field it concerns.
    pub fn message(&self) -> (r: String)
        ensures
            r@ == mismatch_message(self@),
    {
        match self {
            SchemaMismatch::UnknownField { field } => quoted("unknown field `", field),
            SchemaMismatch::MissingField { field } => quoted("missing field `", field),
            SchemaMismatch::InvalidType { field } => quoted("invalid type for `", field),
            SchemaMismatch::InvalidLength { field } => quoted("too few elements for `", field),
            SchemaMismatch::OutOfRange { field } => quoted("value out of range for `", field),
            SchemaMismatch::UnknownVariant { field } => quoted("unknown variant for `", field),
        }
    }
}

impl TomlError {
    /// A sentence describing why the document could not be read: the TOML
    /// parser's own description of a syntax error, or the shape mismatch.
    pub fn message(&self) -> (r: String)
        ensures
            r@ == match self {
                TomlError::Syntax(e) => toml_error_display(*e),
                TomlError::Schema(m) => mismatch_message(m@),
            },
    {
        match self {
            TomlError::Syntax(error) => toml_error_text(error),
            TomlError::Schema(mismatch) => mismatch.message(),
        }
    }
}

impl LibraryBuildSpecError {
    /// A sentence describing the failure: a TOML failure behind a common
    /// prefix, or the violated rule.
    pub fn message(&self) -> (r: String)
        ensures
            r@ == match self {
                LibraryBuildSpecError::Toml(TomlError::Syntax(e)) => "invalid TOML configuration: "@
                    + toml_error_display(*e),
                LibraryBuildSpecError::Toml(TomlError::Schema(m)) => "invalid TOML configuration: "@
                    + mismatch_message(m@),
                LibraryBuildSpecError::Invalid(v) => violation_message(v@),
            },
    {
        match self {
            LibraryBuildSpecError::Toml(error) => {
                let mut out = String::from_str("invalid TOML configuration: ");
                let text = error.message();
                out.append(text.as_str());
                out
            },
            LibraryBuildSpecError::Invalid(violation) => violation.message(),
        }
    }
}

/// What parsing a document with the given table entries yields: the first
/// shape mismatch, else the first violated rule, else the validated
/// configuration.
pub open spec fn parsed_as(r: Result<LibraryBuildSpec, LibraryBuildSpecError>, entries: Seq<(Seq<char>, TomlNode)>) -> bool {
    match decode_document(entries) {
        Err(m) => r matches Err(LibraryBuildSpecError::Toml(TomlError::Schema(e))) && e@ == m,
        Ok(raw) => match validation(raw) {
            Err(v) => r matches Err(LibraryBuildSpecError::Invalid(e)) && e@ == v,
            Ok(spec) => r matches Ok(s) && s@ == spec,
        },
    }
}

/// Decodes and validates a parsed TOML configuration document.
pub fn parse_table(table: &toml::Table) -> (r: Result<LibraryBuildSpec, LibraryBuildSpecError>)
    ensures
        parsed_as(r, toml_entries(*table)),
{
    let raw = match decode_document_table(table) {
        Ok(raw) => raw,
        Err(mismatch) => {
            return Err(LibraryBuildSpecError::Toml(TomlError::Schema(mismatch)));
        },
    };
    match raw.validate() {
        Ok(spec) => Ok(spec),
        Err(error) => Err(LibraryBuildSpecError::from(error)),
    }
}

/// Parses and validates a TOML library configuration document.
///
/// TOML syntax and shape errors are returned as [`LibraryBuildSpecError::Toml`].
/// Well-formed documents that violate a cross-field rule are returned as
/// [`LibraryBuildSpecError::Invalid`]. When several conflicts exist, the first in
/// validation order is reported.
pub fn parse(text: &str) -> (r: Result<LibraryBuildSpec, LibraryBuildSpecError>)
    ensures
        match toml_document(text@) {
            None => r matches Err(LibraryBuildSpecError::Toml(TomlError::Syntax(_))),
            Some(entries) => parsed_as(r, entries),
        },
{
    match parse_toml_table(text) {
        Ok(table) => parse_table(&table),
        Err(error) => Err(LibraryBuildSpecError::Toml(TomlError::Syntax(error))),
    }
}

} // verus!
