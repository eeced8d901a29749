//! Deterministic parse and validation rules for Scarab's TOML configuration:
//! whole-document/global configuration, `[files]`, `[albums.<handle>]`,
//! `[[album_rules]]`, and `[[track_rules]]`.

use std::path::{Path, PathBuf};

use scarab::{
    parse, Album, AlbumRule, Codec, EncodingProfile, Files, InvalidLibraryBuildSpec,
    LibraryBuildSpec, LibraryBuildSpecError, SizeMode, TrackAction, TrackRule, TrackRuleGroup,
    TrackTarget,
};

/// Valid top-level keys followed by one declared album. Top-level keys must
/// precede tables in TOML, so tests append only tables to this prefix.
const PREFIX: &str =
    "codec = \"opus\"\nbitrate = 128\n[albums.aenima]\nname = \"Ænima\"\nartist = \"Tool\"\n";

fn prefixed(body: &str) -> String {
    format!("{PREFIX}{body}")
}

fn valid(text: &str) -> LibraryBuildSpec {
    match parse(text) {
        Ok(config) => config,
        Err(error) => panic!("expected valid configuration, got: {error:?}"),
    }
}

fn invalid(text: &str) -> InvalidLibraryBuildSpec {
    match parse(text) {
        Err(LibraryBuildSpecError::Invalid(error)) => error,
        Err(LibraryBuildSpecError::Toml(error)) => {
            panic!("expected validation error, got TOML error: {error:?}")
        }
        Ok(config) => panic!("expected validation error, got: {config:?}"),
    }
}

fn rejects_toml(text: &str) {
    match parse(text) {
        Err(LibraryBuildSpecError::Toml(_)) => {}
        Err(other) => panic!("expected TOML error, got: {other:?}"),
        Ok(config) => panic!("expected TOML error, got: {config:?}"),
    }
}

/// One standalone album declaration on top of the minimal global config.
fn album_config(handle: &str, body: &str) -> String {
    format!("codec = \"opus\"\nbitrate = 128\n[albums.{handle}]\n{body}")
}

fn album_directories(config: &LibraryBuildSpec, handle: &str) -> Vec<PathBuf> {
    config.albums()[handle]
        .directories
        .clone()
        .expect("album should have a filesystem scope")
}

fn track_rule(entry: &str) -> String {
    prefixed(&format!(
        "[[track_rules]]\nalbum = \"aenima\"\nrules = [{{ {entry} }}]\n"
    ))
}

fn track_rule_error(entry: &str) -> InvalidLibraryBuildSpec {
    invalid(&track_rule(entry))
}


// global.rs

const ACCEPTED_EXAMPLE: &str = r#"codec = "opus"
encoding_profile = "music"
target_size = "20 GiB"

[files]
album_art = true
include = ["lrc"]

[albums.lateralus]
name = "Lateralus"
artist = "Tool"

[albums.ten_thousand_days]
name = "10,000 Days"
artist = "Tool"

[[album_rules]]
albums = ["lateralus", "ten_thousand_days"]
bitrate = 160

[[track_rules]]
album = "lateralus"
rules = [
    { track = "Faaip de Oiad", exclude = true },
    { tracks = ["Parabol", "Parabola"], bitrate = 192 },
]
"#;

#[test]
fn parses_accepted_toml_example() {
    let config = valid(ACCEPTED_EXAMPLE);

    assert_eq!(config.codec(), Codec::Opus);
    assert_eq!(config.encoding_profile(), EncodingProfile::Music);
    assert_eq!(*config.size_mode(), SizeMode::TargetSize("20 GiB".into()));
    assert_eq!(config.files().album_art, Some(true));
    assert_eq!(config.files().included, Some(vec!["lrc".to_string()]));
    assert_eq!(config.files().exclude, None);
    assert_eq!(
        config.albums()["lateralus"],
        Album {
            name: Some("Lateralus".into()),
            artist: Some("Tool".into()),
            directories: None,
        }
    );
    assert_eq!(
        config.albums()["ten_thousand_days"],
        Album {
            name: Some("10,000 Days".into()),
            artist: Some("Tool".into()),
            directories: None,
        }
    );
    assert_eq!(
        config.album_rules(),
        vec![AlbumRule {
            album_handles: vec!["lateralus".into(), "ten_thousand_days".into()],
            bitrate: 160,
        }]
    );
    assert_eq!(
        config.track_rules(),
        vec![TrackRuleGroup {
            album_handle: "lateralus".into(),
            rules: vec![
                TrackRule {
                    target: TrackTarget::Track("Faaip de Oiad".into()),
                    action: TrackAction::Exclude,
                },
                TrackRule {
                    target: TrackTarget::Tracks(vec!["Parabol".into(), "Parabola".into()]),
                    action: TrackAction::Bitrate(192),
                },
            ],
        }]
    );
}

#[test]
fn minimal_config_defaults_to_music_profile() {
    let config = valid(&prefixed(""));

    assert_eq!(config.codec(), Codec::Opus);
    assert_eq!(config.encoding_profile(), EncodingProfile::Music);
    assert_eq!(*config.size_mode(), SizeMode::Bitrate(128));
    assert_eq!(*config.files(), Files::default());
    assert_eq!(
        config.albums()["aenima"],
        Album {
            name: Some("Ænima".into()),
            artist: Some("Tool".into()),
            directories: None,
        }
    );
    assert!(config.album_rules().is_empty());
    assert!(config.track_rules().is_empty());
}

#[test]
fn encoding_profile_none_is_valid() {
    let text = "codec = \"opus\"\nbitrate = 128\nencoding_profile = \"none\"\n";
    assert_eq!(valid(text).encoding_profile(), EncodingProfile::NoProfile);
}

#[test]
fn target_size_is_preserved_verbatim() {
    let text = "codec = \"opus\"\ntarget_size = \"1.5 GiB\"\n";
    assert_eq!(
        *valid(text).size_mode(),
        SizeMode::TargetSize("1.5 GiB".into())
    );
}

#[test]
fn rejects_missing_or_unsupported_values() {
    rejects_toml("codec = \"flac\"\nbitrate = 128\n");
    rejects_toml("bitrate = 128\n");
    rejects_toml("codec = \"opus\"\nbitrate = 128\nencoding_profile = \"podcast\"\n");
}

#[test]
fn rejects_unknown_keys_at_every_boundary() {
    // top-level config
    rejects_toml("codec = \"opus\"\nbitrate = 128\nbogus = true\n");
    // [files]
    rejects_toml("codec = \"opus\"\nbitrate = 128\n[files]\nbogus = true\n");
    // [albums.<handle>]
    rejects_toml(
        "codec = \"opus\"\nbitrate = 128\n[albums.aenima]\nname = \"Ænima\"\nartist = \"Tool\"\nyear = 1996\n",
    );
    // [[album_rules]]
    rejects_toml(&prefixed(
        "[[album_rules]]\nalbums = [\"aenima\"]\nbitrate = 96\nbogus = true\n",
    ));
    // [[track_rules]]
    rejects_toml(&prefixed(
        "[[track_rules]]\nalbum = \"aenima\"\nrules = [{ track = \"Stinkfist\", bitrate = 64 }]\nbogus = true\n",
    ));
    // nested track-rule entry
    rejects_toml(&prefixed(
        "[[track_rules]]\nalbum = \"aenima\"\nrules = [{ track = \"Stinkfist\", bitrate = 64, bogus = true }]\n",
    ));
}

#[test]
fn requires_exactly_one_global_size_mode() {
    assert_eq!(
        invalid("codec = \"opus\"\n"),
        InvalidLibraryBuildSpec::MissingSizeMode
    );
    assert_eq!(
        invalid("codec = \"opus\"\nbitrate = 128\ntarget_size = \"1G\"\n"),
        InvalidLibraryBuildSpec::ConflictingSizeMode
    );
}


// files.rs

#[test]
fn parses_files_selection() {
    let included = "codec = \"opus\"\nbitrate = 128\n[files]\nalbum_art = true\ninclude = [\"jpg\", \"png\"]\n";
    let config = valid(included);
    let files = config.files();

    assert_eq!(files.album_art, Some(true));
    assert_eq!(
        files.included,
        Some(vec!["jpg".to_string(), "png".to_string()])
    );
    assert_eq!(files.exclude, None);

    let excluded = "codec = \"opus\"\nbitrate = 128\n[files]\nexclude = [\"cue\"]\n";
    let config = valid(excluded);
    let files = config.files();

    assert_eq!(files.album_art, None);
    assert_eq!(files.included, None);
    assert_eq!(files.exclude, Some(vec!["cue".to_string()]));
}

#[test]
fn parses_files_include_and_exclude_together() {
    let text = "codec = \"opus\"\nbitrate = 128\n[files]\ninclude = [\"jpg\", \"png\"]\nexclude = [\"cue\"]\n";
    let config = valid(text);
    let files = config.files();

    assert_eq!(
        files.included,
        Some(vec!["jpg".to_string(), "png".to_string()])
    );
    assert_eq!(files.exclude, Some(vec!["cue".to_string()]));
}


// albums.rs

#[test]
fn album_declaration_order_is_preserved() {
    // Declared out of alphabetical order: z before a
    let text =
        "codec = \"opus\"\nbitrate = 128\n[albums.z]\nname = \"Z\"\n[albums.a]\nname = \"A\"\n";
    let config = valid(text);

    let handles: Vec<&str> = config.albums().keys().map(String::as_str).collect();
    assert_eq!(handles, ["z", "a"]);
}

#[test]
fn invalid_albums_are_reported_in_declaration_order() {
    // Both albums are independently malformed.
    // z is declared first but sorts last,
    // so declaration order must select its error.
    let text = "codec = \"opus\"\nbitrate = 128\n[albums.z]\n[albums.a]\ndirectory = \"\"\n";
    assert_eq!(
        invalid(text),
        InvalidLibraryBuildSpec::MissingAlbumSelector {
            album_handle: "z".into()
        }
    );
}

#[test]
fn later_album_additions_retain_first_introduction_position() {
    // Dotted declarations keep z first and `a` second even though z is
    // given a name after `a` is introduced.
    let text = "codec = \"opus\"\nbitrate = 128\n\
                albums.z.directory = \"z\"\n\
                albums.a.directory = \"a\"\n\
                albums.z.name = \"Z\"\n";
    let config = valid(text);

    let handles: Vec<&str> = config.albums().keys().map(String::as_str).collect();
    assert_eq!(handles, ["z", "a"]);
    assert_eq!(config.albums()["z"].name.as_deref(), Some("Z"));
}

#[test]
fn album_rule_references_do_not_establish_album_order() {
    // The rule references `a` before its declaration, album iteration still
    // follows the declaration order of z then a.
    let text = "codec = \"opus\"\nbitrate = 128\n\
                [[album_rules]]\nalbums = [\"a\"]\nbitrate = 96\n\
                [albums.z]\nname = \"Z\"\n\
                [albums.a]\nname = \"A\"\n";
    let config = valid(text);

    let handles: Vec<&str> = config.albums().keys().map(String::as_str).collect();
    assert_eq!(handles, ["z", "a"]);
}

#[test]
fn parses_optional_metadata_selectors() {
    let name_only = valid(&album_config("name_only", "name = \"Ænima\"\n"));
    assert_eq!(
        name_only.albums()["name_only"],
        Album {
            name: Some("Ænima".into()),
            artist: None,
            directories: None,
        }
    );

    let artist_only = valid(&album_config("artist_only", "artist = \"Tool\"\n"));
    assert_eq!(
        artist_only.albums()["artist_only"],
        Album {
            name: None,
            artist: Some("Tool".into()),
            directories: None,
        }
    );

    let empty_name = valid(&album_config("empty_name", "name = \"\"\n"));
    assert_eq!(
        empty_name.albums()["empty_name"],
        Album {
            name: Some(String::new()),
            artist: None,
            directories: None,
        }
    );

    let empty_artist = valid(&album_config("empty_artist", "artist = \"\"\n"));
    assert_eq!(
        empty_artist.albums()["empty_artist"],
        Album {
            name: None,
            artist: Some(String::new()),
            directories: None,
        }
    );
}

#[test]
fn album_metadata_values_are_preserved_exactly() {
    let whitespace = valid(&album_config("blank", "name = \"   \"\n"));
    assert_eq!(whitespace.albums()["blank"].name.as_deref(), Some("   "));

    let with_artist = valid(&album_config("blank", "name = \"\"\nartist = \"  \"\n"));
    assert_eq!(
        with_artist.albums()["blank"],
        Album {
            name: Some(String::new()),
            artist: Some("  ".into()),
            directories: None,
        }
    );

    let with_directory = valid(&album_config(
        "blank",
        "name = \"\"\ndirectory = \"Undertow\"\n",
    ));
    assert_eq!(
        with_directory.albums()["blank"],
        Album {
            name: Some(String::new()),
            artist: None,
            directories: Some(vec![PathBuf::from("Undertow")]),
        }
    );
}

#[test]
fn parses_filesystem_only_albums() {
    let singular = valid(&album_config("fs_only", "directory = \"Undertow\"\n"));
    assert_eq!(
        singular.albums()["fs_only"],
        Album {
            name: None,
            artist: None,
            directories: Some(vec![PathBuf::from("Undertow")]),
        }
    );

    let plural = valid(&album_config(
        "fs_only",
        "directories = [\"Disc 1\", \"Disc 2\"]\n",
    ));
    assert_eq!(
        plural.albums()["fs_only"],
        Album {
            name: None,
            artist: None,
            directories: Some(vec![PathBuf::from("Disc 1"), PathBuf::from("Disc 2")]),
        }
    );
}

#[test]
fn parses_metadata_with_filesystem_selectors() {
    let config = valid(&album_config(
        "mixed",
        "name = \"Lateralus\"\nartist = \"Tool\"\ndirectories = [\"Disc 1\", \"Disc 2\"]\n",
    ));
    assert_eq!(
        config.albums()["mixed"],
        Album {
            name: Some("Lateralus".into()),
            artist: Some("Tool".into()),
            directories: Some(vec![PathBuf::from("Disc 1"), PathBuf::from("Disc 2")]),
        }
    );
}

#[test]
fn singular_and_one_element_plural_forms_are_equivalent() {
    let singular = valid(&album_config("undertow", "directory = \"Undertow\"\n"));
    let plural = valid(&album_config("undertow", "directories = [\"Undertow\"]\n"));

    assert_eq!(singular, plural);
    assert_eq!(
        singular.albums()["undertow"],
        Album {
            name: None,
            artist: None,
            directories: Some(vec![PathBuf::from("Undertow")]),
        }
    );
}

#[test]
fn accepts_structurally_varied_album_paths() {
    let explicit_root = valid(&album_config("root", "directory = \".\"\n"));
    assert_eq!(
        album_directories(&explicit_root, "root"),
        vec![PathBuf::from(".")]
    );

    let parent_relative = valid(&album_config("up", "directory = \"../elsewhere\"\n"));
    assert_eq!(
        album_directories(&parent_relative, "up"),
        vec![PathBuf::from("../elsewhere")]
    );

    let inner_relative = valid(&album_config(
        "inner",
        "directories = [\"a/../a\", \"b/../c\"]\n",
    ));
    assert_eq!(
        album_directories(&inner_relative, "inner"),
        vec![PathBuf::from("a/../a"), PathBuf::from("b/../c")]
    );

    let absolute = "/music/lateralus";

    // Lexical check only, no filesystem access
    assert!(Path::new(absolute).is_absolute());

    // Encoded as a TOML literal string so a configured backslash survives
    // document encoding unchanged
    let host_absolute = valid(&album_config(
        "absolute",
        &format!("directory = '{absolute}'\n"),
    ));
    let directories = album_directories(&host_absolute, "absolute");
    assert_eq!(directories.len(), 1);
    assert_eq!(directories[0].to_str(), Some(absolute));

    let whitespace = valid(&album_config("spaced", "directory = \"   \"\n"));
    assert_eq!(
        album_directories(&whitespace, "spaced"),
        vec![PathBuf::from("   ")]
    );
}

#[test]
fn preserves_album_filesystem_paths_verbatim() {
    // The last entry is a TOML literal string holding a backslash, kept as
    // an opaque configured string with no absoluteness claim
    let text = album_config(
        "paths",
        "directories = [\"b\", \"a\", \"b\", \"a/../a\", \"\\u00C6nima\", 'a\\b']\n",
    );
    let directories = album_directories(&valid(&text), "paths");

    let expected = ["b", "a", "b", "a/../a", "Ænima", "a\\b"];
    assert_eq!(directories.len(), expected.len());
    for (path, expected) in directories.iter().zip(expected) {
        assert_eq!(path.to_str(), Some(expected));
    }
}

#[test]
fn album_without_any_selector_is_invalid() {
    let text = album_config("bare", "");
    assert_eq!(
        invalid(&text),
        InvalidLibraryBuildSpec::MissingAlbumSelector {
            album_handle: "bare".into()
        }
    );
}

#[test]
fn album_rejects_both_filesystem_forms() {
    let both = album_config("both", "directory = \"A\"\ndirectories = [\"B\"]\n");
    assert_eq!(
        invalid(&both),
        InvalidLibraryBuildSpec::ConflictingAlbumPaths {
            album_handle: "both".into()
        }
    );

    // Combined structural failures are rejected without freezing which
    // error is reported first
    let both_with_empty = album_config("both", "directory = \"\"\ndirectories = []\n");
    assert!(matches!(
        parse(&both_with_empty),
        Err(LibraryBuildSpecError::Invalid(_))
    ));
}

#[test]
fn album_requires_nonempty_directories_list() {
    let bare_list = album_config("empty_list", "directories = []\n");
    assert_eq!(
        invalid(&bare_list),
        InvalidLibraryBuildSpec::EmptyAlbumDirectories {
            album_handle: "empty_list".into()
        }
    );

    let list_with_metadata = album_config("empty_list", "name = \"\"\ndirectories = []\n");
    assert_eq!(
        invalid(&list_with_metadata),
        InvalidLibraryBuildSpec::EmptyAlbumDirectories {
            album_handle: "empty_list".into()
        }
    );
}

#[test]
fn album_requires_nonempty_directory_path() {
    let bare_path = album_config("empty_path", "directory = \"\"\n");
    assert_eq!(
        invalid(&bare_path),
        InvalidLibraryBuildSpec::EmptyAlbumDirectory {
            album_handle: "empty_path".into()
        }
    );

    let path_with_metadata = album_config("empty_path", "artist = \"\"\ndirectory = \"\"\n");
    assert_eq!(
        invalid(&path_with_metadata),
        InvalidLibraryBuildSpec::EmptyAlbumDirectory {
            album_handle: "empty_path".into()
        }
    );
}

#[test]
fn album_rejects_empty_directories_entry() {
    let first = album_config("entries", "directories = [\"\", \"ok\"]\n");
    assert_eq!(
        invalid(&first),
        InvalidLibraryBuildSpec::EmptyAlbumDirectoriesEntry {
            album_handle: "entries".into(),
            index: 0,
        }
    );

    let later = album_config("entries", "directories = [\"ok\", \"\", \"ok\"]\n");
    assert_eq!(
        invalid(&later),
        InvalidLibraryBuildSpec::EmptyAlbumDirectoriesEntry {
            album_handle: "entries".into(),
            index: 1,
        }
    );
}

#[test]
fn rejects_incorrect_album_field_types() {
    rejects_toml(&album_config("typed", "name = true\n"));
    rejects_toml(&album_config("typed", "artist = 2001\n"));
    rejects_toml(&album_config("typed", "directory = 5\n"));
    rejects_toml(&album_config("typed", "directories = \"Disc 1\"\n"));
    rejects_toml(&album_config("typed", "directories = [\"a\", 2]\n"));
    rejects_toml(&album_config("typed", "directories = [true]\n"));
}


// album_rules.rs

#[test]
fn parses_album_rule_with_one_album() {
    let config = valid(&prefixed(
        "[[album_rules]]\nalbums = [\"aenima\"]\nbitrate = 96\n",
    ));
    assert_eq!(
        config.album_rules(),
        &[AlbumRule {
            album_handles: vec!["aenima".into()],
            bitrate: 96,
        }]
    );
}

#[test]
fn album_rule_applies_to_every_listed_album() {
    let text = "codec = \"opus\"\nbitrate = 128\n[albums.aenima]\nname = \"Ænima\"\nartist = \"Tool\"\n[albums.lateralus]\nname = \"Lateralus\"\nartist = \"Tool\"\n[[album_rules]]\nalbums = [\"aenima\", \"lateralus\"]\nbitrate = 96\n";
    assert_eq!(
        valid(text).album_rules(),
        &[AlbumRule {
            album_handles: vec!["aenima".into(), "lateralus".into()],
            bitrate: 96,
        }]
    );
}

#[test]
fn album_rule_rejects_singular_album_alias() {
    rejects_toml(&prefixed(
        "[[album_rules]]\nalbum = \"aenima\"\nbitrate = 96\n",
    ));
    rejects_toml(&prefixed(
        "[[album_rules]]\nalbums = [\"aenima\"]\nalbum = \"aenima\"\nbitrate = 96\n",
    ));
}

#[test]
fn album_rule_requires_a_non_empty_album_list() {
    let text = prefixed("[[album_rules]]\nalbums = []\nbitrate = 96\n");
    assert_eq!(invalid(&text), InvalidLibraryBuildSpec::EmptyAlbums);
}

#[test]
fn album_rule_rejects_duplicate_handles_across_rules() {
    let first_then_second = prefixed(
        "[[album_rules]]\nalbums = [\"aenima\"]\nbitrate = 96\n[[album_rules]]\nalbums = [\"aenima\"]\nbitrate = 64\n",
    );
    let second_then_first = prefixed(
        "[[album_rules]]\nalbums = [\"aenima\"]\nbitrate = 64\n[[album_rules]]\nalbums = [\"aenima\"]\nbitrate = 96\n",
    );

    for text in [&first_then_second, &second_then_first] {
        assert_eq!(
            invalid(text),
            InvalidLibraryBuildSpec::DuplicateAlbumRule {
                album_handle: "aenima".into()
            }
        );
    }

    let partial_overlap = "codec = \"opus\"\nbitrate = 128\n[albums.aenima]\nname = \"Ænima\"\nartist = \"Tool\"\n[albums.lateralus]\nname = \"Lateralus\"\nartist = \"Tool\"\n[[album_rules]]\nalbums = [\"aenima\", \"lateralus\"]\nbitrate = 96\n[[album_rules]]\nalbums = [\"lateralus\"]\nbitrate = 64\n";
    assert_eq!(
        invalid(partial_overlap),
        InvalidLibraryBuildSpec::DuplicateAlbumRule {
            album_handle: "lateralus".into()
        }
    );
}

#[test]
fn album_rule_rejects_duplicate_handles_within_one_rule() {
    let text = prefixed("[[album_rules]]\nalbums = [\"aenima\", \"aenima\"]\nbitrate = 96\n");
    assert_eq!(
        invalid(&text),
        InvalidLibraryBuildSpec::DuplicateAlbumRule {
            album_handle: "aenima".into()
        }
    );
}

#[test]
fn album_rule_rejects_undeclared_album_handle() {
    let album_rule =
        "codec = \"opus\"\nbitrate = 128\n[[album_rules]]\nalbums = [\"missing\"]\nbitrate = 96\n";
    assert_eq!(
        invalid(album_rule),
        InvalidLibraryBuildSpec::UnknownAlbum {
            album_handle: "missing".into()
        }
    );
}

#[test]
fn album_rule_can_reference_filesystem_only_album() {
    let text = album_config("fs_only", "directory = \"Undertow\"\n")
        + "[[album_rules]]\nalbums = [\"fs_only\"]\nbitrate = 96\n";

    let config = valid(&text);
    assert_eq!(
        config.albums()["fs_only"],
        Album {
            name: None,
            artist: None,
            directories: Some(vec![PathBuf::from("Undertow")]),
        }
    );
    assert_eq!(
        config.album_rules(),
        &[AlbumRule {
            album_handles: vec!["fs_only".into()],
            bitrate: 96,
        }]
    );
}


// track_rules.rs

#[test]
fn parses_track_rules() {
    let text = prefixed(
        "[[track_rules]]\nalbum = \"aenima\"\nrules = [{ track = \"Stinkfist\", exclude = true }, { tracks = [\"Eulogy\", \"H.\"], bitrate = 64 }]\n",
    );
    assert_eq!(
        valid(&text).track_rules(),
        vec![TrackRuleGroup {
            album_handle: "aenima".into(),
            rules: vec![
                TrackRule {
                    target: TrackTarget::Track("Stinkfist".into()),
                    action: TrackAction::Exclude,
                },
                TrackRule {
                    target: TrackTarget::Tracks(vec!["Eulogy".into(), "H.".into()]),
                    action: TrackAction::Bitrate(64),
                },
            ],
        }]
    );
}

#[test]
fn same_track_name_is_allowed_in_different_albums() {
    let text = "codec = \"opus\"\nbitrate = 128\n[albums.aenima]\nname = \"Ænima\"\nartist = \"Tool\"\n[albums.salival]\nname = \"Salival\"\nartist = \"Tool\"\n[[track_rules]]\nalbum = \"aenima\"\nrules = [{ track = \"Pushit\", bitrate = 64 }]\n[[track_rules]]\nalbum = \"salival\"\nrules = [{ track = \"Pushit\", bitrate = 64 }]\n";
    assert_eq!(valid(text).track_rules().len(), 2);
}

#[test]
fn track_entries_require_exactly_one_target() {
    for entry in [
        "track = \"Stinkfist\", tracks = [\"Eulogy\"], bitrate = 64",
        "bitrate = 64",
    ] {
        assert_eq!(
            track_rule_error(entry),
            InvalidLibraryBuildSpec::TrackTargetNotExclusive {
                album_handle: "aenima".into()
            }
        );
    }
    assert_eq!(
        track_rule_error("tracks = [], bitrate = 64"),
        InvalidLibraryBuildSpec::EmptyTracks {
            album_handle: "aenima".into()
        }
    );
}

#[test]
fn track_entries_require_exactly_one_action() {
    for entry in [
        "track = \"Stinkfist\"",
        "track = \"Stinkfist\", exclude = true, bitrate = 64",
        "track = \"Stinkfist\", exclude = false",
        "track = \"Stinkfist\", exclude = false, bitrate = 64",
    ] {
        assert_eq!(
            track_rule_error(entry),
            InvalidLibraryBuildSpec::TrackActionNotExclusive {
                album_handle: "aenima".into()
            }
        );
    }
}

#[test]
fn track_rule_group_requires_at_least_one_rule() {
    let omitted = prefixed("[[track_rules]]\nalbum = \"aenima\"\n");
    let empty = prefixed("[[track_rules]]\nalbum = \"aenima\"\nrules = []\n");

    for text in [&omitted, &empty] {
        assert_eq!(
            invalid(text),
            InvalidLibraryBuildSpec::EmptyTrackRules {
                album_handle: "aenima".into()
            }
        );
    }
}

#[test]
fn track_cannot_receive_two_rules() {
    let within_group = "[[track_rules]]\nalbum = \"aenima\"\nrules = [{ track = \"Swamp Song\", bitrate = 64 }, { track = \"Swamp Song\", exclude = true }]\n";
    let within_group_reversed = "[[track_rules]]\nalbum = \"aenima\"\nrules = [{ track = \"Swamp Song\", exclude = true }, { track = \"Swamp Song\", bitrate = 64 }]\n";
    let across_groups = "[[track_rules]]\nalbum = \"aenima\"\nrules = [{ track = \"Swamp Song\", bitrate = 64 }]\n[[track_rules]]\nalbum = \"aenima\"\nrules = [{ track = \"Swamp Song\", exclude = true }]\n";
    let through_tracks_list = "[[track_rules]]\nalbum = \"aenima\"\nrules = [{ tracks = [\"Swamp Song\", \"Eulogy\"], bitrate = 64 }, { track = \"Swamp Song\", exclude = true }]\n";
    let within_tracks_list = "[[track_rules]]\nalbum = \"aenima\"\nrules = [{ tracks = [\"Swamp Song\", \"Swamp Song\"], bitrate = 64 }]\n";

    for body in [
        within_group,
        within_group_reversed,
        across_groups,
        through_tracks_list,
        within_tracks_list,
    ] {
        assert_eq!(
            invalid(&prefixed(body)),
            InvalidLibraryBuildSpec::DuplicateTrackRule {
                album_handle: "aenima".into(),
                track_name: "Swamp Song".into()
            }
        );
    }
}

#[test]
fn track_rule_group_rejects_undeclared_album_handle() {
    let track_rule = "codec = \"opus\"\nbitrate = 128\n[[track_rules]]\nalbum = \"missing\"\nrules = [{ track = \"Stinkfist\", exclude = true }]\n";
    assert_eq!(
        invalid(track_rule),
        InvalidLibraryBuildSpec::UnknownAlbum {
            album_handle: "missing".into()
        }
    );
}

#[test]
fn track_rule_group_can_reference_filesystem_only_album() {
    let text = "codec = \"opus\"\nbitrate = 128\n[albums.fs_only]\ndirectory = \"Undertow\"\n[[track_rules]]\nalbum = \"fs_only\"\nrules = [{ track = \"Intolerance\", exclude = true }]\n";

    let config = valid(text);
    assert_eq!(
        config.track_rules(),
        vec![TrackRuleGroup {
            album_handle: "fs_only".into(),
            rules: vec![TrackRule {
                target: TrackTarget::Track("Intolerance".into()),
                action: TrackAction::Exclude,
            }],
        }]
    );
}

#[test]
fn inline_and_nested_track_rules_deserialize_identically() {
    let inline = prefixed(
        "[[track_rules]]\nalbum = \"aenima\"\nrules = [{ track = \"Stinkfist\", exclude = true }, { tracks = [\"Eulogy\", \"H.\"], bitrate = 64 }]\n",
    );
    let nested = prefixed(
        "[[track_rules]]\nalbum = \"aenima\"\n[[track_rules.rules]]\ntrack = \"Stinkfist\"\nexclude = true\n[[track_rules.rules]]\ntracks = [\"Eulogy\", \"H.\"]\nbitrate = 64\n",
    );

    assert_eq!(valid(&inline), valid(&nested));
}
