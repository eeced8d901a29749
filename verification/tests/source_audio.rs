//! Source-audio candidate classification. The classifier operates on a
//! lexical basis, so these tests never touch the filesystem.

use std::path::Path;

use scarab::{classify_source_audio, SourceAudioFormat};

#[test]
fn recognizes_case_insensitive_flac_extensions() {
    for name in ["track.flac", "track.FLAC", "track.FlaC", "track.fLaC"] {
        assert_eq!(
            classify_source_audio(Path::new(name)),
            Some(SourceAudioFormat::Flac),
            "expected {name} to be recognized"
        );
    }
}

#[test]
fn rejects_unsupported_audio_extension() {
    assert_eq!(classify_source_audio(Path::new("track.wav")), None);
    assert_eq!(classify_source_audio(Path::new("track.mp3")), None);
    assert_eq!(classify_source_audio(Path::new("track.aiff")), None);
}

#[test]
fn rejects_non_audio_extensions() {
    assert_eq!(classify_source_audio(Path::new("cover.jpg")), None);
    assert_eq!(classify_source_audio(Path::new("notes.txt")), None);
    assert_eq!(classify_source_audio(Path::new("booklet.pdf")), None);
}

#[test]
fn rejects_appended_extension_suffix() {
    assert_eq!(classify_source_audio(Path::new("track.flac.bak")), None);
    assert_eq!(classify_source_audio(Path::new("take1.flac.orig")), None);
}

#[test]
fn rejects_extensionless_filename() {
    assert_eq!(classify_source_audio(Path::new("extensionless")), None);
}

#[test]
fn rejects_unsupported_child_of_flac_named_directory() {
    assert_eq!(
        classify_source_audio(Path::new("tracks.flac/notes.txt")),
        None
    );
    assert_eq!(classify_source_audio(Path::new("tracks.flac/cover")), None);
}

#[test]
fn rejects_bare_dotfile_flac() {
    assert_eq!(classify_source_audio(Path::new(".flac")), None);
}

#[test]
fn accepts_hidden_dotfile_with_flac_extension() {
    assert_eq!(
        classify_source_audio(Path::new(".hidden.flac")),
        Some(SourceAudioFormat::Flac)
    );
}

#[test]
fn rejects_empty_path() {
    assert_eq!(classify_source_audio(Path::new("")), None);
}

#[test]
fn rejects_trailing_dot_filename() {
    assert_eq!(classify_source_audio(Path::new("track.")), None);
}

#[test]
fn accepts_multidot_filename_with_final_flac_extension() {
    assert_eq!(
        classify_source_audio(Path::new("artist.album.disc1.master.flac")),
        Some(SourceAudioFormat::Flac)
    );
}

/// This test is to pass because probing should flag this file as
/// non-existent later in the pipeline.
#[test]
fn accepts_nonexistent_flac_named_path() {
    assert_eq!(
        classify_source_audio(Path::new("does/not/exist/missing.flac")),
        Some(SourceAudioFormat::Flac)
    );
}

#[test]
fn public_api_recognizes_supported_and_unsupported_candidates() {
    assert_eq!(
        classify_source_audio(Path::new("album/01 - Track.flac")),
        Some(SourceAudioFormat::Flac)
    );
    assert_eq!(
        classify_source_audio(Path::new("album/01 - Track.FLAC")),
        Some(SourceAudioFormat::Flac)
    );
    assert_eq!(
        classify_source_audio(Path::new("album/.hidden.flac")),
        Some(SourceAudioFormat::Flac)
    );
    assert_eq!(classify_source_audio(Path::new("album/cover.jpg")), None);
    assert_eq!(classify_source_audio(Path::new("album/notes.txt")), None);
    assert_eq!(
        classify_source_audio(Path::new("album/track.flac.bak")),
        None
    );
    assert_eq!(classify_source_audio(Path::new("album/.flac")), None);
    assert_eq!(classify_source_audio(Path::new("album/track.")), None);
    assert_eq!(classify_source_audio(Path::new("")), None);
}
