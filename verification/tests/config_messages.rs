//! The sentences that describe configuration failures.

use scarab::{parse, LibraryBuildSpecError, SchemaMismatch, TomlError};

fn error_of(text: &str) -> LibraryBuildSpecError {
    match parse(text) {
        Err(error) => error,
        Ok(config) => panic!("expected an error, got: {config:?}"),
    }
}

#[test]
fn unknown_key_is_named_in_the_message() {
    let error = error_of("codec = \"opus\"\nbitrate = 128\ncolour = \"blue\"\n");
    match &error {
        LibraryBuildSpecError::Toml(TomlError::Schema(SchemaMismatch::UnknownField { field })) => {
            assert_eq!(field, "colour");
        }
        other => panic!("expected an unknown field, got: {other:?}"),
    }
    assert_eq!(
        error.message(),
        "invalid TOML configuration: unknown field `colour`"
    );
}

#[test]
fn missing_codec_is_named_in_the_message() {
    let error = error_of("bitrate = 128\n");
    assert_eq!(error.message(), "invalid TOML configuration: missing field `codec`");
}

#[test]
fn syntax_errors_share_the_toml_prefix() {
    let error = error_of("codec = \n");
    assert!(matches!(error, LibraryBuildSpecError::Toml(TomlError::Syntax(_))));
    assert!(error
        .message()
        .starts_with("invalid TOML configuration: "));
}

#[test]
fn rule_violations_read_as_their_rule() {
    let error = error_of("codec = \"opus\"\n");
    assert_eq!(
        error.message(),
        "exactly one of bitrate or target_size must be set"
    );
}
