//! The description of a probed file.

use std::path::Path;
use std::time::Duration;

use scarab::probe::probed_track;

#[test]
fn probed_track_keeps_the_supplied_path_unchanged() {
    let tags = vec![
        ("ALBUM".to_owned(), "Lateralus".to_owned()),
        ("artist".to_owned(), "Tool".to_owned()),
    ];
    let track = probed_track(
        Path::new("music/./Tool/../Tool/01.flac"),
        tags.clone(),
        Some(Duration::from_nanos(19_000_000_000)),
    );
    assert_eq!(track.path.to_str(), Some("music/./Tool/../Tool/01.flac"));
    assert_eq!(track.tags, tags);
    assert_eq!(track.duration, Some(Duration::from_secs(19)));
}
