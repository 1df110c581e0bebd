use tome_catalog::artwork::get_artwork;
use tome_catalog::extract::build_track;
use tome_catalog::extract::none_if_empty;
use tome_catalog::extract::RawTag;
use tome_catalog::genres::process_genre;
use tome_catalog::identity::album_id;
use tome_catalog::identity::track_id;
use tome_catalog::paths::base_name;
use tome_catalog::paths::extension;
use tome_catalog::paths::join_dir;
use tome_catalog::scan::is_audio_path;
use tome_catalog::scan::is_hidden;

fn raw_tag() -> RawTag {
    RawTag {
        title: None,
        artist: None,
        album_artist: None,
        album: None,
        genre: None,
        track_number: None,
        cd_number: None,
        year: None,
    }
}

#[test]
fn genre_codes_resolve_against_the_standard_table() {
    assert_eq!(process_genre("Pop(13)"), "Pop");
    assert_eq!(process_genre("(0)"), "Blues");
    assert_eq!(process_genre("(17)"), "Rock");
    assert_eq!(process_genre("(+13)"), "Pop");
}

#[test]
fn malformed_genre_codes_are_kept_verbatim() {
    assert_eq!(process_genre("Pop(abc)"), "Pop(abc)");
    assert_eq!(process_genre("Pop"), "Pop");
    assert_eq!(process_genre("Pop()"), "Pop()");
    assert_eq!(process_genre("(999)"), "(999)"); // past the table's end
    assert_eq!(process_genre("Synthwave"), "Synthwave");
}

#[test]
fn track_ids_are_path_digests() {
    // RFC 1321 test vector: the digest of "abc"
    assert_eq!(track_id("abc"), "900150983cd24fb0d6963f7d28e17f72");
    assert_eq!(track_id("abc").len(), 32);
    // the album key is "<artist> - <album>"
    assert_eq!(album_id("A", "B"), track_id("A - B"));
    assert_ne!(album_id("A", "B"), album_id("A", "C"));
}

#[test]
fn scan_filters_by_extension_case_insensitively() {
    assert!(is_audio_path("music/song.mp3"));
    assert!(is_audio_path("music/SONG.MP3"));
    assert!(is_audio_path("music/a.FlAc"));
    assert!(is_audio_path("x.ogg"));
    assert!(!is_audio_path("music/cover.jpg"));
    assert!(!is_audio_path("music/noext"));
    assert!(!is_audio_path(".mp3")); // a bare hidden name has no extension
    assert!(is_hidden(".git"));
    assert!(!is_hidden("music"));
    assert!(!is_hidden(""));
}

#[test]
fn path_helpers_split_names_and_extensions() {
    assert_eq!(base_name("a/b/c.mp3"), "c.mp3");
    assert_eq!(base_name("c.mp3"), "c.mp3");
    assert_eq!(base_name("a/b/"), "");
    assert_eq!(extension("a/b.tar.gz").as_deref(), Some("gz"));
    assert_eq!(extension("a/b").as_deref(), None);
    assert_eq!(extension("a.b/c").as_deref(), None);
    assert_eq!(join_dir("music/song.mp3", "cover.jpg"), "music/cover.jpg");
    assert_eq!(join_dir("song.mp3", "cover.jpg"), "cover.jpg");
}

#[test]
fn empty_tag_fields_count_as_absent() {
    assert_eq!(none_if_empty(String::new()), None);
    assert_eq!(none_if_empty("x".to_string()), Some("x".to_string()));
}

#[test]
fn tagged_tracks_take_their_fields_from_the_tag() {
    let mut tag = raw_tag();
    tag.title = Some("Song".to_string());
    tag.artist = Some("Singer".to_string());
    tag.album_artist = Some("Band".to_string());
    tag.album = Some("LP".to_string());
    tag.genre = Some("Pop(13)".to_string());
    tag.year = Some(1999);
    let t = build_track(
        "id1".to_string(),
        "m/song.mp3".to_string(),
        Some(tag),
        180,
        None,
    );
    assert_eq!(t.metadata.title, "Song");
    // the album artist is the effective artist; the differing per-track
    // artist is kept alongside
    assert_eq!(t.metadata.artist, "Band");
    assert_eq!(t.metadata.song_artist.as_deref(), Some("Singer"));
    assert_eq!(t.metadata.album, "LP");
    assert_eq!(t.metadata.genre.as_deref(), Some("Pop"));
    assert_eq!(t.metadata.year, Some(1999));
    assert_eq!(t.duration, 180);
}

#[test]
fn matching_artists_leave_the_song_artist_unset() {
    let mut tag = raw_tag();
    tag.artist = Some("Band".to_string());
    tag.album_artist = Some("Band".to_string());
    let t = build_track(
        "id1".to_string(),
        "m/song.mp3".to_string(),
        Some(tag),
        10,
        None,
    );
    assert_eq!(t.metadata.artist, "Band");
    assert_eq!(t.metadata.song_artist, None);
}

#[test]
fn a_track_artist_alone_becomes_the_effective_artist() {
    let mut tag = raw_tag();
    tag.artist = Some("Singer".to_string());
    let t = build_track(
        "id1".to_string(),
        "m/song.mp3".to_string(),
        Some(tag),
        10,
        None,
    );
    assert_eq!(t.metadata.artist, "Singer");
    assert_eq!(t.metadata.song_artist, None);
}

#[test]
fn empty_title_falls_back_to_the_file_name() {
    let mut tag = raw_tag();
    tag.title = Some(String::new());
    let t = build_track(
        "id1".to_string(),
        "m/song.mp3".to_string(),
        Some(tag),
        10,
        None,
    );
    assert_eq!(t.metadata.title, "song.mp3");
}

#[test]
fn untagged_files_get_placeholder_metadata() {
    let t = build_track(
        "id1".to_string(),
        "m/song.mp3".to_string(),
        None,
        10,
        Some("cache/id1".to_string()),
    );
    assert_eq!(t.metadata.title, "song.mp3");
    assert_eq!(t.metadata.artist, "Unknown Artist");
    assert_eq!(t.metadata.album, "Unknown Album");
    assert_eq!(t.metadata.song_artist, None);
    assert_eq!(t.metadata.artwork_path, None); // no tag, no embedded picture
}

#[test]
fn artwork_prefers_cover_files_over_embedded_pictures() {
    let mut tag = raw_tag();
    tag.track_number = Some(1);
    let t = build_track(
        "id1".to_string(),
        "m/song.mp3".to_string(),
        Some(tag),
        10,
        Some("cache/id1".to_string()),
    );
    let siblings = vec![
        "song.mp3".to_string(),
        "folder.jpg".to_string(),
        "cover.png".to_string(),
    ];
    // cover.png wins over folder.jpg, whatever the listing order
    assert_eq!(get_artwork(&t, &siblings).as_deref(), Some("m/cover.png"));
    // with no cover file, track number one falls back to its embedded picture
    assert_eq!(
        get_artwork(&t, &vec!["song.mp3".to_string()]).as_deref(),
        Some("cache/id1")
    );
}

#[test]
fn artwork_fallback_is_only_for_track_number_one() {
    let mut tag = raw_tag();
    tag.track_number = Some(2);
    let t = build_track(
        "id1".to_string(),
        "m/song.mp3".to_string(),
        Some(tag),
        10,
        Some("cache/id1".to_string()),
    );
    assert_eq!(get_artwork(&t, &Vec::new()), None);
}
