use tome_catalog::extract::build_track;
use tome_catalog::extract::RawTag;
use tome_catalog::identity::album_id;
use tome_catalog::identity::track_id;
use tome_catalog::library::update_library;
use tome_catalog::library::ScanItem;
use tome_catalog::models::Metadata;
use tome_catalog::models::StoreError;
use tome_catalog::models::Track;
use tome_catalog::store::Store;

fn plain_track(path: &str, artist: &str, album: &str, title: &str) -> Track {
    Track {
        id: track_id(path),
        path: path.to_string(),
        duration: 100,
        metadata: Metadata {
            title: title.to_string(),
            artist: artist.to_string(),
            song_artist: None,
            album: album.to_string(),
            track_number: None,
            cd_number: None,
            year: None,
            genre: None,
            artwork_path: None,
        },
    }
}

fn scan_item(path: &str, artist: &str, album: &str, title: &str) -> ScanItem {
    ScanItem {
        track: plain_track(path, artist, album, title),
        siblings: Vec::new(),
    }
}

#[test]
fn rescan_is_idempotent() {
    let mut store = Store::new();
    let batch = vec![
        scan_item("m/a1.mp3", "A", "B", "one"),
        scan_item("m/a2.mp3", "A", "B", "two"),
        scan_item("m/b1.mp3", "C", "D", "three"),
    ];
    let added = update_library(&mut store, &batch);
    assert_eq!(added, 3);

    let albums_once: Vec<(String, u32)> = store
        .get_albums()
        .into_iter()
        .map(|a| (a.id, a.track_count))
        .collect();

    let batch_again = vec![
        scan_item("m/a1.mp3", "A", "B", "one"),
        scan_item("m/a2.mp3", "A", "B", "two"),
        scan_item("m/b1.mp3", "C", "D", "three"),
    ];
    let added_again = update_library(&mut store, &batch_again);
    assert_eq!(added_again, 0);

    assert_eq!(store.get_tracks().len(), 3);
    let albums_twice: Vec<(String, u32)> = store
        .get_albums()
        .into_iter()
        .map(|a| (a.id, a.track_count))
        .collect();
    assert_eq!(albums_once, albums_twice);
}

#[test]
fn album_aggregate_matches_track_rows() {
    let mut store = Store::new();
    let batch = vec![
        scan_item("m/a1.mp3", "A", "B", "one"),
        scan_item("m/a2.mp3", "A", "B", "two"),
        scan_item("m/b1.mp3", "C", "D", "three"),
    ];
    update_library(&mut store, &batch);

    for album in store.get_albums() {
        let rows = store.get_tracks_from_album(album.id.clone());
        assert_eq!(album.track_count as usize, rows.len());
        for t in &rows {
            assert_eq!(album_id(&t.metadata.artist, &t.metadata.album), album.id);
        }
    }
    let ab = store.get_album(&album_id("A", "B")).expect("album A - B");
    assert_eq!(ab.track_count, 2);
    assert_eq!(ab.title, "B");
    assert_eq!(ab.artist, "A");
    let cd = store.get_album(&album_id("C", "D")).expect("album C - D");
    assert_eq!(cd.track_count, 1);
}

fn members_in_order(store: &Store, playlist: &str) -> Vec<String> {
    let mut rows: Vec<(usize, String)> = store
        .get_playlist_entries()
        .into_iter()
        .filter(|e| e.playlist == playlist)
        .map(|e| (e.position, e.track_id))
        .collect();
    rows.sort();
    // positions must be exactly 0..n, each exactly once
    for (expect, (position, _)) in rows.iter().enumerate() {
        assert_eq!(*position, expect);
    }
    rows.into_iter().map(|(_, id)| id).collect()
}

#[test]
fn playlist_insert_and_remove_keep_positions_contiguous() {
    let mut store = Store::new();
    store.add_playlist("mix");
    // [X, Y, Z]
    assert_eq!(store.add_track_to_playlist("X", "mix", 0), Ok(0));
    assert_eq!(store.add_track_to_playlist("Y", "mix", 1), Ok(0));
    assert_eq!(store.add_track_to_playlist("Z", "mix", 9), Ok(0)); // past end appends
    assert_eq!(members_in_order(&store, "mix"), vec!["X", "Y", "Z"]);

    // inserting T at 1 shifts Y and Z up
    assert_eq!(store.add_track_to_playlist("T", "mix", 1), Ok(2));
    assert_eq!(members_in_order(&store, "mix"), vec!["X", "T", "Y", "Z"]);

    // removing Y reports its prior position and closes the gap
    assert_eq!(store.remove_track_from_playlist("Y", "mix"), Ok(2));
    assert_eq!(members_in_order(&store, "mix"), vec!["X", "T", "Z"]);
}

#[test]
fn playlist_duplicate_and_missing_rows_fail_cleanly() {
    let mut store = Store::new();
    assert_eq!(store.add_track_to_playlist("X", "mix", 0), Ok(0));
    assert_eq!(
        store.add_track_to_playlist("X", "mix", 0),
        Err(StoreError::Duplicate)
    );
    assert_eq!(
        store.remove_track_from_playlist("Y", "mix"),
        Err(StoreError::NotFound)
    );
    assert_eq!(members_in_order(&store, "mix"), vec!["X"]);
}

#[test]
fn playlists_are_independent() {
    let mut store = Store::new();
    assert_eq!(store.add_track_to_playlist("X", "one", 0), Ok(0));
    assert_eq!(store.add_track_to_playlist("X", "two", 0), Ok(0));
    assert_eq!(store.add_track_to_playlist("Y", "two", 0), Ok(1));
    assert_eq!(members_in_order(&store, "one"), vec!["X"]);
    assert_eq!(members_in_order(&store, "two"), vec!["Y", "X"]);
}

#[test]
fn deleting_tracks_cascades_into_playlists_and_albums() {
    let mut store = Store::new();
    let batch = vec![
        scan_item("m/a1.mp3", "A", "B", "one"),
        scan_item("m/a2.mp3", "A", "B", "two"),
        scan_item("m/b1.mp3", "C", "D", "three"),
    ];
    update_library(&mut store, &batch);
    let id1 = track_id("m/a1.mp3");
    let id2 = track_id("m/a2.mp3");
    let id3 = track_id("m/b1.mp3");
    store.add_track_to_playlist(&id1, "mix", 0).unwrap();
    store.add_track_to_playlist(&id2, "mix", 1).unwrap();
    store.add_track_to_playlist(&id3, "mix", 2).unwrap();
    store.add_track_to_playlist(&id2, "solo", 0).unwrap();

    let deleted = store.delete_tracks(&vec![id2.clone(), id3.clone()]);
    assert_eq!(deleted, 2);

    // the deleted tracks are gone from every playlist, the rest contiguous
    assert_eq!(members_in_order(&store, "mix"), vec![id1.clone()]);
    assert_eq!(members_in_order(&store, "solo"), Vec::<String>::new());

    // track rows and album aggregates follow
    assert_eq!(store.get_tracks().len(), 1);
    let ab = store.get_album(&album_id("A", "B")).expect("album A - B");
    assert_eq!(ab.track_count, 1);
    assert!(store.get_album(&album_id("C", "D")).is_none()); // emptied album dropped
}

#[test]
fn deleting_nothing_is_a_noop() {
    let mut store = Store::new();
    update_library(&mut store, &vec![scan_item("m/a1.mp3", "A", "B", "one")]);
    let deleted = store.delete_tracks(&Vec::new());
    assert_eq!(deleted, 0);
    assert_eq!(store.get_tracks().len(), 1);
    assert_eq!(store.get_albums().len(), 1);
}

#[test]
fn duplicate_track_insert_is_refused() {
    let mut store = Store::new();
    let t = plain_track("m/a1.mp3", "A", "B", "one");
    assert_eq!(store.add_track(t), Ok(1));
    let again = plain_track("m/a1.mp3", "A", "B", "one");
    assert_eq!(store.add_track(again), Err(StoreError::Duplicate));
}

#[test]
fn artist_and_genre_upserts_are_idempotent() {
    let mut store = Store::new();
    let mut t = plain_track("m/a1.mp3", "A", "B", "one");
    t.metadata.genre = Some("Rock".to_string());
    assert_eq!(store.update_artist(&t), 1);
    assert_eq!(store.update_artist(&t), 0);
    assert_eq!(store.update_genre(&t), 1);
    assert_eq!(store.update_genre(&t), 0);
    let names: Vec<String> = store.get_artists().into_iter().map(|a| a.name).collect();
    assert_eq!(names, vec!["A"]);
    let genres: Vec<String> = store.get_genres().into_iter().map(|g| g.name).collect();
    assert_eq!(genres, vec!["Rock"]);
    assert_eq!(store.add_playlist("mix"), 1);
    assert_eq!(store.add_playlist("mix"), 0);
    let lists: Vec<String> = store.get_playlists().into_iter().map(|p| p.title).collect();
    assert_eq!(lists, vec!["mix"]);
}

#[test]
fn scanning_one_tagged_file_with_cover_sibling() {
    // one MP3 with tags {artist: "A", album: "B", track: 1} and a cover.jpg sibling
    let path = "music/song.mp3";
    let tag = RawTag {
        title: Some("Song".to_string()),
        artist: Some("A".to_string()),
        album_artist: None,
        album: Some("B".to_string()),
        genre: None,
        track_number: Some(1),
        cd_number: None,
        year: None,
    };
    let track = build_track(track_id(path), path.to_string(), Some(tag), 180, None);
    let item = ScanItem {
        track,
        siblings: vec!["song.mp3".to_string(), "cover.jpg".to_string()],
    };
    let mut store = Store::new();
    let added = update_library(&mut store, &vec![item]);
    assert_eq!(added, 1);

    let tracks = store.get_tracks();
    assert_eq!(tracks.len(), 1);
    assert_eq!(tracks[0].metadata.artist, "A");
    assert_eq!(tracks[0].metadata.album, "B");
    assert_eq!(tracks[0].metadata.track_number, Some(1));

    let albums = store.get_albums();
    assert_eq!(albums.len(), 1);
    assert_eq!(albums[0].track_count, 1);
    assert_eq!(albums[0].artwork_path.as_deref(), Some("music/cover.jpg"));

    let artists: Vec<String> = store.get_artists().into_iter().map(|a| a.name).collect();
    assert_eq!(artists, vec!["A"]);
}

#[test]
fn album_filters_and_unknown_lookups() {
    let mut store = Store::new();
    let batch = vec![
        scan_item("m/a1.mp3", "A", "B", "one"),
        scan_item("m/b1.mp3", "C", "D", "three"),
    ];
    update_library(&mut store, &batch);

    let of_a: Vec<String> = store
        .get_albums_from_artist("A".to_string())
        .into_iter()
        .map(|a| a.title)
        .collect();
    assert_eq!(of_a, vec!["B"]);
    assert!(store
        .get_albums_from_artist("Nobody".to_string())
        .is_empty());
    assert!(store.get_album("no-such-album").is_none());
    assert!(store
        .get_tracks_from_album("no-such-album".to_string())
        .is_empty());
}
