//! The catalog store: artists, albums, genres, tracks and ordered
//! playlists, with the consistency rules the rest of the system relies on.
//!
//! The well-formedness predicate [`Store::wf`] holds after every public
//! operation: names and ids are unique keys; every album's `track_count`
//! equals the number of persisted tracks whose derived album id matches,
//! and every persisted track's album id has its album row; and playlist
//! positions are contiguous ([`wf_entries`]).
//!
//! The album upsert alone leaves the aggregate one short — it counts the
//! track that the accompanying row insert persists — so the two are one
//! transactional unit, [`Store::ingest_track`]; the primitive operations
//! state their exact transitions and keep the key invariants.

use vstd::prelude::*;
use crate::identity::album_id;
use crate::identity::spec_album_id;
use crate::models::clone_opt_string;
use crate::models::contains_string;
use crate::models::Album;
use crate::models::AlbumView;
use crate::models::Artist;
use crate::models::Genre;
use crate::models::Playlist;
use crate::models::StoreError;
use crate::models::Track;
use crate::models::TrackView;
use crate::playlist::count_at_or_above;
use crate::playlist::entries_bounded;
use crate::playlist::entries_distinct;
use crate::playlist::find_entry;
use crate::playlist::insert_entry;
use crate::playlist::member_count;
use crate::playlist::remove_entry;
use crate::playlist::spec_insert_entry;
use crate::playlist::spec_remove_entry;
use crate::playlist::wf_entries;
use crate::playlist::EntryView;
use crate::playlist::PlaylistEntry;
use crate::artwork::get_artwork;
use crate::artwork::spec_get_artwork;

verus! {

/// The persistent catalog.
pub struct Store {
    tracks: Vec<Track>,
    artists: Vec<String>,
    genres: Vec<String>,
    albums: Vec<Album>,
    playlists: Vec<String>,
    entries: Vec<PlaylistEntry>,
}

#[verifier::ext_equal]
pub ghost struct StoreView {
    pub tracks: Seq<TrackView>,
    pub artists: Seq<Seq<char>>,
    pub genres: Seq<Seq<char>>,
    pub albums: Seq<AlbumView>,
    pub playlists: Seq<Seq<char>>,
    pub entries: Seq<EntryView>,
}

impl View for Store {
    type V = StoreView;

    closed spec fn view(&self) -> StoreView {
        StoreView {
            tracks: self.tracks.deep_view(),
            artists: self.artists.deep_view(),
            genres: self.genres.deep_view(),
            albums: self.albums.deep_view(),
            playlists: self.playlists.deep_view(),
            entries: self.entries.deep_view(),
        }
    }
}

/// The album id a persisted track contributes to.
pub open spec fn track_album_id(t: TrackView) -> Seq<char> {
    spec_album_id(t.metadata.artist, t.metadata.album)
}

/// Number of tracks whose derived album id is `id`.
pub open spec fn count_album_tracks(ts: Seq<TrackView>, id: Seq<char>) -> nat
    decreases ts.len(),
{
    if ts.len() == 0 {
        0
    } else {
        count_album_tracks(ts.drop_last(), id) + if track_album_id(ts.last()) == id {
            1nat
        } else {
            0nat
        }
    }
}

pub open spec fn track_ids(ts: Seq<TrackView>) -> Seq<Seq<char>> {
    ts.map_values(|t: TrackView| t.id)
}

pub open spec fn album_ids(als: Seq<AlbumView>) -> Seq<Seq<char>> {
    als.map_values(|a: AlbumView| a.id)
}

pub open spec fn seq_distinct(s: Seq<Seq<char>>) -> bool {
    forall|i: int, j: int| 0 <= i < j < s.len() ==> s[i] != s[j]
}

/// The denormalized album aggregates agree with the track rows: each
/// album's count is the number of its tracks and is positive, and each
/// track's album id has its album row.
pub open spec fn albums_consistent(v: StoreView) -> bool {
    &&& forall|i: int|
        0 <= i < v.albums.len() ==> (#[trigger] v.albums[i]).track_count as nat
            == count_album_tracks(v.tracks, v.albums[i].id) && v.albums[i].track_count > 0
    &&& forall|i: int|
        0 <= i < v.tracks.len() ==> album_ids(v.albums).contains(track_album_id(
            #[trigger] v.tracks[i],
        ))
}

/// The key uniqueness and ordering invariants.
pub open spec fn wf_keys(v: StoreView) -> bool {
    &&& seq_distinct(track_ids(v.tracks))
    &&& seq_distinct(v.artists)
    &&& seq_distinct(v.genres)
    &&& seq_distinct(v.playlists)
    &&& seq_distinct(album_ids(v.albums))
    &&& wf_entries(v.entries)
}

/// Full well-formedness of the catalog.
pub open spec fn wf_store(v: StoreView) -> bool {
    wf_keys(v) && albums_consistent(v)
}

/// Insert-if-absent of a unique name.
pub open spec fn spec_upsert_name(names: Seq<Seq<char>>, n: Seq<char>) -> Seq<Seq<char>> {
    if names.contains(n) {
        names
    } else {
        names.push(n)
    }
}

/// First album row with the given id, if any.
pub open spec fn find_album(als: Seq<AlbumView>, id: Seq<char>) -> Option<int>
    decreases als.len(),
{
    if als.len() == 0 {
        None
    } else if als.first().id == id {
        Some(0int)
    } else {
        match find_album(als.drop_first(), id) {
            Some(i) => Some(i + 1),
            None => None,
        }
    }
}

pub proof fn lemma_find_album(als: Seq<AlbumView>, id: Seq<char>)
    ensures
        match find_album(als, id) {
            Some(i) => 0 <= i < als.len() && als[i].id == id && forall|j: int|
                0 <= j < i ==> (#[trigger] als[j]).id != id,
            None => forall|j: int| 0 <= j < als.len() ==> (#[trigger] als[j]).id != id,
        },
    decreases als.len(),
{
    if als.len() > 0 {
        let d = als.drop_first();
        if als.first().id != id {
            lemma_find_album(d, id);
            match find_album(d, id) {
                Some(i) => {
                    assert(als[i + 1] == d[i]);
                    assert forall|j: int| 0 <= j < i + 1 implies (#[trigger] als[j]).id != id by {
                        if j > 0 {
                            assert(d[j - 1] == als[j]);
                        } else {
                            assert(als[0] == als.first());
                        }
                    }
                },
                None => {
                    assert forall|j: int| 0 <= j < als.len() implies (#[trigger] als[j]).id
                        != id by {
                        if j > 0 {
                            assert(d[j - 1] == als[j]);
                        } else {
                            assert(als[0] == als.first());
                        }
                    }
                },
            }
        }
    }
}

/// The album upsert a track causes: an existing album's count rises by one
/// and empty artwork is backfilled; a missing album is created with count
/// one and the resolved artwork.
pub open spec fn spec_update_album(v: StoreView, t: TrackView, art: Option<Seq<char>>) -> StoreView {
    let id = track_album_id(t);
    match find_album(v.albums, id) {
        Some(i) => {
            let a = v.albums[i];
            let na = AlbumView {
                id: a.id,
                title: a.title,
                artist: a.artist,
                track_count: (a.track_count + 1) as u32,
                artwork_path: if a.artwork_path is None {
                    art
                } else {
                    a.artwork_path
                },
            };
            StoreView { albums: v.albums.update(i, na), ..v }
        },
        None => StoreView {
            albums: v.albums.push(
                AlbumView {
                    id: id,
                    title: t.metadata.album,
                    artist: t.metadata.artist,
                    track_count: 1,
                    artwork_path: art,
                },
            ),
            ..v
        },
    }
}

pub open spec fn spec_update_artist(v: StoreView, t: TrackView) -> StoreView {
    StoreView { artists: spec_upsert_name(v.artists, t.metadata.artist), ..v }
}

pub open spec fn spec_update_genre(v: StoreView, t: TrackView) -> StoreView {
    match t.metadata.genre {
        Some(g) => StoreView { genres: spec_upsert_name(v.genres, g), ..v },
        None => v,
    }
}

pub open spec fn spec_add_track(v: StoreView, t: TrackView) -> StoreView {
    StoreView { tracks: v.tracks.push(t), ..v }
}

pub open spec fn spec_add_playlist(v: StoreView, title: Seq<char>) -> StoreView {
    StoreView { playlists: spec_upsert_name(v.playlists, title), ..v }
}

/// The whole ingestion of one new track: genre, artist and album upserts,
/// then the track row, as one unit.
pub open spec fn spec_ingest_track(v: StoreView, t: TrackView, art: Option<Seq<char>>) -> StoreView {
    spec_add_track(spec_update_album(spec_update_artist(spec_update_genre(v, t), t), t, art), t)
}

pub proof fn lemma_count_album_tracks_push(ts: Seq<TrackView>, t: TrackView, id: Seq<char>)
    ensures
        count_album_tracks(ts.push(t), id) == count_album_tracks(ts, id) + if track_album_id(t)
            == id {
            1nat
        } else {
            0nat
        },
{
    assert(ts.push(t).drop_last() =~= ts);
    assert(ts.push(t).last() == t);
}

pub proof fn lemma_count_album_tracks_le(ts: Seq<TrackView>, id: Seq<char>)
    ensures
        count_album_tracks(ts, id) <= ts.len(),
    decreases ts.len(),
{
    if ts.len() > 0 {
        lemma_count_album_tracks_le(ts.drop_last(), id);
    }
}

/// A positive count has a witness track.
pub proof fn lemma_count_album_tracks_witness(ts: Seq<TrackView>, id: Seq<char>)
    requires
        count_album_tracks(ts, id) > 0,
    ensures
        exists|i: int| 0 <= i < ts.len() && track_album_id(#[trigger] ts[i]) == id,
    decreases ts.len(),
{
    if ts.len() > 0 {
        if track_album_id(ts.last()) == id {
            assert(track_album_id(ts[ts.len() - 1]) == id);
        } else {
            lemma_count_album_tracks_witness(ts.drop_last(), id);
            let i = choose|i: int|
                0 <= i < ts.len() - 1 && track_album_id(#[trigger] ts.drop_last()[i]) == id;
            assert(ts[i] == ts.drop_last()[i]);
        }
    }
}

/// Ingesting one track preserves the catalog invariant: the album upsert
/// and the row insert reconcile the aggregate together.
pub proof fn lemma_ingest_track_wf(v: StoreView, t: TrackView, art: Option<Seq<char>>)
    requires
        wf_store(v),
        !track_ids(v.tracks).contains(t.id),
        v.tracks.len() < u32::MAX,
    ensures
        wf_store(spec_ingest_track(v, t, art)),
        track_ids(spec_ingest_track(v, t, art).tracks).contains(t.id),
{
    let id = track_album_id(t);
    let v1 = spec_update_genre(v, t);
    let v2 = spec_update_artist(v1, t);
    let v3 = spec_update_album(v2, t, art);
    let out = spec_add_track(v3, t);
    assert(v2.albums == v.albums && v2.tracks == v.tracks);
    // uniqueness of the upserted name lists
    assert(seq_distinct(v1.genres)) by {
        match t.metadata.genre {
            Some(g) => {
                if !v.genres.contains(g) {
                    assert forall|i: int, j: int|
                        0 <= i < j < v1.genres.len() implies v1.genres[i] != v1.genres[j] by {
                        if j == v.genres.len() {
                            assert(v1.genres[i] == v.genres[i]);
                            if v.genres[i] == g {
                                assert(v.genres.contains(g));
                            }
                        }
                    }
                }
            },
            None => {},
        }
    }
    assert(seq_distinct(v2.artists)) by {
        if !v.artists.contains(t.metadata.artist) {
            assert forall|i: int, j: int|
                0 <= i < j < v2.artists.len() implies v2.artists[i] != v2.artists[j] by {
                if j == v.artists.len() {
                    assert(v2.artists[i] == v.artists[i]);
                    if v.artists[i] == t.metadata.artist {
                        assert(v.artists.contains(t.metadata.artist));
                    }
                }
            }
        }
    }
    lemma_find_album(v.albums, id);
    // the track rows: distinct ids, with t's id new
    assert(seq_distinct(track_ids(out.tracks))) by {
        assert forall|i: int, j: int|
            0 <= i < j < out.tracks.len() implies track_ids(out.tracks)[i] != track_ids(
            out.tracks,
        )[j] by {
            if j == v.tracks.len() {
                assert(track_ids(out.tracks)[i] == track_ids(v.tracks)[i]);
                if track_ids(v.tracks)[i] == t.id {
                    assert(track_ids(v.tracks).contains(t.id));
                }
            } else {
                assert(track_ids(out.tracks)[i] == track_ids(v.tracks)[i]);
                assert(track_ids(out.tracks)[j] == track_ids(v.tracks)[j]);
            }
        }
    }
    // the albums: distinct ids and reconciled counts
    match find_album(v.albums, id) {
        Some(i) => {
            let a = v.albums[i];
            assert(a.track_count as nat == count_album_tracks(v.tracks, a.id));
            lemma_count_album_tracks_le(v.tracks, a.id);
            assert(seq_distinct(album_ids(v3.albums))) by {
                assert forall|x: int, y: int|
                    0 <= x < y < v3.albums.len() implies album_ids(v3.albums)[x] != album_ids(
                    v3.albums,
                )[y] by {
                    assert(album_ids(v3.albums)[x] == album_ids(v.albums)[x]);
                    assert(album_ids(v3.albums)[y] == album_ids(v.albums)[y]);
                }
            }
            assert forall|k: int| 0 <= k < out.albums.len() implies (#[trigger] out.albums[k]).track_count as nat
                == count_album_tracks(out.tracks, out.albums[k].id) && out.albums[k].track_count
                > 0 by {
                lemma_count_album_tracks_push(v.tracks, t, out.albums[k].id);
                if k != i {
                    assert(out.albums[k] == v.albums[k]);
                    assert(album_ids(v.albums)[k] == v.albums[k].id);
                    assert(album_ids(v.albums)[i] == a.id);
                    assert(v.albums[k].id != a.id);
                }
            }
            assert forall|k: int| 0 <= k < out.tracks.len() implies album_ids(
                out.albums,
            ).contains(track_album_id(#[trigger] out.tracks[k])) by {
                if k < v.tracks.len() {
                    assert(out.tracks[k] == v.tracks[k]);
                    let m = choose|m: int|
                        0 <= m < album_ids(v.albums).len() && album_ids(v.albums)[m]
                            == track_album_id(v.tracks[k]);
                    assert(album_ids(out.albums)[m] == track_album_id(v.tracks[k]));
                } else {
                    assert(out.tracks[k] == t);
                    assert(album_ids(out.albums)[i] == id);
                }
            }
        },
        None => {
            // no album row: no track can map to the id either
            assert(count_album_tracks(v.tracks, id) == 0) by {
                if count_album_tracks(v.tracks, id) > 0 {
                    lemma_count_album_tracks_witness(v.tracks, id);
                    let w = choose|w: int|
                        0 <= w < v.tracks.len() && track_album_id(#[trigger] v.tracks[w]) == id;
                    let m = choose|m: int|
                        0 <= m < album_ids(v.albums).len() && album_ids(v.albums)[m] == id;
                    assert(v.albums[m].id != id);
                }
            }
            assert(seq_distinct(album_ids(v3.albums))) by {
                assert forall|x: int, y: int|
                    0 <= x < y < v3.albums.len() implies album_ids(v3.albums)[x] != album_ids(
                    v3.albums,
                )[y] by {
                    if y == v.albums.len() {
                        assert(album_ids(v3.albums)[x] == album_ids(v.albums)[x]);
                        assert(album_ids(v3.albums)[y] == id);
                        assert(v.albums[x].id != id);
                    } else {
                        assert(album_ids(v3.albums)[x] == album_ids(v.albums)[x]);
                        assert(album_ids(v3.albums)[y] == album_ids(v.albums)[y]);
                    }
                }
            }
            assert forall|k: int| 0 <= k < out.albums.len() implies (#[trigger] out.albums[k]).track_count as nat
                == count_album_tracks(out.tracks, out.albums[k].id) && out.albums[k].track_count
                > 0 by {
                lemma_count_album_tracks_push(v.tracks, t, out.albums[k].id);
                if k < v.albums.len() {
                    assert(out.albums[k] == v.albums[k]);
                    assert(v.albums[k].id != id);
                } else {
                    assert(out.albums[k].id == id);
                }
            }
            assert forall|k: int| 0 <= k < out.tracks.len() implies album_ids(
                out.albums,
            ).contains(track_album_id(#[trigger] out.tracks[k])) by {
                if k < v.tracks.len() {
                    assert(out.tracks[k] == v.tracks[k]);
                    let m = choose|m: int|
                        0 <= m < album_ids(v.albums).len() && album_ids(v.albums)[m]
                            == track_album_id(v.tracks[k]);
                    assert(album_ids(out.albums)[m] == track_album_id(v.tracks[k]));
                } else {
                    assert(out.tracks[k] == t);
                    assert(album_ids(out.albums)[v.albums.len() as int] == id);
                }
            }
        },
    }
    assert(track_ids(out.tracks)[v.tracks.len() as int] == t.id);
}

pub proof fn lemma_upsert_distinct(names: Seq<Seq<char>>, n: Seq<char>)
    requires
        seq_distinct(names),
    ensures
        seq_distinct(spec_upsert_name(names, n)),
{
    let out = spec_upsert_name(names, n);
    if !names.contains(n) {
        assert forall|i: int, j: int| 0 <= i < j < out.len() implies out[i] != out[j] by {
            if j == names.len() {
                assert(out[i] == names[i]);
                if names[i] == n {
                    assert(names.contains(n));
                }
            } else {
                assert(out[i] == names[i] && out[j] == names[j]);
            }
        }
    }
}

fn upsert_string(names: &mut Vec<String>, n: &str) -> (r: u64)
    ensures
        final(names).deep_view() == spec_upsert_name(old(names).deep_view(), n@),
        r == if old(names).deep_view().contains(n@) {
            0int
        } else {
            1int
        },
{
    if contains_string(names, n) {
        0
    } else {
        names.push(n.to_owned());
        proof {
            assert(names.deep_view() =~= old(names).deep_view().push(n@));
        }
        1
    }
}

fn find_album_index(albums: &Vec<Album>, id: &String) -> (r: Option<usize>)
    ensures
        match r {
            Some(i) => find_album(albums.deep_view(), id@) == Some(i as int),
            None => find_album(albums.deep_view(), id@) is None,
        },
{
    let ghost s = albums.deep_view();
    let mut i: usize = 0;
    while i < albums.len()
        invariant
            i <= albums.len(),
            s == albums.deep_view(),
            forall|j: int| 0 <= j < i ==> (#[trigger] s[j]).id != id@,
        decreases albums.len() - i,
    {
        if albums[i].id == *id {
            proof {
                assert(s[i as int] == albums@[i as int]@);
                lemma_find_album(s, id@);
            }
            return Some(i);
        }
        i = i + 1;
    }
    proof {
        lemma_find_album(s, id@);
    }
    None
}

impl Store {
    /// Whether the catalog is well formed; every public operation keeps it
    /// so, and `new` establishes it.
    pub open spec fn wf(&self) -> bool {
        wf_store(self@)
    }

    /// An empty catalog.
    pub fn new() -> (r: Store)
        ensures
            r.wf(),
            r@.tracks.len() == 0,
            r@.artists.len() == 0,
            r@.genres.len() == 0,
            r@.albums.len() == 0,
            r@.playlists.len() == 0,
            r@.entries.len() == 0,
    {
        Store {
            tracks: Vec::new(),
            artists: Vec::new(),
            genres: Vec::new(),
            albums: Vec::new(),
            playlists: Vec::new(),
            entries: Vec::new(),
        }
    }

    /// Whether a track with this id is already persisted.
    pub fn has_track(&self, id: &str) -> (r: bool)
        ensures
            r == track_ids(self@.tracks).contains(id@),
    {
        let ghost s = self@.tracks;
        let ido = id.to_owned();
        let mut i: usize = 0;
        while i < self.tracks.len()
            invariant
                i <= self.tracks.len(),
                s == self@.tracks,
                s == self.tracks.deep_view(),
                ido@ == id@,
                forall|j: int| 0 <= j < i ==> (#[trigger] s[j]).id != id@,
            decreases self.tracks.len() - i,
        {
            if self.tracks[i].id == ido {
                proof {
                    assert(s[i as int] == self.tracks@[i as int]@);
                    assert(track_ids(s)[i as int] == id@);
                }
                return true;
            }
            i = i + 1;
        }
        proof {
            if track_ids(s).contains(id@) {
                let j = choose|j: int| 0 <= j < track_ids(s).len() && track_ids(s)[j] == id@;
                assert(s[j].id != id@);
            }
        }
        false
    }

    /// Insert-if-absent of the track's artist; 1 when a row was inserted.
    pub fn update_artist(&mut self, track: &Track) -> (r: u64)
        requires
            wf_store(old(self)@),
        ensures
            wf_store(final(self)@),
            final(self)@ == spec_update_artist(old(self)@, track@),
            r == if old(self)@.artists.contains(track@.metadata.artist) {
                0int
            } else {
                1int
            },
    {
        let r = upsert_string(&mut self.artists, track.metadata.artist.as_str());
        proof {
            assert(self@ =~= spec_update_artist(old(self)@, track@));
            lemma_upsert_distinct(old(self)@.artists, track@.metadata.artist);
        }
        r
    }

    /// Insert-if-absent of the track's genre, when it has one.
    pub fn update_genre(&mut self, track: &Track) -> (r: u64)
        requires
            wf_store(old(self)@),
        ensures
            wf_store(final(self)@),
            final(self)@ == spec_update_genre(old(self)@, track@),
            r == match track@.metadata.genre {
                Some(g) => if old(self)@.genres.contains(g) {
                    0int
                } else {
                    1int
                },
                None => 0int,
            },
    {
        match &track.metadata.genre {
            Some(g) => {
                let r = upsert_string(&mut self.genres, g.as_str());
                proof {
                    assert(self@ =~= spec_update_genre(old(self)@, track@));
                    lemma_upsert_distinct(old(self)@.genres, track@.metadata.genre.unwrap());
                }
                r
            },
            None => 0,
        }
    }

    /// Insert-if-absent of a playlist title; playlists are created by the
    /// surrounding application, this is its entry point into the catalog.
    pub fn add_playlist(&mut self, title: &str) -> (r: u64)
        requires
            wf_store(old(self)@),
        ensures
            wf_store(final(self)@),
            final(self)@ == spec_add_playlist(old(self)@, title@),
            r == if old(self)@.playlists.contains(title@) {
                0int
            } else {
                1int
            },
    {
        let r = upsert_string(&mut self.playlists, title);
        proof {
            assert(self@ =~= spec_add_playlist(old(self)@, title@));
            lemma_upsert_distinct(old(self)@.playlists, title@);
        }
        r
    }

    /// The album upsert for one track: an existing album's count rises by
    /// one, with empty artwork backfilled; a missing album is created with
    /// count one.  `siblings` are the file names in the track's directory,
    /// for the artwork heuristic.  Alone this leaves the aggregate
    /// counting the not-yet-inserted track; `ingest_track` pairs it with
    /// the row insert.  Returns 1 when an album row was created.
    pub fn update_album(&mut self, track: &Track, siblings: &Vec<String>) -> (r: u64)
        requires
            wf_store(old(self)@),
            old(self)@.tracks.len() < u32::MAX,
        ensures
            wf_keys(final(self)@),
            final(self)@ == spec_update_album(
                old(self)@,
                track@,
                spec_get_artwork(track@, siblings.deep_view()),
            ),
            r == if find_album(old(self)@.albums, track_album_id(track@)) is Some {
                0int
            } else {
                1int
            },
    {
        let art = get_artwork(track, siblings);
        let aid = album_id(track.metadata.artist.as_str(), track.metadata.album.as_str());
        let found = find_album_index(&self.albums, &aid);
        match found {
            Some(i) => {
                proof {
                    lemma_find_album(old(self)@.albums, track_album_id(track@));
                    lemma_count_album_tracks_le(old(self)@.tracks, old(self)@.albums[i as int].id);
                }
                let a = &self.albums[i];
                let na = Album {
                    id: a.id.clone(),
                    title: a.title.clone(),
                    artist: a.artist.clone(),
                    track_count: a.track_count + 1,
                    artwork_path: match &a.artwork_path {
                        Some(p) => Some(p.clone()),
                        None => art,
                    },
                };
                self.albums[i] = na;
                proof {
                    assert(self@ =~= spec_update_album(
                        old(self)@,
                        track@,
                        spec_get_artwork(track@, siblings.deep_view()),
                    ));
                    let v = old(self)@;
                    assert forall|x: int, y: int|
                        0 <= x < y < self@.albums.len() implies album_ids(self@.albums)[x]
                        != album_ids(self@.albums)[y] by {
                        assert(album_ids(self@.albums)[x] == album_ids(v.albums)[x]);
                        assert(album_ids(self@.albums)[y] == album_ids(v.albums)[y]);
                    }
                }
                0
            },
            None => {
                proof {
                    lemma_find_album(old(self)@.albums, track_album_id(track@));
                }
                let na = Album {
                    id: aid,
                    title: track.metadata.album.clone(),
                    artist: track.metadata.artist.clone(),
                    track_count: 1,
                    artwork_path: art,
                };
                self.albums.push(na);
                proof {
                    assert(self@.albums =~= old(self)@.albums.push(
                        spec_update_album(
                            old(self)@,
                            track@,
                            spec_get_artwork(track@, siblings.deep_view()),
                        ).albums.last(),
                    ));
                    assert(self@ =~= spec_update_album(
                        old(self)@,
                        track@,
                        spec_get_artwork(track@, siblings.deep_view()),
                    ));
                    let v = old(self)@;
                    let id = track_album_id(track@);
                    assert forall|x: int, y: int|
                        0 <= x < y < self@.albums.len() implies album_ids(self@.albums)[x]
                        != album_ids(self@.albums)[y] by {
                        if y == v.albums.len() {
                            assert(album_ids(self@.albums)[x] == album_ids(v.albums)[x]);
                            assert(v.albums[x].id != id);
                            assert(album_ids(self@.albums)[y] == id);
                        } else {
                            assert(album_ids(self@.albums)[x] == album_ids(v.albums)[x]);
                            assert(album_ids(self@.albums)[y] == album_ids(v.albums)[y]);
                        }
                    }
                }
                1
            },
        }
    }

    /// Insert the track row itself.  Fails, changing nothing, exactly when
    /// the id is already persisted.  Alone this leaves its album's
    /// aggregate behind; `ingest_track` pairs it with the album upsert.
    pub fn add_track(&mut self, track: Track) -> (r: Result<u64, StoreError>)
        requires
            wf_keys(old(self)@),
        ensures
            wf_keys(final(self)@),
            match r {
                Ok(n) => {
                    &&& n == 1
                    &&& !track_ids(old(self)@.tracks).contains(track@.id)
                    &&& final(self)@ == spec_add_track(old(self)@, track@)
                },
                Err(e) => {
                    &&& e == StoreError::Duplicate
                    &&& track_ids(old(self)@.tracks).contains(track@.id)
                    &&& final(self)@ == old(self)@
                },
            },
    {
        if self.has_track(track.id.as_str()) {
            return Err(StoreError::Duplicate);
        }
        let ghost v = old(self)@;
        let ghost tv = track@;
        self.tracks.push(track);
        proof {
            assert(self@.tracks =~= v.tracks.push(tv));
            assert(self@ =~= spec_add_track(v, tv));
            assert forall|x: int, y: int|
                0 <= x < y < self@.tracks.len() implies track_ids(self@.tracks)[x] != track_ids(
                self@.tracks,
            )[y] by {
                if y == v.tracks.len() {
                    assert(track_ids(self@.tracks)[x] == track_ids(v.tracks)[x]);
                    if track_ids(v.tracks)[x] == tv.id {
                        assert(track_ids(v.tracks).contains(tv.id));
                    }
                } else {
                    assert(track_ids(self@.tracks)[x] == track_ids(v.tracks)[x]);
                    assert(track_ids(self@.tracks)[y] == track_ids(v.tracks)[y]);
                }
            }
        }
        Ok(1)
    }

    /// Ingest one scanned track: the genre, artist and album upserts and
    /// the row insert as one all-or-nothing unit, preserving the whole
    /// catalog invariant.  Fails, changing nothing, exactly when the id is
    /// already persisted.
    pub fn ingest_track(&mut self, track: Track, siblings: &Vec<String>) -> (r: Result<
        u64,
        StoreError,
    >)
        requires
            wf_store(old(self)@),
            old(self)@.tracks.len() < u32::MAX,
        ensures
            wf_store(final(self)@),
            match r {
                Ok(n) => {
                    &&& n == 1
                    &&& !track_ids(old(self)@.tracks).contains(track@.id)
                    &&& final(self)@ == spec_ingest_track(
                        old(self)@,
                        track@,
                        spec_get_artwork(track@, siblings.deep_view()),
                    )
                },
                Err(e) => {
                    &&& e == StoreError::Duplicate
                    &&& track_ids(old(self)@.tracks).contains(track@.id)
                    &&& final(self)@ == old(self)@
                },
            },
    {
        if self.has_track(track.id.as_str()) {
            return Err(StoreError::Duplicate);
        }
        let ghost v0 = self@;
        let ghost tv = track@;
        let ghost art = spec_get_artwork(track@, siblings.deep_view());
        self.update_genre(&track);
        self.update_artist(&track);
        self.update_album(&track, siblings);
        let res = self.add_track(track);
        proof {
            lemma_ingest_track_wf(v0, tv, art);
        }
        match res {
            Ok(n) => Ok(n),
            Err(e) => Err(e),
        }
    }

    /// The ids of every persisted track.
    pub fn get_track_ids(&self) -> (r: Vec<String>)
        ensures
            r.deep_view() == track_ids(self@.tracks),
    {
        let mut r: Vec<String> = Vec::new();
        let mut i: usize = 0;
        while i < self.tracks.len()
            invariant
                i <= self.tracks.len(),
                self@.tracks == self.tracks.deep_view(),
                r.deep_view() =~= track_ids(self@.tracks.take(i as int)),
            decreases self.tracks.len() - i,
        {
            let ghost rprev = r.deep_view();
            r.push(self.tracks[i].id.clone());
            proof {
                assert(r.deep_view() =~= rprev.push(self@.tracks[i as int].id));
                assert(track_ids(self@.tracks.take(i + 1)) =~= rprev.push(
                    self@.tracks[i as int].id,
                ));
            }
            i = i + 1;
        }
        proof {
            assert(self@.tracks.take(self.tracks.len() as int) =~= self@.tracks);
        }
        r
    }

    /// Every persisted track.
    pub fn get_tracks(&self) -> (r: Vec<Track>)
        ensures
            r.deep_view() == self@.tracks,
    {
        let mut r: Vec<Track> = Vec::new();
        let mut i: usize = 0;
        while i < self.tracks.len()
            invariant
                i <= self.tracks.len(),
                self@.tracks == self.tracks.deep_view(),
                r.deep_view() =~= self@.tracks.take(i as int),
            decreases self.tracks.len() - i,
        {
            let ghost rprev = r.deep_view();
            r.push(self.tracks[i].duplicate());
            proof {
                assert(r.deep_view() =~= rprev.push(self@.tracks[i as int]));
                assert(self@.tracks.take(i + 1) =~= rprev.push(self@.tracks[i as int]));
            }
            i = i + 1;
        }
        proof {
            assert(self@.tracks.take(self.tracks.len() as int) =~= self@.tracks);
        }
        r
    }

    /// Every artist row.
    pub fn get_artists(&self) -> (r: Vec<Artist>)
        ensures
            r.deep_view() == self@.artists,
    {
        let mut r: Vec<Artist> = Vec::new();
        let mut i: usize = 0;
        while i < self.artists.len()
            invariant
                i <= self.artists.len(),
                self@.artists == self.artists.deep_view(),
                r.deep_view() =~= self@.artists.take(i as int),
            decreases self.artists.len() - i,
        {
            let ghost rprev = r.deep_view();
            r.push(Artist { name: self.artists[i].clone() });
            proof {
                assert(r.deep_view() =~= rprev.push(self@.artists[i as int]));
                assert(self@.artists.take(i + 1) =~= rprev.push(self@.artists[i as int]));
            }
            i = i + 1;
        }
        proof {
            assert(self@.artists.take(self.artists.len() as int) =~= self@.artists);
        }
        r
    }

    /// Every genre row.
    pub fn get_genres(&self) -> (r: Vec<Genre>)
        ensures
            r.deep_view() == self@.genres,
    {
        let mut r: Vec<Genre> = Vec::new();
        let mut i: usize = 0;
        while i < self.genres.len()
            invariant
                i <= self.genres.len(),
                self@.genres == self.genres.deep_view(),
                r.deep_view() =~= self@.genres.take(i as int),
            decreases self.genres.len() - i,
        {
            let ghost rprev = r.deep_view();
            r.push(Genre { name: self.genres[i].clone() });
            proof {
                assert(r.deep_view() =~= rprev.push(self@.genres[i as int]));
                assert(self@.genres.take(i + 1) =~= rprev.push(self@.genres[i as int]));
            }
            i = i + 1;
        }
        proof {
            assert(self@.genres.take(self.genres.len() as int) =~= self@.genres);
        }
        r
    }

    /// Every playlist row.
    pub fn get_playlists(&self) -> (r: Vec<Playlist>)
        ensures
            r.deep_view() == self@.playlists,
    {
        let mut r: Vec<Playlist> = Vec::new();
        let mut i: usize = 0;
        while i < self.playlists.len()
            invariant
                i <= self.playlists.len(),
                self@.playlists == self.playlists.deep_view(),
                r.deep_view() =~= self@.playlists.take(i as int),
            decreases self.playlists.len() - i,
        {
            let ghost rprev = r.deep_view();
            r.push(Playlist { title: self.playlists[i].clone() });
            proof {
                assert(r.deep_view() =~= rprev.push(self@.playlists[i as int]));
                assert(self@.playlists.take(i + 1) =~= rprev.push(self@.playlists[i as int]));
            }
            i = i + 1;
        }
        proof {
            assert(self@.playlists.take(self.playlists.len() as int) =~= self@.playlists);
        }
        r
    }

    /// The album with the given id, if the catalog has it.
    pub fn get_album(&self, id: &str) -> (r: Option<Album>)
        ensures
            match r {
                Some(a) => {
                    let fi = find_album(self@.albums, id@);
                    fi is Some && a@ == self@.albums[fi.unwrap()]
                },
                None => find_album(self@.albums, id@) is None,
            },
    {
        let ido = id.to_owned();
        match find_album_index(&self.albums, &ido) {
            Some(i) => {
                proof {
                    lemma_find_album(self@.albums, id@);
                }
                Some(self.albums[i].duplicate())
            },
            None => None,
        }
    }

    /// Every album row.
    pub fn get_albums(&self) -> (r: Vec<Album>)
        ensures
            r.deep_view() == self@.albums,
    {
        let mut r: Vec<Album> = Vec::new();
        let mut i: usize = 0;
        while i < self.albums.len()
            invariant
                i <= self.albums.len(),
                self@.albums == self.albums.deep_view(),
                r.deep_view() =~= self@.albums.take(i as int),
            decreases self.albums.len() - i,
        {
            let ghost rprev = r.deep_view();
            r.push(self.albums[i].duplicate());
            proof {
                assert(r.deep_view() =~= rprev.push(self@.albums[i as int]));
                assert(self@.albums.take(i + 1) =~= rprev.push(self@.albums[i as int]));
            }
            i = i + 1;
        }
        proof {
            assert(self@.albums.take(self.albums.len() as int) =~= self@.albums);
        }
        r
    }

    /// The albums of one artist, in catalog order.
    pub fn get_albums_from_artist(&self, artist: String) -> (r: Vec<Album>)
        ensures
            r.deep_view() == albums_of_artist(self@.albums, artist@),
    {
        let mut r: Vec<Album> = Vec::new();
        let mut i: usize = 0;
        while i < self.albums.len()
            invariant
                i <= self.albums.len(),
                self@.albums == self.albums.deep_view(),
                r.deep_view() =~= albums_of_artist(self@.albums.take(i as int), artist@),
            decreases self.albums.len() - i,
        {
            proof {
                assert(self@.albums.take(i + 1).drop_last() =~= self@.albums.take(i as int));
                assert(self@.albums.take(i + 1).last() == self@.albums[i as int]);
            }
            if self.albums[i].artist == artist {
                let ghost rprev = r.deep_view();
                r.push(self.albums[i].duplicate());
                proof {
                    assert(r.deep_view() =~= rprev.push(self@.albums[i as int]));
                    assert(albums_of_artist(self@.albums.take(i + 1), artist@) =~= rprev.push(
                        self@.albums[i as int],
                    ));
                }
            }
            i = i + 1;
        }
        proof {
            assert(self@.albums.take(self.albums.len() as int) =~= self@.albums);
        }
        r
    }

    /// The tracks of one album; an unknown album id yields an empty list,
    /// not an error.
    pub fn get_tracks_from_album(&self, album_id: String) -> (r: Vec<Track>)
        ensures
            r.deep_view() == spec_tracks_from_album(self@, album_id@),
    {
        match find_album_index(&self.albums, &album_id) {
            Some(_) => {},
            None => {
                return Vec::new();
            },
        }
        let mut r: Vec<Track> = Vec::new();
        let mut i: usize = 0;
        while i < self.tracks.len()
            invariant
                i <= self.tracks.len(),
                self@.tracks == self.tracks.deep_view(),
                r.deep_view() =~= tracks_of_album(self@.tracks.take(i as int), album_id@),
            decreases self.tracks.len() - i,
        {
            proof {
                assert(self@.tracks.take(i + 1).drop_last() =~= self@.tracks.take(i as int));
                assert(self@.tracks.take(i + 1).last() == self@.tracks[i as int]);
            }
            let t = &self.tracks[i];
            let tid = crate::identity::album_id(
                t.metadata.artist.as_str(),
                t.metadata.album.as_str(),
            );
            if tid == album_id {
                let ghost rprev = r.deep_view();
                r.push(self.tracks[i].duplicate());
                proof {
                    assert(r.deep_view() =~= rprev.push(self@.tracks[i as int]));
                    assert(tracks_of_album(self@.tracks.take(i + 1), album_id@) =~= rprev.push(
                        self@.tracks[i as int],
                    ));
                }
            }
            i = i + 1;
        }
        proof {
            assert(self@.tracks.take(self.tracks.len() as int) =~= self@.tracks);
        }
        r
    }

    /// Every playlist membership row, with its position.
    pub fn get_playlist_entries(&self) -> (r: Vec<PlaylistEntry>)
        ensures
            r.deep_view() == self@.entries,
    {
        let mut r: Vec<PlaylistEntry> = Vec::new();
        let mut i: usize = 0;
        while i < self.entries.len()
            invariant
                i <= self.entries.len(),
                self@.entries == self.entries.deep_view(),
                r.deep_view() =~= self@.entries.take(i as int),
            decreases self.entries.len() - i,
        {
            let ghost rprev = r.deep_view();
            r.push(self.entries[i].duplicate());
            proof {
                assert(r.deep_view() =~= rprev.push(self@.entries[i as int]));
                assert(self@.entries.take(i + 1) =~= rprev.push(self@.entries[i as int]));
            }
            i = i + 1;
        }
        proof {
            assert(self@.entries.take(self.entries.len() as int) =~= self@.entries);
        }
        r
    }

    /// Insert a track into a playlist at a position, shifting what is at or
    /// above it up; a position past the end appends.  Returns the number of
    /// memberships shifted.  Fails, changing nothing, exactly when the
    /// playlist already holds the track.
    pub fn add_track_to_playlist(&mut self, track_id: &str, playlist: &str, position: usize) -> (r:
        Result<u64, StoreError>)
        requires
            wf_store(old(self)@),
        ensures
            wf_store(final(self)@),
            match r {
                Ok(shifted) => {
                    let s0 = old(self)@.entries;
                    let n = member_count(s0, playlist@);
                    let pos: nat = if position > n {
                        n
                    } else {
                        position as nat
                    };
                    &&& find_entry(s0, playlist@, track_id@) is None
                    &&& final(self)@ == (StoreView {
                        entries: spec_insert_entry(s0, playlist@, track_id@, position as nat),
                        ..old(self)@
                    })
                    &&& shifted == count_at_or_above(s0, playlist@, pos)
                },
                Err(e) => {
                    &&& e == StoreError::Duplicate
                    &&& find_entry(old(self)@.entries, playlist@, track_id@) is Some
                    &&& final(self)@ == old(self)@
                },
            },
    {
        let p = playlist.to_owned();
        let t = track_id.to_owned();
        let res = insert_entry(&mut self.entries, &p, &t, position);
        proof {
            match res {
                Ok(_) => {
                    assert(self@ =~= (StoreView {
                        entries: spec_insert_entry(
                            old(self)@.entries,
                            playlist@,
                            track_id@,
                            position as nat,
                        ),
                        ..old(self)@
                    }));
                },
                Err(_) => {
                    assert(self@ =~= old(self)@);
                },
            }
        }
        res
    }

    /// Remove a track's membership from a playlist, shifting what is above
    /// it down, and return the position it had.  Fails, changing nothing,
    /// exactly when the playlist does not hold the track.
    pub fn remove_track_from_playlist(&mut self, track_id: &str, playlist: &str) -> (r: Result<
        usize,
        StoreError,
    >)
        requires
            wf_store(old(self)@),
        ensures
            wf_store(final(self)@),
            match r {
                Ok(pos) => {
                    let s0 = old(self)@.entries;
                    let fi = find_entry(s0, playlist@, track_id@);
                    &&& fi is Some
                    &&& pos as nat == s0[fi.unwrap()].position
                    &&& final(self)@ == (StoreView {
                        entries: spec_remove_entry(s0, fi.unwrap()),
                        ..old(self)@
                    })
                },
                Err(e) => {
                    &&& e == StoreError::NotFound
                    &&& find_entry(old(self)@.entries, playlist@, track_id@) is None
                    &&& final(self)@ == old(self)@
                },
            },
    {
        let p = playlist.to_owned();
        let t = track_id.to_owned();
        let res = remove_entry(&mut self.entries, &p, &t);
        proof {
            match res {
                Ok(_) => {
                    let fi = find_entry(old(self)@.entries, playlist@, track_id@);
                    assert(self@ =~= (StoreView {
                        entries: spec_remove_entry(old(self)@.entries, fi.unwrap()),
                        ..old(self)@
                    }));
                },
                Err(_) => {
                    assert(self@ =~= old(self)@);
                },
            }
        }
        res
    }
}

/// The albums whose artist is `name`, in catalog order.
pub open spec fn albums_of_artist(als: Seq<AlbumView>, name: Seq<char>) -> Seq<AlbumView>
    decreases als.len(),
{
    if als.len() == 0 {
        als
    } else {
        let r = albums_of_artist(als.drop_last(), name);
        if als.last().artist == name {
            r.push(als.last())
        } else {
            r
        }
    }
}

/// The tracks whose derived album id is `id`, in catalog order.
pub open spec fn tracks_of_album(ts: Seq<TrackView>, id: Seq<char>) -> Seq<TrackView>
    decreases ts.len(),
{
    if ts.len() == 0 {
        ts
    } else {
        let r = tracks_of_album(ts.drop_last(), id);
        if track_album_id(ts.last()) == id {
            r.push(ts.last())
        } else {
            r
        }
    }
}

/// What `getTracks` with an album filter yields: nothing for an unknown
/// album, else the album's tracks.
pub open spec fn spec_tracks_from_album(v: StoreView, id: Seq<char>) -> Seq<TrackView> {
    if find_album(v.albums, id) is None {
        Seq::empty()
    } else {
        tracks_of_album(v.tracks, id)
    }
}

/// The tracks that survive deleting `ids`, in catalog order.
pub open spec fn keep_tracks(ts: Seq<TrackView>, ids: Seq<Seq<char>>) -> Seq<TrackView>
    decreases ts.len(),
{
    if ts.len() == 0 {
        ts
    } else {
        let r = keep_tracks(ts.drop_last(), ids);
        if !ids.contains(ts.last().id) {
            r.push(ts.last())
        } else {
            r
        }
    }
}

/// The memberships that survive deleting `ids`, before renumbering.
pub open spec fn keep_entries(es: Seq<EntryView>, ids: Seq<Seq<char>>) -> Seq<EntryView>
    decreases es.len(),
{
    if es.len() == 0 {
        es
    } else {
        let r = keep_entries(es.drop_last(), ids);
        if !ids.contains(es.last().track_id) {
            r.push(es.last())
        } else {
            r
        }
    }
}

/// Number of memberships of playlist `p` strictly below position `pos`.
pub open spec fn count_below(es: Seq<EntryView>, p: Seq<char>, pos: nat) -> nat
    decreases es.len(),
{
    if es.len() == 0 {
        0
    } else {
        count_below(es.drop_last(), p, pos) + if es.last().playlist == p && es.last().position
            < pos {
            1nat
        } else {
            0nat
        }
    }
}

/// Each membership's position compacted to its rank within its playlist:
/// what repeated ordered removals leave behind.
pub open spec fn renumber_entries(es: Seq<EntryView>) -> Seq<EntryView> {
    Seq::new(
        es.len(),
        |i: int|
            EntryView {
                playlist: es[i].playlist,
                track_id: es[i].track_id,
                position: count_below(es, es[i].playlist, es[i].position),
            },
    )
}

/// The albums after a deletion: counts recomputed against the remaining
/// tracks, albums left with no tracks dropped.
pub open spec fn rebuild_albums(als: Seq<AlbumView>, ts: Seq<TrackView>) -> Seq<AlbumView>
    decreases als.len(),
{
    if als.len() == 0 {
        als
    } else {
        let r = rebuild_albums(als.drop_last(), ts);
        let a = als.last();
        let c = count_album_tracks(ts, a.id);
        if c > 0 {
            r.push(
                AlbumView {
                    id: a.id,
                    title: a.title,
                    artist: a.artist,
                    track_count: c as u32,
                    artwork_path: a.artwork_path,
                },
            )
        } else {
            r
        }
    }
}

/// The whole deletion: memberships of the deleted tracks removed with
/// their playlists renumbered, the track rows removed, and the album
/// aggregates reconciled.
pub open spec fn spec_delete_tracks(v: StoreView, ids: Seq<Seq<char>>) -> StoreView {
    let ts = keep_tracks(v.tracks, ids);
    StoreView {
        tracks: ts,
        albums: rebuild_albums(v.albums, ts),
        entries: renumber_entries(keep_entries(v.entries, ids)),
        ..v
    }
}

pub proof fn lemma_keep_tracks_mem(ts: Seq<TrackView>, ids: Seq<Seq<char>>)
    ensures
        keep_tracks(ts, ids).len() <= ts.len(),
        forall|k: int|
            0 <= k < keep_tracks(ts, ids).len() ==> ts.contains(#[trigger] keep_tracks(ts, ids)[k])
                && !ids.contains(keep_tracks(ts, ids)[k].id),
    decreases ts.len(),
{
    if ts.len() > 0 {
        let dl = ts.drop_last();
        lemma_keep_tracks_mem(dl, ids);
        assert forall|k: int|
            0 <= k < keep_tracks(ts, ids).len() implies ts.contains(
            #[trigger] keep_tracks(ts, ids)[k],
        ) && !ids.contains(keep_tracks(ts, ids)[k].id) by {
            let r = keep_tracks(dl, ids);
            if k < r.len() {
                assert(keep_tracks(ts, ids)[k] == r[k]);
                let j = choose|j: int| 0 <= j < dl.len() && dl[j] == r[k];
                assert(ts[j] == r[k]);
            } else {
                assert(keep_tracks(ts, ids)[k] == ts.last());
                assert(ts[ts.len() - 1] == ts.last());
            }
        }
    }
}

pub proof fn lemma_keep_tracks_distinct(ts: Seq<TrackView>, ids: Seq<Seq<char>>)
    requires
        seq_distinct(track_ids(ts)),
    ensures
        seq_distinct(track_ids(keep_tracks(ts, ids))),
    decreases ts.len(),
{
    if ts.len() > 0 {
        let dl = ts.drop_last();
        assert(seq_distinct(track_ids(dl))) by {
            assert forall|i: int, j: int|
                0 <= i < j < dl.len() implies track_ids(dl)[i] != track_ids(dl)[j] by {
                assert(track_ids(ts)[i] == track_ids(dl)[i]);
                assert(track_ids(ts)[j] == track_ids(dl)[j]);
            }
        }
        lemma_keep_tracks_distinct(dl, ids);
        lemma_keep_tracks_mem(dl, ids);
        let out = keep_tracks(ts, ids);
        let r = keep_tracks(dl, ids);
        assert forall|i: int, j: int|
            0 <= i < j < out.len() implies track_ids(out)[i] != track_ids(out)[j] by {
            if j < r.len() {
                assert(track_ids(out)[i] == track_ids(r)[i]);
                assert(track_ids(out)[j] == track_ids(r)[j]);
            } else {
                assert(out[j] == ts.last());
                assert(out[i] == r[i]);
                let m = choose|m: int| 0 <= m < dl.len() && dl[m] == r[i];
                assert(track_ids(ts)[m] == r[i].id);
                assert(track_ids(ts)[ts.len() - 1] == ts.last().id);
            }
        }
    }
}

pub proof fn lemma_keep_entries_mem(es: Seq<EntryView>, ids: Seq<Seq<char>>)
    ensures
        keep_entries(es, ids).len() <= es.len(),
        forall|k: int|
            0 <= k < keep_entries(es, ids).len() ==> es.contains(
                #[trigger] keep_entries(es, ids)[k],
            ) && !ids.contains(keep_entries(es, ids)[k].track_id),
    decreases es.len(),
{
    if es.len() > 0 {
        let dl = es.drop_last();
        lemma_keep_entries_mem(dl, ids);
        assert forall|k: int|
            0 <= k < keep_entries(es, ids).len() implies es.contains(
            #[trigger] keep_entries(es, ids)[k],
        ) && !ids.contains(keep_entries(es, ids)[k].track_id) by {
            let r = keep_entries(dl, ids);
            if k < r.len() {
                assert(keep_entries(es, ids)[k] == r[k]);
                let j = choose|j: int| 0 <= j < dl.len() && dl[j] == r[k];
                assert(es[j] == r[k]);
            } else {
                assert(keep_entries(es, ids)[k] == es.last());
                assert(es[es.len() - 1] == es.last());
            }
        }
    }
}

pub proof fn lemma_keep_entries_distinct(es: Seq<EntryView>, ids: Seq<Seq<char>>)
    requires
        entries_distinct(es),
    ensures
        entries_distinct(keep_entries(es, ids)),
    decreases es.len(),
{
    if es.len() > 0 {
        let dl = es.drop_last();
        assert(entries_distinct(dl)) by {
            assert forall|i: int, j: int|
                0 <= i < j < dl.len() && dl[i].playlist == dl[j].playlist implies dl[i].position
                != dl[j].position && dl[i].track_id != dl[j].track_id by {
                assert(es[i] == dl[i] && es[j] == dl[j]);
            }
        }
        lemma_keep_entries_distinct(dl, ids);
        lemma_keep_entries_mem(dl, ids);
        let out = keep_entries(es, ids);
        let r = keep_entries(dl, ids);
        assert forall|i: int, j: int|
            0 <= i < j < out.len() && out[i].playlist == out[j].playlist implies out[i].position
            != out[j].position && out[i].track_id != out[j].track_id by {
            if j < r.len() {
                assert(out[i] == r[i] && out[j] == r[j]);
            } else {
                assert(out[j] == es.last());
                assert(out[i] == r[i]);
                let m = choose|m: int| 0 <= m < dl.len() && dl[m] == r[i];
                assert(es[m] == r[i]);
                assert(es[es.len() - 1] == es.last());
            }
        }
    }
}

pub proof fn lemma_count_below_mono(es: Seq<EntryView>, p: Seq<char>, a: nat, b: nat)
    requires
        a <= b,
    ensures
        count_below(es, p, a) <= count_below(es, p, b),
    decreases es.len(),
{
    if es.len() > 0 {
        lemma_count_below_mono(es.drop_last(), p, a, b);
    }
}

/// A playlist row makes the count strictly grow past its own position.
pub proof fn lemma_count_below_strict(es: Seq<EntryView>, p: Seq<char>, i: int, b: nat)
    requires
        0 <= i < es.len(),
        es[i].playlist == p,
        es[i].position < b,
    ensures
        count_below(es, p, es[i].position) < count_below(es, p, b),
    decreases es.len(),
{
    let dl = es.drop_last();
    if i == es.len() - 1 {
        lemma_count_below_mono(dl, p, es[i].position, b);
        assert(es.last() == es[i]);
    } else {
        assert(dl[i] == es[i]);
        lemma_count_below_strict(dl, p, i, b);
    }
}

/// A playlist row's rank is below its playlist's member count.
pub proof fn lemma_count_below_lt_member(es: Seq<EntryView>, p: Seq<char>, i: int)
    requires
        0 <= i < es.len(),
        es[i].playlist == p,
    ensures
        count_below(es, p, es[i].position) < member_count(es, p),
    decreases es.len(),
{
    let dl = es.drop_last();
    if i == es.len() - 1 {
        lemma_count_below_le_member(dl, p, es[i].position);
        assert(es.last() == es[i]);
    } else {
        assert(dl[i] == es[i]);
        lemma_count_below_lt_member(dl, p, i);
    }
}

pub proof fn lemma_count_below_le_member(es: Seq<EntryView>, p: Seq<char>, pos: nat)
    ensures
        count_below(es, p, pos) <= member_count(es, p),
    decreases es.len(),
{
    if es.len() > 0 {
        lemma_count_below_le_member(es.drop_last(), p, pos);
    }
}

/// Two relations with the same playlists row for row have the same member
/// counts.
pub proof fn lemma_member_count_same_playlists(s1: Seq<EntryView>, s2: Seq<EntryView>, p: Seq<char>)
    requires
        s1.len() == s2.len(),
        forall|i: int| 0 <= i < s1.len() ==> (#[trigger] s1[i]).playlist == s2[i].playlist,
    ensures
        member_count(s1, p) == member_count(s2, p),
    decreases s1.len(),
{
    if s1.len() > 0 {
        assert forall|i: int|
            0 <= i < s1.len() - 1 implies (#[trigger] s1.drop_last()[i]).playlist
            == s2.drop_last()[i].playlist by {
            assert(s1.drop_last()[i] == s1[i] && s2.drop_last()[i] == s2[i]);
        }
        lemma_member_count_same_playlists(s1.drop_last(), s2.drop_last(), p);
        assert(s1.last() == s1[s1.len() - 1] && s2.last() == s2[s1.len() - 1]);
    }
}

/// Renumbering a distinct relation restores the full ordering invariant.
pub proof fn lemma_renumber_wf(es: Seq<EntryView>)
    requires
        entries_distinct(es),
    ensures
        wf_entries(renumber_entries(es)),
        forall|k: int|
            0 <= k < es.len() ==> (#[trigger] renumber_entries(es)[k]).track_id == es[k].track_id
                && renumber_entries(es)[k].playlist == es[k].playlist,
{
    let out = renumber_entries(es);
    assert forall|p: Seq<char>| #[trigger]
        member_count(out, p) == member_count(es, p) by {
        lemma_member_count_same_playlists(out, es, p);
    }
    assert(entries_distinct(out)) by {
        assert forall|i: int, j: int|
            0 <= i < j < out.len() && out[i].playlist == out[j].playlist implies out[i].position
            != out[j].position && out[i].track_id != out[j].track_id by {
            let p = es[i].playlist;
            if es[i].position < es[j].position {
                lemma_count_below_strict(es, p, i, es[j].position);
            } else {
                lemma_count_below_strict(es, p, j, es[i].position);
            }
        }
    }
    assert(entries_bounded(out)) by {
        assert forall|k: int| 0 <= k < out.len() implies (#[trigger] out[k]).position
            < member_count(out, out[k].playlist) by {
            lemma_count_below_lt_member(es, es[k].playlist, k);
        }
    }
}

pub proof fn lemma_count_album_tracks_pos(ts: Seq<TrackView>, id: Seq<char>, i: int)
    requires
        0 <= i < ts.len(),
        track_album_id(ts[i]) == id,
    ensures
        count_album_tracks(ts, id) > 0,
    decreases ts.len(),
{
    if i == ts.len() - 1 {
        assert(ts.last() == ts[i]);
    } else {
        assert(ts.drop_last()[i] == ts[i]);
        lemma_count_album_tracks_pos(ts.drop_last(), id, i);
    }
}

/// Deleting tracks only lowers an album's count.
pub proof fn lemma_count_keep_le(ts: Seq<TrackView>, ids: Seq<Seq<char>>, id: Seq<char>)
    ensures
        count_album_tracks(keep_tracks(ts, ids), id) <= count_album_tracks(ts, id),
    decreases ts.len(),
{
    if ts.len() > 0 {
        let dl = ts.drop_last();
        lemma_count_keep_le(dl, ids, id);
        if !ids.contains(ts.last().id) {
            lemma_count_album_tracks_push(keep_tracks(dl, ids), ts.last(), id);
        }
    }
}

pub proof fn lemma_rebuild_albums_wf(als: Seq<AlbumView>, ts: Seq<TrackView>)
    requires
        seq_distinct(album_ids(als)),
        forall|j: int|
            0 <= j < als.len() ==> count_album_tracks(ts, (#[trigger] als[j]).id) <= u32::MAX,
    ensures
        seq_distinct(album_ids(rebuild_albums(als, ts))),
        forall|k: int|
            0 <= k < rebuild_albums(als, ts).len() ==> {
                let a = #[trigger] rebuild_albums(als, ts)[k];
                a.track_count as nat == count_album_tracks(ts, a.id) && a.track_count > 0
                    && album_ids(als).contains(a.id)
            },
        forall|j: int|
            0 <= j < als.len() && count_album_tracks(ts, (#[trigger] als[j]).id) > 0 ==> album_ids(
                rebuild_albums(als, ts),
            ).contains(als[j].id),
    decreases als.len(),
{
    if als.len() > 0 {
        let dl = als.drop_last();
        assert(seq_distinct(album_ids(dl))) by {
            assert forall|i: int, j: int|
                0 <= i < j < dl.len() implies album_ids(dl)[i] != album_ids(dl)[j] by {
                assert(album_ids(als)[i] == album_ids(dl)[i]);
                assert(album_ids(als)[j] == album_ids(dl)[j]);
            }
        }
        assert forall|j: int|
            0 <= j < dl.len() implies count_album_tracks(ts, (#[trigger] dl[j]).id)
            <= u32::MAX by {
            assert(als[j] == dl[j]);
        }
        lemma_rebuild_albums_wf(dl, ts);
        let out = rebuild_albums(als, ts);
        let r = rebuild_albums(dl, ts);
        lemma_count_album_tracks_le(ts, als.last().id);
        assert forall|i: int, j: int|
            0 <= i < j < out.len() implies album_ids(out)[i] != album_ids(out)[j] by {
            if j < r.len() {
                assert(album_ids(out)[i] == album_ids(r)[i]);
                assert(album_ids(out)[j] == album_ids(r)[j]);
            } else {
                assert(album_ids(out)[i] == album_ids(r)[i]);
                assert(out[j].id == als.last().id);
                assert(album_ids(r).contains(r[i].id));
                let m = choose|m: int| 0 <= m < album_ids(dl).len() && album_ids(dl)[m] == r[i].id;
                assert(album_ids(als)[m] == r[i].id);
                assert(album_ids(als)[als.len() - 1] == als.last().id);
            }
        }
        assert forall|k: int| 0 <= k < out.len() implies {
            let a = #[trigger] out[k];
            a.track_count as nat == count_album_tracks(ts, a.id) && a.track_count > 0
                && album_ids(als).contains(a.id)
        } by {
            if k < r.len() {
                assert(out[k] == r[k]);
                let m = choose|m: int| 0 <= m < album_ids(dl).len() && album_ids(dl)[m] == r[k].id;
                assert(album_ids(als)[m] == r[k].id);
            } else {
                assert(album_ids(als)[als.len() - 1] == als.last().id);
            }
        }
        assert forall|j: int|
            0 <= j < als.len() && count_album_tracks(ts, (#[trigger] als[j]).id) > 0 implies album_ids(
            out,
        ).contains(als[j].id) by {
            if j < als.len() - 1 {
                assert(dl[j] == als[j]);
                let m = choose|m: int| 0 <= m < album_ids(r).len() && album_ids(r)[m] == dl[j].id;
                assert(album_ids(out)[m] == als[j].id);
            } else {
                assert(als[j] == als.last());
                assert(album_ids(out)[out.len() - 1] == als.last().id);
            }
        }
    }
}

/// The whole deletion preserves the catalog invariant, removes every
/// membership of the deleted ids, and leaves every surviving playlist
/// contiguous.
pub proof fn lemma_delete_tracks_wf(v: StoreView, ids: Seq<Seq<char>>)
    requires
        wf_store(v),
    ensures
        wf_store(spec_delete_tracks(v, ids)),
        forall|k: int|
            0 <= k < spec_delete_tracks(v, ids).tracks.len() ==> !ids.contains(
                (#[trigger] spec_delete_tracks(v, ids).tracks[k]).id,
            ),
        forall|k: int|
            0 <= k < spec_delete_tracks(v, ids).entries.len() ==> !ids.contains(
                (#[trigger] spec_delete_tracks(v, ids).entries[k]).track_id,
            ),
{
    let ts = keep_tracks(v.tracks, ids);
    let ke = keep_entries(v.entries, ids);
    let out = spec_delete_tracks(v, ids);
    lemma_keep_tracks_mem(v.tracks, ids);
    lemma_keep_tracks_distinct(v.tracks, ids);
    lemma_keep_entries_mem(v.entries, ids);
    lemma_keep_entries_distinct(v.entries, ids);
    lemma_renumber_wf(ke);
    assert forall|j: int|
        0 <= j < v.albums.len() implies count_album_tracks(ts, (#[trigger] v.albums[j]).id)
        <= u32::MAX by {
        lemma_count_keep_le(v.tracks, ids, v.albums[j].id);
    }
    lemma_rebuild_albums_wf(v.albums, ts);
    assert forall|k: int| 0 <= k < out.tracks.len() implies album_ids(out.albums).contains(
        track_album_id(#[trigger] out.tracks[k]),
    ) by {
        let t = ts[k];
        let j = choose|j: int| 0 <= j < v.tracks.len() && v.tracks[j] == t;
        let m = choose|m: int|
            0 <= m < album_ids(v.albums).len() && album_ids(v.albums)[m] == track_album_id(t);
        lemma_count_album_tracks_pos(ts, track_album_id(t), k);
        assert(v.albums[m].id == track_album_id(t));
        assert(count_album_tracks(ts, v.albums[m].id) > 0);
    }
    assert forall|k: int| 0 <= k < out.entries.len() implies !ids.contains(
        (#[trigger] out.entries[k]).track_id,
    ) by {
        assert(out.entries[k].track_id == ke[k].track_id);
    }
}

impl Store {
    /// Delete tracks by id: every playlist membership of a deleted track
    /// goes first, each playlist staying contiguous; then the track rows;
    /// the album aggregates are reconciled, and an album left with no
    /// tracks is dropped.  The whole sequence is one all-or-nothing unit.
    /// An empty id list is a no-op.  Returns the number of track rows
    /// deleted.
    pub fn delete_tracks(&mut self, ids: &Vec<String>) -> (r: u64)
        requires
            wf_store(old(self)@),
        ensures
            wf_store(final(self)@),
            final(self)@ == spec_delete_tracks(old(self)@, ids.deep_view()),
            r as nat == old(self)@.tracks.len() - keep_tracks(
                old(self)@.tracks,
                ids.deep_view(),
            ).len(),
            forall|k: int|
                0 <= k < final(self)@.tracks.len() ==> !ids.deep_view().contains(
                    (#[trigger] final(self)@.tracks[k]).id,
                ),
            forall|k: int|
                0 <= k < final(self)@.entries.len() ==> !ids.deep_view().contains(
                    (#[trigger] final(self)@.entries[k]).track_id,
                ),
    {
        let ghost v0 = self@;
        let ghost idv = ids.deep_view();
        // surviving track rows
        let mut kept: Vec<Track> = Vec::new();
        let mut i: usize = 0;
        while i < self.tracks.len()
            invariant
                i <= self.tracks.len(),
                self@ == v0,
                v0.tracks == self.tracks.deep_view(),
                idv == ids.deep_view(),
                kept@.len() <= i,
                kept.deep_view() =~= keep_tracks(v0.tracks.take(i as int), idv),
            decreases self.tracks.len() - i,
        {
            proof {
                assert(v0.tracks.take(i + 1).drop_last() =~= v0.tracks.take(i as int));
                assert(v0.tracks.take(i + 1).last() == v0.tracks[i as int]);
            }
            if !contains_string(ids, self.tracks[i].id.as_str()) {
                let ghost rprev = kept.deep_view();
                kept.push(self.tracks[i].duplicate());
                proof {
                    assert(kept.deep_view() =~= rprev.push(v0.tracks[i as int]));
                }
            }
            i = i + 1;
        }
        proof {
            assert(v0.tracks.take(self.tracks.len() as int) =~= v0.tracks);
        }
        let ghost ktv = keep_tracks(v0.tracks, idv);
        // album aggregates against the surviving tracks
        let mut new_albums: Vec<Album> = Vec::new();
        let mut i: usize = 0;
        while i < self.albums.len()
            invariant
                i <= self.albums.len(),
                self@ == v0,
                v0.albums == self.albums.deep_view(),
                kept.deep_view() == ktv,
                new_albums.deep_view() =~= rebuild_albums(v0.albums.take(i as int), ktv),
                forall|x: int|
                    0 <= x < v0.albums.len() ==> (#[trigger] v0.albums[x]).track_count as nat
                        == count_album_tracks(v0.tracks, v0.albums[x].id),
            decreases self.albums.len() - i,
        {
            proof {
                assert(v0.albums.take(i + 1).drop_last() =~= v0.albums.take(i as int));
                assert(v0.albums.take(i + 1).last() == v0.albums[i as int]);
            }
            let a = &self.albums[i];
            let mut c: usize = 0;
            let mut j: usize = 0;
            while j < kept.len()
                invariant
                    j <= kept.len(),
                    c <= j,
                    kept.deep_view() == ktv,
                    self@ == v0,
                    v0.albums == self.albums.deep_view(),
                    i < self.albums@.len(),
                    a == &self.albums@[i as int],
                    c == count_album_tracks(ktv.take(j as int), v0.albums[i as int].id),
                decreases kept.len() - j,
            {
                proof {
                    assert(ktv.take(j + 1).drop_last() =~= ktv.take(j as int));
                    assert(ktv.take(j + 1).last() == ktv[j as int]);
                }
                let t = &kept[j];
                let tid = crate::identity::album_id(
                    t.metadata.artist.as_str(),
                    t.metadata.album.as_str(),
                );
                if tid == a.id {
                    c = c + 1;
                }
                j = j + 1;
            }
            proof {
                assert(ktv.take(kept.len() as int) =~= ktv);
                lemma_count_keep_le(v0.tracks, idv, v0.albums[i as int].id);
                lemma_count_album_tracks_le(v0.tracks, v0.albums[i as int].id);
            }
            if c > 0 {
                let ghost rprev = new_albums.deep_view();
                let na = Album {
                    id: a.id.clone(),
                    title: a.title.clone(),
                    artist: a.artist.clone(),
                    track_count: c as u32,
                    artwork_path: clone_opt_string(&a.artwork_path),
                };
                new_albums.push(na);
                proof {
                    assert(new_albums.deep_view() =~= rprev.push(
                        rebuild_albums(v0.albums.take(i + 1), ktv).last(),
                    ));
                    assert(new_albums.deep_view() =~= rebuild_albums(v0.albums.take(i + 1), ktv));
                }
            }
            i = i + 1;
        }
        proof {
            assert(v0.albums.take(self.albums.len() as int) =~= v0.albums);
        }
        // surviving memberships
        let mut kent: Vec<PlaylistEntry> = Vec::new();
        let mut i: usize = 0;
        while i < self.entries.len()
            invariant
                i <= self.entries.len(),
                self@ == v0,
                v0.entries == self.entries.deep_view(),
                idv == ids.deep_view(),
                kent@.len() <= i,
                kent.deep_view() =~= keep_entries(v0.entries.take(i as int), idv),
            decreases self.entries.len() - i,
        {
            proof {
                assert(v0.entries.take(i + 1).drop_last() =~= v0.entries.take(i as int));
                assert(v0.entries.take(i + 1).last() == v0.entries[i as int]);
            }
            if !contains_string(ids, self.entries[i].track_id.as_str()) {
                let ghost rprev = kent.deep_view();
                kent.push(self.entries[i].duplicate());
                proof {
                    assert(kent.deep_view() =~= rprev.push(v0.entries[i as int]));
                }
            }
            i = i + 1;
        }
        proof {
            assert(v0.entries.take(self.entries.len() as int) =~= v0.entries);
        }
        let ghost kev = keep_entries(v0.entries, idv);
        // close the gaps the removals left: each position becomes its rank
        let mut nent: Vec<PlaylistEntry> = Vec::new();
        let mut i: usize = 0;
        while i < kent.len()
            invariant
                i <= kent.len(),
                kent.deep_view() == kev,
                nent@.len() == i,
                forall|x: int| 0 <= x < i ==> (#[trigger] nent@[x])@ == renumber_entries(kev)[x],
            decreases kent.len() - i,
        {
            let mut c: usize = 0;
            let mut j: usize = 0;
            while j < kent.len()
                invariant
                    j <= kent.len(),
                    c <= j,
                    i < kent@.len(),
                    kent.deep_view() == kev,
                    c == count_below(
                        kev.take(j as int),
                        kev[i as int].playlist,
                        kev[i as int].position,
                    ),
                decreases kent.len() - j,
            {
                proof {
                    assert(kev.take(j + 1).drop_last() =~= kev.take(j as int));
                    assert(kev.take(j + 1).last() == kev[j as int]);
                }
                if kent[j].playlist == kent[i].playlist && kent[j].position < kent[i].position {
                    c = c + 1;
                }
                j = j + 1;
            }
            proof {
                assert(kev.take(kent.len() as int) =~= kev);
            }
            let ne = PlaylistEntry {
                playlist: kent[i].playlist.clone(),
                track_id: kent[i].track_id.clone(),
                position: c,
            };
            nent.push(ne);
            i = i + 1;
        }
        // install the new rows
        let deleted = self.tracks.len() - kept.len();
        self.tracks = kept;
        self.albums = new_albums;
        self.entries = nent;
        proof {
            assert(self@.entries =~= renumber_entries(kev));
            assert(self@ =~= spec_delete_tracks(v0, idv));
            lemma_delete_tracks_wf(v0, idv);
            lemma_keep_tracks_mem(v0.tracks, idv);
        }
        deleted as u64
    }
}

} // verus!
