//! Data model of the catalog: tracks with their metadata, albums with
//! aggregate track counts, artists, genres and playlists, plus the error
//! type of the store operations.
//!
//! Each record type has a mathematical view (`@`) over sequences of
//! characters, which the contracts of the rest of the crate speak of.

use vstd::prelude::*;

verus! {

/// One indexed audio file.  `id` is derived from the file's path, so a
/// track is immutable once persisted; a moved file counts as a new track.
pub struct Track {
    pub id: String,
    pub path: String,
    pub metadata: Metadata,
    /// Duration in whole seconds.
    pub duration: u32,
}

/// Normalized tag metadata of one track.
pub struct Metadata {
    pub title: String,
    /// Effective display artist: the album artist when the tag has one,
    /// else the per-track artist.
    pub artist: String,
    /// Per-track artist, set only when it differs from `artist`.
    pub song_artist: Option<String>,
    pub album: String,
    pub track_number: Option<u32>,
    pub cd_number: Option<u32>,
    pub year: Option<u32>,
    pub genre: Option<String>,
    pub artwork_path: Option<String>,
}

/// One album row; `track_count` is the denormalized aggregate kept equal to
/// the number of persisted tracks whose derived album id matches `id`.
pub struct Album {
    pub id: String,
    pub title: String,
    pub artist: String,
    pub track_count: u32,
    pub artwork_path: Option<String>,
}

/// An artist row: the name is the unique key.
pub struct Artist {
    pub name: String,
}

/// A genre row: the name is the unique key.
pub struct Genre {
    pub name: String,
}

/// A playlist row: the title is the unique key.
pub struct Playlist {
    pub title: String,
}

/// Errors of the store operations.  Each operation states exactly on which
/// inputs it returns which variant; a failed operation leaves the store
/// unchanged.
#[derive(Clone, Copy, Debug, PartialEq, Eq, Structural)]
pub enum StoreError {
    /// An insert would break a uniqueness constraint.
    Duplicate,
    /// The named row does not exist.
    NotFound,
}

#[verifier::ext_equal]
pub ghost struct MetadataView {
    pub title: Seq<char>,
    pub artist: Seq<char>,
    pub song_artist: Option<Seq<char>>,
    pub album: Seq<char>,
    pub track_number: Option<u32>,
    pub cd_number: Option<u32>,
    pub year: Option<u32>,
    pub genre: Option<Seq<char>>,
    pub artwork_path: Option<Seq<char>>,
}

#[verifier::ext_equal]
pub ghost struct TrackView {
    pub id: Seq<char>,
    pub path: Seq<char>,
    pub metadata: MetadataView,
    pub duration: u32,
}

#[verifier::ext_equal]
pub ghost struct AlbumView {
    pub id: Seq<char>,
    pub title: Seq<char>,
    pub artist: Seq<char>,
    pub track_count: u32,
    pub artwork_path: Option<Seq<char>>,
}

impl View for Metadata {
    type V = MetadataView;

    open spec fn view(&self) -> MetadataView {
        MetadataView {
            title: self.title@,
            artist: self.artist@,
            song_artist: self.song_artist.deep_view(),
            album: self.album@,
            track_number: self.track_number,
            cd_number: self.cd_number,
            year: self.year,
            genre: self.genre.deep_view(),
            artwork_path: self.artwork_path.deep_view(),
        }
    }
}

impl View for Track {
    type V = TrackView;

    open spec fn view(&self) -> TrackView {
        TrackView {
            id: self.id@,
            path: self.path@,
            metadata: self.metadata@,
            duration: self.duration,
        }
    }
}

impl View for Album {
    type V = AlbumView;

    open spec fn view(&self) -> AlbumView {
        AlbumView {
            id: self.id@,
            title: self.title@,
            artist: self.artist@,
            track_count: self.track_count,
            artwork_path: self.artwork_path.deep_view(),
        }
    }
}

impl View for Artist {
    type V = Seq<char>;

    open spec fn view(&self) -> Seq<char> {
        self.name@
    }
}

impl View for Genre {
    type V = Seq<char>;

    open spec fn view(&self) -> Seq<char> {
        self.name@
    }
}

impl View for Playlist {
    type V = Seq<char>;

    open spec fn view(&self) -> Seq<char> {
        self.title@
    }
}

impl DeepView for Metadata {
    type V = MetadataView;

    open spec fn deep_view(&self) -> MetadataView {
        self@
    }
}

impl DeepView for Track {
    type V = TrackView;

    open spec fn deep_view(&self) -> TrackView {
        self@
    }
}

impl DeepView for Album {
    type V = AlbumView;

    open spec fn deep_view(&self) -> AlbumView {
        self@
    }
}

impl DeepView for Artist {
    type V = Seq<char>;

    open spec fn deep_view(&self) -> Seq<char> {
        self@
    }
}

impl DeepView for Genre {
    type V = Seq<char>;

    open spec fn deep_view(&self) -> Seq<char> {
        self@
    }
}

impl DeepView for Playlist {
    type V = Seq<char>;

    open spec fn deep_view(&self) -> Seq<char> {
        self@
    }
}

/// Whether `v` holds a string whose characters are `name`.
pub fn contains_string(v: &Vec<String>, name: &str) -> (r: bool)
    ensures
        r == v.deep_view().contains(name@),
{
    let n = name.to_owned();
    let mut i: usize = 0;
    while i < v.len()
        invariant
            i <= v.len(),
            n@ == name@,
            forall|j: int| 0 <= j < i ==> #[trigger] v.deep_view()[j] != name@,
        decreases v.len() - i,
    {
        if v[i] == n {
            proof {
                assert(v.deep_view()[i as int] == name@);
            }
            return true;
        }
        i = i + 1;
    }
    proof {
        if v.deep_view().contains(name@) {
            let j = choose|j: int| 0 <= j < v.deep_view().len() && v.deep_view()[j] == name@;
            assert(v.deep_view()[j] != name@);
        }
    }
    false
}

impl Metadata {
    /// Field-by-field copy; derived `Clone` would say nothing of the result.
    pub fn duplicate(&self) -> (r: Metadata)
        ensures
            r@ == self@,
    {
        Metadata {
            title: self.title.clone(),
            artist: self.artist.clone(),
            song_artist: clone_opt_string(&self.song_artist),
            album: self.album.clone(),
            track_number: self.track_number,
            cd_number: self.cd_number,
            year: self.year,
            genre: clone_opt_string(&self.genre),
            artwork_path: clone_opt_string(&self.artwork_path),
        }
    }
}

impl Track {
    pub fn duplicate(&self) -> (r: Track)
        ensures
            r@ == self@,
    {
        Track {
            id: self.id.clone(),
            path: self.path.clone(),
            metadata: self.metadata.duplicate(),
            duration: self.duration,
        }
    }
}

impl Album {
    pub fn duplicate(&self) -> (r: Album)
        ensures
            r@ == self@,
    {
        Album {
            id: self.id.clone(),
            title: self.title.clone(),
            artist: self.artist.clone(),
            track_count: self.track_count,
            artwork_path: clone_opt_string(&self.artwork_path),
        }
    }
}

/// Copy of an optional string, known to keep its view.
pub fn clone_opt_string(s: &Option<String>) -> (r: Option<String>)
    ensures
        r.deep_view() == s.deep_view(),
{
    match s {
        Some(x) => Some(x.clone()),
        None => None,
    }
}

impl Default for Metadata {
    /// The fallback metadata of a file whose tag container has no usable
    /// tag: placeholder title, artist and album, everything else absent.
    fn default() -> (r: Metadata)
        ensures
            r@.title == "No Name"@,
            r@.artist == "Unknown Artist"@,
            r@.album == "Unknown Album"@,
            r@.song_artist is None,
            r@.track_number is None,
            r@.cd_number is None,
            r@.year is None,
            r@.genre is None,
            r@.artwork_path is None,
    {
        Metadata {
            title: "No Name".to_owned(),
            artist: "Unknown Artist".to_owned(),
            song_artist: None,
            album: "Unknown Album".to_owned(),
            track_number: None,
            cd_number: None,
            year: None,
            genre: None,
            artwork_path: None,
        }
    }
}

} // verus!
