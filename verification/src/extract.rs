//! Normalization of raw tag fields into track metadata.
//!
//! The caller reads a file's tag container and hands the raw optional
//! fields in; everything here is the derivation rules: title falls back to
//! the file name, the effective artist is the album artist or else the
//! per-track artist, the per-track artist is kept only when it differs,
//! and a legacy numeric genre is decoded against the standard table.  A
//! file whose container has no usable tag gets placeholder metadata, with
//! the file name as its title.

use vstd::prelude::*;
use crate::genres::process_genre;
use crate::genres::spec_decode_genre;
use crate::models::Metadata;
use crate::models::MetadataView;
use crate::models::Track;
use crate::models::TrackView;
use crate::paths::base_name;
use crate::paths::spec_base_name;

verus! {

/// The raw fields of one tag container, as the reader found them.
pub struct RawTag {
    pub title: Option<String>,
    pub artist: Option<String>,
    pub album_artist: Option<String>,
    pub album: Option<String>,
    pub genre: Option<String>,
    pub track_number: Option<u32>,
    pub cd_number: Option<u32>,
    pub year: Option<u32>,
}

#[verifier::ext_equal]
pub ghost struct RawTagView {
    pub title: Option<Seq<char>>,
    pub artist: Option<Seq<char>>,
    pub album_artist: Option<Seq<char>>,
    pub album: Option<Seq<char>>,
    pub genre: Option<Seq<char>>,
    pub track_number: Option<u32>,
    pub cd_number: Option<u32>,
    pub year: Option<u32>,
}

impl View for RawTag {
    type V = RawTagView;

    open spec fn view(&self) -> RawTagView {
        RawTagView {
            title: self.title.deep_view(),
            artist: self.artist.deep_view(),
            album_artist: self.album_artist.deep_view(),
            album: self.album.deep_view(),
            genre: self.genre.deep_view(),
            track_number: self.track_number,
            cd_number: self.cd_number,
            year: self.year,
        }
    }
}

impl DeepView for RawTag {
    type V = RawTagView;

    open spec fn deep_view(&self) -> RawTagView {
        self@
    }
}

/// A present-but-empty field counts as absent.
pub open spec fn spec_nonempty(o: Option<Seq<char>>) -> Option<Seq<char>> {
    match o {
        Some(s) => if s.len() == 0 {
            None
        } else {
            Some(s)
        },
        None => None,
    }
}

/// The effective display artist: the album artist when the tag has one,
/// else the per-track artist, else empty.
pub open spec fn spec_effective_artist(
    album_artist: Option<Seq<char>>,
    track_artist: Option<Seq<char>>,
) -> Seq<char> {
    match album_artist {
        Some(a) => a,
        None => match track_artist {
            Some(s) => s,
            None => Seq::empty(),
        },
    }
}

/// The per-track artist is recorded only when both artists are present and
/// differ; otherwise it would repeat the effective artist.
pub open spec fn spec_song_artist(
    album_artist: Option<Seq<char>>,
    track_artist: Option<Seq<char>>,
) -> Option<Seq<char>> {
    match album_artist {
        Some(a) => match track_artist {
            Some(s) => if s == a {
                None
            } else {
                Some(s)
            },
            None => None,
        },
        None => None,
    }
}

/// Metadata derived from a usable tag.
pub open spec fn spec_build_metadata(
    t: RawTagView,
    path: Seq<char>,
    artwork: Option<Seq<char>>,
) -> MetadataView {
    let aa = spec_nonempty(t.album_artist);
    let sa = spec_nonempty(t.artist);
    MetadataView {
        title: match spec_nonempty(t.title) {
            Some(s) => s,
            None => spec_base_name(path),
        },
        artist: spec_effective_artist(aa, sa),
        song_artist: spec_song_artist(aa, sa),
        album: match spec_nonempty(t.album) {
            Some(s) => s,
            None => Seq::empty(),
        },
        track_number: t.track_number,
        cd_number: t.cd_number,
        year: t.year,
        genre: match spec_nonempty(t.genre) {
            Some(g) => Some(spec_decode_genre(g)),
            None => None,
        },
        artwork_path: artwork,
    }
}

/// The placeholder metadata of a file without a usable tag.
pub open spec fn spec_untagged_metadata(path: Seq<char>) -> MetadataView {
    MetadataView {
        title: spec_base_name(path),
        artist: "Unknown Artist"@,
        song_artist: None,
        album: "Unknown Album"@,
        track_number: None,
        cd_number: None,
        year: None,
        genre: None,
        artwork_path: None,
    }
}

/// The track a file yields, given its raw tag (if its container had one),
/// its duration in whole seconds and the path of its cached embedded
/// artwork (if a picture was embedded and cached).
pub open spec fn spec_build_track(
    id: Seq<char>,
    path: Seq<char>,
    tag: Option<RawTagView>,
    duration: u32,
    artwork: Option<Seq<char>>,
) -> TrackView {
    match tag {
        Some(t) => TrackView {
            id,
            path,
            duration,
            metadata: spec_build_metadata(t, path, artwork),
        },
        None => TrackView { id, path, duration, metadata: spec_untagged_metadata(path) },
    }
}

/// `None` for an empty string, the string itself otherwise.
pub fn none_if_empty(x: String) -> (r: Option<String>)
    ensures
        r.deep_view() == spec_nonempty(Some(x@)),
{
    if x.as_str().is_empty() {
        None
    } else {
        Some(x)
    }
}

fn opt_nonempty(o: Option<String>) -> (r: Option<String>)
    ensures
        r.deep_view() == spec_nonempty(o.deep_view()),
{
    match o {
        Some(s) => none_if_empty(s),
        None => None,
    }
}

/// Build the normalized track for one scanned file.
pub fn build_track(
    id: String,
    path: String,
    tag: Option<RawTag>,
    duration: u32,
    artwork_path: Option<String>,
) -> (r: Track)
    ensures
        r@ == spec_build_track(id@, path@, tag.deep_view(), duration, artwork_path.deep_view()),
{
    match tag {
        Some(t) => {
            let aa = opt_nonempty(t.album_artist);
            let sa = opt_nonempty(t.artist);
            let artist: String = match &aa {
                Some(a) => a.clone(),
                None => match &sa {
                    Some(s) => s.clone(),
                    None => String::new(),
                },
            };
            let song_artist: Option<String> = match (aa, sa) {
                (Some(a), Some(s)) => if s == a {
                    None
                } else {
                    Some(s)
                },
                _ => None,
            };
            let title: String = match opt_nonempty(t.title) {
                Some(s) => s,
                None => base_name(path.as_str()),
            };
            let album: String = match opt_nonempty(t.album) {
                Some(s) => s,
                None => String::new(),
            };
            let genre: Option<String> = match opt_nonempty(t.genre) {
                Some(g) => Some(process_genre(g.as_str())),
                None => None,
            };
            Track {
                id,
                path,
                duration,
                metadata: Metadata {
                    title,
                    artist,
                    song_artist,
                    album,
                    track_number: t.track_number,
                    cd_number: t.cd_number,
                    year: t.year,
                    genre,
                    artwork_path,
                },
            }
        },
        None => {
            let title = base_name(path.as_str());
            Track {
                id,
                path,
                duration,
                metadata: Metadata {
                    title,
                    artist: "Unknown Artist".to_owned(),
                    song_artist: None,
                    album: "Unknown Album".to_owned(),
                    track_number: None,
                    cd_number: None,
                    year: None,
                    genre: None,
                    artwork_path: None,
                },
            }
        },
    }
}

} // verus!
