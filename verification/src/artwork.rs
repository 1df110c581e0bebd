//! Album artwork resolution.
//!
//! When an album needs artwork for a track, the track's directory is
//! searched for a conventional cover file first; failing that, the track's
//! own embedded artwork is used, but only for track number one.  The
//! directory listing is handed in by the caller; nothing here touches the
//! filesystem.

use vstd::prelude::*;
use crate::models::clone_opt_string;
use crate::models::contains_string;
use crate::models::Track;
use crate::models::TrackView;
use crate::paths::join_dir;
use crate::paths::spec_dir_prefix;

verus! {

/// The first conventional cover-file name present among the siblings, in
/// the fixed preference order.
pub open spec fn spec_first_cover(sib: Seq<Seq<char>>) -> Option<Seq<char>> {
    if sib.contains("cover.png"@) {
        Some("cover.png"@)
    } else if sib.contains("artwork.png"@) {
        Some("artwork.png"@)
    } else if sib.contains("folder.png"@) {
        Some("folder.png"@)
    } else if sib.contains("cover.jpg"@) {
        Some("cover.jpg"@)
    } else if sib.contains("artwork.jpg"@) {
        Some("artwork.jpg"@)
    } else if sib.contains("folder.jpg"@) {
        Some("folder.jpg"@)
    } else {
        None
    }
}

/// The artwork a track offers its album: a conventional cover file beside
/// it, else its own embedded artwork when it is track number one.
pub open spec fn spec_get_artwork(t: TrackView, siblings: Seq<Seq<char>>) -> Option<Seq<char>> {
    match spec_first_cover(siblings) {
        Some(name) => Some(spec_dir_prefix(t.path) + name),
        None => if t.metadata.track_number == Some(1u32) {
            t.metadata.artwork_path
        } else {
            None
        },
    }
}

/// Resolve the artwork a track offers its album, given the names of the
/// files in the track's directory.
pub fn get_artwork(track: &Track, siblings: &Vec<String>) -> (r: Option<String>)
    ensures
        r.deep_view() == spec_get_artwork(track@, siblings.deep_view()),
{
    let path = track.path.as_str();
    if contains_string(siblings, "cover.png") {
        Some(join_dir(path, "cover.png"))
    } else if contains_string(siblings, "artwork.png") {
        Some(join_dir(path, "artwork.png"))
    } else if contains_string(siblings, "folder.png") {
        Some(join_dir(path, "folder.png"))
    } else if contains_string(siblings, "cover.jpg") {
        Some(join_dir(path, "cover.jpg"))
    } else if contains_string(siblings, "artwork.jpg") {
        Some(join_dir(path, "artwork.jpg"))
    } else if contains_string(siblings, "folder.jpg") {
        Some(join_dir(path, "folder.jpg"))
    } else {
        match track.metadata.track_number {
            Some(n) => if n == 1 {
                clone_opt_string(&track.metadata.artwork_path)
            } else {
                None
            },
            None => None,
        }
    }
}

} // verus!
