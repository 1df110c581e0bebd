//! Identity derivation: deterministic, content-path-based identifiers.
//!
//! A track's id is the hash of its absolute path (not of the audio bytes:
//! a moved file counts as a new track), an album's id the hash of
//! `"<artist> - <album>"`.  Both are pure functions of their inputs, which
//! the store relies on for dedupe and for its aggregate keys.

use vstd::prelude::*;
use vstd::string::StringExecFns;

verus! {

/// The lowercase hexadecimal MD5 digest of a string: a function of the
/// characters alone.
pub uninterp spec fn md5_hex(s: Seq<char>) -> Seq<char>;

/// Relies on md5::compute and the digest's lowercase-hex display: the
/// digest depends on the input bytes alone and is written as 32 hex
/// digits, two per digest byte.
#[verifier::external_body]
fn md5_hex_str(s: &str) -> (r: String)
    ensures
        r@ == md5_hex(s@),
        r@.len() == 32,
{
    let digest = md5::compute(s.as_bytes());
    format!("{:x}", digest)
}

/// A track's id: the digest of its path.
pub open spec fn spec_track_id(path: Seq<char>) -> Seq<char> {
    md5_hex(path)
}

/// The album key a track contributes to: `"<artist> - <album>"`.
pub open spec fn spec_album_key(artist: Seq<char>, album: Seq<char>) -> Seq<char> {
    artist + " - "@ + album
}

/// An album's id: the digest of its key.
pub open spec fn spec_album_id(artist: Seq<char>, album: Seq<char>) -> Seq<char> {
    md5_hex(spec_album_key(artist, album))
}

pub fn track_id(path: &str) -> (r: String)
    ensures
        r@ == spec_track_id(path@),
        r@.len() == 32,
{
    md5_hex_str(path)
}

pub fn album_id(artist: &str, album: &str) -> (r: String)
    ensures
        r@ == spec_album_id(artist@, album@),
        r@.len() == 32,
{
    let mut key = artist.to_owned();
    key.append(" - ");
    key.append(album);
    proof {
        assert(key@ == spec_album_key(artist@, album@));
    }
    md5_hex_str(key.as_str())
}

} // verus!
