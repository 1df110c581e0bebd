//! Scan filtering: which directory entries belong to the library.
//!
//! The walk itself is the caller's: it hands each entry's name and path in
//! as strings.  Hidden components (leading dot) are pruned, and only files
//! whose extension belongs, case-insensitively, to the fixed allow-list of
//! audio container formats are kept.

use vstd::prelude::*;
use vstd::string::StrSliceExecFns;
use crate::paths::eq_lowered;
use crate::paths::extension;
use crate::paths::spec_extension;
use crate::paths::spec_lower;

verus! {

/// A path component is hidden when it starts with a dot.
pub open spec fn spec_is_hidden(name: Seq<char>) -> bool {
    name.len() > 0 && name[0] == '.'
}

pub fn is_hidden(name: &str) -> (r: bool)
    ensures
        r == spec_is_hidden(name@),
{
    if name.unicode_len() == 0 {
        false
    } else {
        name.get_char(0) == '.'
    }
}

/// The fixed allow-list of audio container extensions, matched after
/// lowercasing.
pub open spec fn spec_is_audio_ext(e: Seq<char>) -> bool {
    let l = spec_lower(e);
    ||| l == "m4a"@
    ||| l == "aac"@
    ||| l == "ape"@
    ||| l == "aif"@
    ||| l == "aiff"@
    ||| l == "aifc"@
    ||| l == "flac"@
    ||| l == "mp3"@
    ||| l == "ogg"@
    ||| l == "wav"@
}

/// A file belongs to the scan exactly when its extension is one of the
/// audio container formats.
pub open spec fn spec_is_audio_path(p: Seq<char>) -> bool {
    match spec_extension(p) {
        Some(e) => spec_is_audio_ext(e),
        None => false,
    }
}

pub fn is_audio_path(path: &str) -> (r: bool)
    ensures
        r == spec_is_audio_path(path@),
{
    match extension(path) {
        Some(e) => {
            let s = e.as_str();
            eq_lowered(s, "m4a") || eq_lowered(s, "aac") || eq_lowered(s, "ape") || eq_lowered(
                s,
                "aif",
            ) || eq_lowered(s, "aiff") || eq_lowered(s, "aifc") || eq_lowered(s, "flac")
                || eq_lowered(s, "mp3") || eq_lowered(s, "ogg") || eq_lowered(s, "wav")
        },
        None => false,
    }
}

} // verus!
