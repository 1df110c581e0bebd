//! Helpers on path strings: file name, directory prefix, extension and
//! ASCII lowercasing, each with an exact specification.  Paths are plain
//! strings with `/` as the separator; the filesystem itself is never
//! touched here.

use vstd::prelude::*;
use vstd::string::StrSliceExecFns;
use vstd::string::StringExecFns;

verus! {

/// The file name of a path: everything after the last separator, the whole
/// path when it has none.
pub open spec fn spec_base_name(p: Seq<char>) -> Seq<char>
    decreases p.len(),
{
    if p.len() == 0 {
        p
    } else if p.last() == '/' {
        Seq::empty()
    } else {
        spec_base_name(p.drop_last()).push(p.last())
    }
}

pub proof fn lemma_base_name_len(p: Seq<char>)
    ensures
        spec_base_name(p).len() <= p.len(),
    decreases p.len(),
{
    if p.len() > 0 && p.last() != '/' {
        lemma_base_name_len(p.drop_last());
    }
}

/// The directory part of a path, up to and including the last separator;
/// empty when the path has none.
pub open spec fn spec_dir_prefix(p: Seq<char>) -> Seq<char> {
    p.subrange(0, p.len() - spec_base_name(p).len())
}

/// The extension of a file name: everything after the last dot, unless the
/// name has no dot or only its leading character is one.
pub open spec fn spec_after_last_dot(s: Seq<char>) -> Option<Seq<char>>
    decreases s.len(),
{
    if s.len() == 0 {
        None
    } else if s.last() == '.' {
        if s.len() == 1 {
            None
        } else {
            Some(Seq::empty())
        }
    } else {
        match spec_after_last_dot(s.drop_last()) {
            Some(e) => Some(e.push(s.last())),
            None => None,
        }
    }
}

/// The extension of a path's file name.
pub open spec fn spec_extension(p: Seq<char>) -> Option<Seq<char>> {
    spec_after_last_dot(spec_base_name(p))
}

/// ASCII lowercasing of one character.
pub open spec fn spec_lower_char(c: char) -> char {
    if 'A' <= c && c <= 'Z' {
        ((c as u32) + 32) as char
    } else {
        c
    }
}

/// ASCII lowercasing of a string.
pub open spec fn spec_lower(s: Seq<char>) -> Seq<char> {
    s.map_values(|c: char| spec_lower_char(c))
}

/// Index where the file name of `path` starts.
fn base_start(path: &str) -> (cut: usize)
    ensures
        cut <= path@.len(),
        spec_base_name(path@) == path@.subrange(cut as int, path@.len() as int),
        spec_dir_prefix(path@) == path@.subrange(0, cut as int),
{
    let n = path.unicode_len();
    let mut cut: usize = 0;
    let mut i: usize = 0;
    while i < n
        invariant
            i <= n,
            cut <= i,
            n == path@.len(),
            spec_base_name(path@.take(i as int)) =~= path@.subrange(cut as int, i as int),
        decreases n - i,
    {
        proof {
            assert(path@.take(i + 1).drop_last() =~= path@.take(i as int));
            assert(path@.take(i + 1).last() == path@[i as int]);
        }
        let c = path.get_char(i);
        if c == '/' {
            cut = i + 1;
            proof {
                assert(spec_base_name(path@.take(i + 1)) =~= path@.subrange(
                    i + 1,
                    i + 1,
                ));
            }
        } else {
            proof {
                assert(spec_base_name(path@.take(i + 1)) =~= path@.subrange(
                    cut as int,
                    i + 1,
                ));
            }
        }
        i = i + 1;
    }
    proof {
        assert(path@.take(n as int) =~= path@);
        assert(spec_dir_prefix(path@) =~= path@.subrange(0, cut as int));
    }
    cut
}

/// The file name of a path.
pub fn base_name(path: &str) -> (r: String)
    ensures
        r@ == spec_base_name(path@),
{
    let cut = base_start(path);
    let n = path.unicode_len();
    path.substring_char(cut, n).to_owned()
}

/// The directory prefix of `path` with `name` appended: where a sibling
/// file of that name lives.
pub fn join_dir(path: &str, name: &str) -> (r: String)
    ensures
        r@ == spec_dir_prefix(path@) + name@,
{
    let cut = base_start(path);
    let mut r = path.substring_char(0, cut).to_owned();
    r.append(name);
    r
}

/// The extension of a path's file name.
pub fn extension(path: &str) -> (r: Option<String>)
    ensures
        match r {
            Some(e) => spec_extension(path@) == Some(e@),
            None => spec_extension(path@) is None,
        },
{
    let base = base_name(path);
    let b = base.as_str();
    let n = b.unicode_len();
    let mut dot: Option<usize> = None;
    let mut i: usize = 0;
    while i < n
        invariant
            i <= n,
            n == b@.len(),
            b@ == spec_base_name(path@),
            match dot {
                Some(d) => 0 < d < i && b@[d as int] == '.' && spec_after_last_dot(
                    b@.take(i as int),
                ) == Some(b@.subrange(d + 1, i as int)),
                None => spec_after_last_dot(b@.take(i as int)) is None,
            },
        decreases n - i,
    {
        proof {
            assert(b@.take(i + 1).drop_last() =~= b@.take(i as int));
            assert(b@.take(i + 1).last() == b@[i as int]);
        }
        let c = b.get_char(i);
        if c == '.' {
            if i > 0 {
                dot = Some(i);
                proof {
                    assert(spec_after_last_dot(b@.take(i + 1)) =~= Some(
                        b@.subrange(i + 1, i + 1),
                    ));
                }
            } else {
                dot = None;
            }
        } else {
            proof {
                if let Some(d) = dot {
                    assert(b@.subrange(d + 1, i as int).push(b@[i as int]) =~= b@.subrange(
                        d + 1,
                        i + 1,
                    ));
                }
            }
        }
        i = i + 1;
    }
    proof {
        assert(b@.take(n as int) =~= b@);
    }
    match dot {
        Some(d) => Some(b.substring_char(d + 1, n).to_owned()),
        None => None,
    }
}

/// One character, ASCII-lowercased.
pub fn lower_char(c: char) -> (r: char)
    ensures
        r == spec_lower_char(c),
{
    match c {
        'A' => 'a',
        'B' => 'b',
        'C' => 'c',
        'D' => 'd',
        'E' => 'e',
        'F' => 'f',
        'G' => 'g',
        'H' => 'h',
        'I' => 'i',
        'J' => 'j',
        'K' => 'k',
        'L' => 'l',
        'M' => 'm',
        'N' => 'n',
        'O' => 'o',
        'P' => 'p',
        'Q' => 'q',
        'R' => 'r',
        'S' => 's',
        'T' => 't',
        'U' => 'u',
        'V' => 'v',
        'W' => 'w',
        'X' => 'x',
        'Y' => 'y',
        'Z' => 'z',
        _ => c,
    }
}

/// Whether `s` lowercased equals `t` (with `t` already lowercase).
pub fn eq_lowered(s: &str, t: &str) -> (r: bool)
    ensures
        r == (spec_lower(s@) == t@),
{
    let ns = s.unicode_len();
    let nt = t.unicode_len();
    if ns != nt {
        proof {
            assert(spec_lower(s@).len() == s@.len());
        }
        return false;
    }
    let mut i: usize = 0;
    while i < ns
        invariant
            i <= ns,
            ns == s@.len(),
            ns == t@.len(),
            forall|j: int| 0 <= j < i ==> spec_lower(s@)[j] == t@[j],
        decreases ns - i,
    {
        let cs = lower_char(s.get_char(i));
        let ct = t.get_char(i);
        if cs != ct {
            proof {
                assert(spec_lower(s@)[i as int] != t@[i as int]);
            }
            return false;
        }
        i = i + 1;
    }
    proof {
        assert(spec_lower(s@) =~= t@);
    }
    true
}

} // verus!
