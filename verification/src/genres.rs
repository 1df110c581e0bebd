//! Genre normalization.
//!
//! Some tags store a genre as a legacy numeric code wrapped in parentheses,
//! `"Pop(13)"`.  Decoding collects the characters between parentheses,
//! parses them as an index into the fixed standard genre table and
//! substitutes the table's name; when parsing or the lookup fails, the
//! stored string is kept verbatim.

use vstd::prelude::*;
use vstd::string::StrSliceExecFns;

verus! {

/// Name at index `i` of the standard genre table.
pub uninterp spec fn genre_table_name(i: nat) -> Seq<char>;

/// Relies on lofty's `id3::v1::GENRES`: a fixed table of 192 genre names;
/// `get` is an indexed lookup with no other effect.
#[verifier::external_body]
pub(crate) fn genre_table_lookup(i: usize) -> (r: Option<String>)
    ensures
        r is Some <==> i < 192,
        r matches Some(s) ==> s@ == genre_table_name(i as nat),
{
    lofty::id3::v1::GENRES.get(i).map(|name| (*name).to_string())
}

pub open spec fn is_ascii_digit(c: char) -> bool {
    48 <= (c as u32) && (c as u32) <= 57
}

pub open spec fn digit_val(c: char) -> nat {
    ((c as u32) - ('0' as u32)) as nat
}

pub open spec fn all_digits(s: Seq<char>) -> bool {
    forall|i: int| 0 <= i < s.len() ==> is_ascii_digit(#[trigger] s[i])
}

/// Value of a digit string, most significant first.
pub open spec fn digits_val(s: Seq<char>) -> nat
    decreases s.len(),
{
    if s.len() == 0 {
        0
    } else {
        digits_val(s.drop_last()) * 10 + digit_val(s.last())
    }
}

/// Integer parsing accepts one optional leading plus sign.
pub open spec fn spec_digits_of(s: Seq<char>) -> Seq<char> {
    if s.len() > 0 && s[0] == '+' {
        s.drop_first()
    } else {
        s
    }
}

/// The characters collected between parentheses, in order: a `(` starts
/// collecting, a `)` stops it.
pub open spec fn spec_collect_state(s: Seq<char>) -> (Seq<char>, bool)
    decreases s.len(),
{
    if s.len() == 0 {
        (Seq::empty(), false)
    } else {
        let st = spec_collect_state(s.drop_last());
        let c = s.last();
        if c == '(' {
            (st.0, true)
        } else if c == ')' {
            (st.0, false)
        } else if st.1 {
            (st.0.push(c), true)
        } else {
            st
        }
    }
}

pub open spec fn spec_collected(g: Seq<char>) -> Seq<char> {
    spec_collect_state(g).0
}

/// The decoded genre: the table's name when the collected characters parse
/// as an index the table has, else the stored string unchanged.
pub open spec fn spec_decode_genre(g: Seq<char>) -> Seq<char> {
    let d = spec_digits_of(spec_collected(g));
    if d.len() > 0 && all_digits(d) && digits_val(d) < 192 {
        genre_table_name(digits_val(d))
    } else {
        g
    }
}

/// Parse the collected characters as a table index.  An index at or past
/// the table's end need not be exact: no lookup can succeed for it.
pub(crate) fn parse_genre_index(s: &Vec<char>) -> (r: Option<usize>)
    ensures
        match r {
            Some(v) => {
                let d = spec_digits_of(s@);
                &&& d.len() > 0
                &&& all_digits(d)
                &&& digits_val(d) < 192 ==> v as nat == digits_val(d)
                &&& digits_val(d) >= 192 ==> v >= 192
            },
            None => {
                let d = spec_digits_of(s@);
                d.len() == 0 || !all_digits(d)
            },
        },
{
    let ghost d = spec_digits_of(s@);
    let start: usize = if s.len() > 0 && s[0] == '+' {
        1
    } else {
        0
    };
    proof {
        if start == 1 {
            assert(d =~= s@.drop_first());
        } else {
            assert(d =~= s@);
        }
    }
    if start == s.len() {
        return None;
    }
    let mut acc: usize = 0;
    let mut j: usize = start;
    while j < s.len()
        invariant
            start <= j <= s.len(),
            s@.len() <= usize::MAX,
            d == spec_digits_of(s@),
            d =~= s@.subrange(start as int, s@.len() as int),
            acc < 2000,
            all_digits(d.take(j - start)),
            digits_val(d.take(j - start)) < 192 ==> acc == digits_val(d.take(j - start)),
            digits_val(d.take(j - start)) >= 192 ==> acc >= 192,
        decreases s.len() - j,
    {
        let c = s[j];
        let cv = c as u32;
        if cv < 48 || cv > 57 {
            proof {
                assert(d[j - start] == s@[j as int]);
                assert(!is_ascii_digit(d[j - start]));
                assert(!all_digits(d));
            }
            return None;
        }
        let dv = (cv - 48) as usize;
        proof {
            let k = j - start;
            assert(d.take(k + 1).drop_last() =~= d.take(k as int));
            assert(d.take(k + 1).last() == d[k as int]);
            assert(d[k as int] == s@[j as int]);
            assert(digit_val(d[k as int]) == dv as nat);
        }
        if acc < 192 {
            acc = acc * 10 + dv;
        }
        j = j + 1;
    }
    proof {
        assert(d.take(s@.len() - start) =~= d);
    }
    Some(acc)
}

/// The decoded genre of a stored genre string.
pub fn process_genre(g: &str) -> (r: String)
    ensures
        r@ == spec_decode_genre(g@),
{
    let n = g.unicode_len();
    let mut num: Vec<char> = Vec::new();
    let mut started = false;
    let mut i: usize = 0;
    while i < n
        invariant
            i <= n,
            n == g@.len(),
            num@ == spec_collect_state(g@.take(i as int)).0,
            started == spec_collect_state(g@.take(i as int)).1,
        decreases n - i,
    {
        proof {
            assert(g@.take(i + 1).drop_last() =~= g@.take(i as int));
            assert(g@.take(i + 1).last() == g@[i as int]);
        }
        let c = g.get_char(i);
        if c == '(' {
            started = true;
        } else if c == ')' {
            started = false;
        } else if started {
            num.push(c);
        }
        i = i + 1;
    }
    proof {
        assert(g@.take(n as int) =~= g@);
        assert(num@ == spec_collected(g@));
    }
    match parse_genre_index(&num) {
        Some(v) => match genre_table_lookup(v) {
            Some(name) => name,
            None => g.to_owned(),
        },
        None => g.to_owned(),
    }
}

} // verus!
