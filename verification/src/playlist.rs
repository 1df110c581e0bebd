//! Ordered playlist membership.
//!
//! A playlist's memberships form a relation of (playlist, track id,
//! position) rows.  The well-formedness predicate [`wf_entries`] says that
//! within one playlist no position and no track occurs twice and that every
//! position is below the playlist's member count; together with
//! [`lemma_positions_complete`] this means the positions of a playlist with
//! `N` members are exactly `0 .. N-1`, each exactly once.
//!
//! Inserting shifts every position at or above the insertion point up by
//! one; removing shifts every position above the removed one down by one.
//! Both transitions are spec functions here, and both preserve
//! well-formedness.

use vstd::prelude::*;
use crate::models::StoreError;
use vstd::set_lib::lemma_int_range;
use vstd::set_lib::lemma_subset_equality;
use vstd::set_lib::set_int_range;

verus! {

/// One playlist membership row.
pub struct PlaylistEntry {
    pub playlist: String,
    pub track_id: String,
    pub position: usize,
}

#[verifier::ext_equal]
pub ghost struct EntryView {
    pub playlist: Seq<char>,
    pub track_id: Seq<char>,
    pub position: nat,
}

impl View for PlaylistEntry {
    type V = EntryView;

    open spec fn view(&self) -> EntryView {
        EntryView {
            playlist: self.playlist@,
            track_id: self.track_id@,
            position: self.position as nat,
        }
    }
}

impl DeepView for PlaylistEntry {
    type V = EntryView;

    open spec fn deep_view(&self) -> EntryView {
        self@
    }
}

impl PlaylistEntry {
    pub fn duplicate(&self) -> (r: PlaylistEntry)
        ensures
            r@ == self@,
    {
        PlaylistEntry {
            playlist: self.playlist.clone(),
            track_id: self.track_id.clone(),
            position: self.position,
        }
    }
}

/// Number of memberships of playlist `p`.
pub open spec fn member_count(s: Seq<EntryView>, p: Seq<char>) -> nat
    decreases s.len(),
{
    if s.len() == 0 {
        0
    } else {
        member_count(s.drop_last(), p) + if s.last().playlist == p {
            1nat
        } else {
            0nat
        }
    }
}

/// Number of memberships of playlist `p` at position `pos` or above.
pub open spec fn count_at_or_above(s: Seq<EntryView>, p: Seq<char>, pos: nat) -> nat
    decreases s.len(),
{
    if s.len() == 0 {
        0
    } else {
        count_at_or_above(s.drop_last(), p, pos) + if s.last().playlist == p
            && s.last().position >= pos {
            1nat
        } else {
            0nat
        }
    }
}

/// No playlist holds the same position or the same track twice.
pub open spec fn entries_distinct(s: Seq<EntryView>) -> bool {
    forall|i: int, j: int|
        0 <= i < j < s.len() && s[i].playlist == s[j].playlist ==> s[i].position != s[j].position
            && s[i].track_id != s[j].track_id
}

/// Every position is below its playlist's member count.
pub open spec fn entries_bounded(s: Seq<EntryView>) -> bool {
    forall|i: int|
        0 <= i < s.len() ==> (#[trigger] s[i]).position < member_count(s, s[i].playlist)
}

/// The ordering invariant of the membership relation.
pub open spec fn wf_entries(s: Seq<EntryView>) -> bool {
    entries_distinct(s) && entries_bounded(s)
}

/// First membership of `(p, tid)`, if any.
pub open spec fn find_entry(s: Seq<EntryView>, p: Seq<char>, tid: Seq<char>) -> Option<int>
    decreases s.len(),
{
    if s.len() == 0 {
        None
    } else if s.first().playlist == p && s.first().track_id == tid {
        Some(0int)
    } else {
        match find_entry(s.drop_first(), p, tid) {
            Some(i) => Some(i + 1),
            None => None,
        }
    }
}

/// The shift applied to one row when a row of playlist `p` is inserted at
/// position `pos`.
pub open spec fn shift_up_from(e: EntryView, p: Seq<char>, pos: nat) -> EntryView {
    if e.playlist == p && e.position >= pos {
        EntryView { playlist: e.playlist, track_id: e.track_id, position: e.position + 1 }
    } else {
        e
    }
}

/// The shift applied to one row when the row of playlist `p` at position
/// `pos` is removed.
pub open spec fn shift_down_above(e: EntryView, p: Seq<char>, pos: nat) -> EntryView {
    if e.playlist == p && e.position > pos {
        EntryView { playlist: e.playlist, track_id: e.track_id, position: (e.position - 1) as nat }
    } else {
        e
    }
}

/// Insertion of track `tid` into playlist `p` at position `req`; a request
/// past the end appends.
pub open spec fn spec_insert_entry(
    s: Seq<EntryView>,
    p: Seq<char>,
    tid: Seq<char>,
    req: nat,
) -> Seq<EntryView> {
    let n = member_count(s, p);
    let pos = if req > n {
        n
    } else {
        req
    };
    s.map_values(|e: EntryView| shift_up_from(e, p, pos)).push(
        EntryView { playlist: p, track_id: tid, position: pos },
    )
}

/// Removal of the row at index `i`, closing the gap it leaves in its
/// playlist.
pub open spec fn spec_remove_entry(s: Seq<EntryView>, i: int) -> Seq<EntryView> {
    let p = s[i].playlist;
    let pos = s[i].position;
    s.remove(i).map_values(|e: EntryView| shift_down_above(e, p, pos))
}

pub proof fn lemma_member_count_le(s: Seq<EntryView>, p: Seq<char>)
    ensures
        member_count(s, p) <= s.len(),
    decreases s.len(),
{
    if s.len() > 0 {
        lemma_member_count_le(s.drop_last(), p);
    }
}

pub proof fn lemma_member_count_push(s: Seq<EntryView>, e: EntryView, q: Seq<char>)
    ensures
        member_count(s.push(e), q) == member_count(s, q) + if e.playlist == q {
            1nat
        } else {
            0nat
        },
{
    assert(s.push(e).drop_last() =~= s);
    assert(s.push(e).last() == e);
}

pub proof fn lemma_member_count_singleton(e: EntryView, q: Seq<char>)
    ensures
        member_count(seq![e], q) == if e.playlist == q {
            1nat
        } else {
            0nat
        },
{
    assert(seq![e] =~= Seq::<EntryView>::empty().push(e));
    lemma_member_count_push(Seq::empty(), e, q);
}

pub proof fn lemma_member_count_concat(a: Seq<EntryView>, b: Seq<EntryView>, p: Seq<char>)
    ensures
        member_count(a + b, p) == member_count(a, p) + member_count(b, p),
    decreases b.len(),
{
    if b.len() == 0 {
        assert(a + b =~= a);
    } else {
        assert((a + b).drop_last() =~= a + b.drop_last());
        lemma_member_count_concat(a, b.drop_last(), p);
    }
}

pub proof fn lemma_member_count_map(
    s: Seq<EntryView>,
    f: spec_fn(EntryView) -> EntryView,
    p: Seq<char>,
)
    requires
        forall|e: EntryView| (#[trigger] f(e)).playlist == e.playlist,
    ensures
        member_count(s.map_values(f), p) == member_count(s, p),
    decreases s.len(),
{
    if s.len() == 0 {
        assert(s.map_values(f) =~= Seq::<EntryView>::empty());
    } else {
        assert(s.map_values(f).drop_last() =~= s.drop_last().map_values(f));
        lemma_member_count_map(s.drop_last(), f, p);
    }
}

/// What `find_entry` returns: the first index whose row matches, or `None`
/// when no row does.
pub proof fn lemma_find_entry(s: Seq<EntryView>, p: Seq<char>, tid: Seq<char>)
    ensures
        match find_entry(s, p, tid) {
            Some(i) => 0 <= i < s.len() && s[i].playlist == p && s[i].track_id == tid
                && forall|j: int|
                0 <= j < i ==> !((#[trigger] s[j]).playlist == p && s[j].track_id == tid),
            None => forall|j: int|
                0 <= j < s.len() ==> !((#[trigger] s[j]).playlist == p && s[j].track_id == tid),
        },
    decreases s.len(),
{
    if s.len() > 0 {
        let d = s.drop_first();
        if !(s.first().playlist == p && s.first().track_id == tid) {
            lemma_find_entry(d, p, tid);
            match find_entry(d, p, tid) {
                Some(i) => {
                    assert(s[i + 1] == d[i]);
                    assert forall|j: int|
                        0 <= j < i + 1 implies !((#[trigger] s[j]).playlist == p && s[j].track_id
                        == tid) by {
                        if j > 0 {
                            assert(d[j - 1] == s[j]);
                        } else {
                            assert(s[0] == s.first());
                        }
                    }
                },
                None => {
                    assert forall|j: int|
                        0 <= j < s.len() implies !((#[trigger] s[j]).playlist == p && s[j].track_id
                        == tid) by {
                        if j > 0 {
                            assert(d[j - 1] == s[j]);
                        } else {
                            assert(s[0] == s.first());
                        }
                    }
                },
            }
        }
    }
}

/// Inserting a new track preserves the ordering invariant, grows the
/// playlist by one member and leaves every other playlist alone.
pub proof fn lemma_insert_entry_wf(s: Seq<EntryView>, p: Seq<char>, tid: Seq<char>, req: nat)
    requires
        wf_entries(s),
        find_entry(s, p, tid) is None,
    ensures
        wf_entries(spec_insert_entry(s, p, tid, req)),
        member_count(spec_insert_entry(s, p, tid, req), p) == member_count(s, p) + 1,
        forall|q: Seq<char>|
            q != p ==> member_count(spec_insert_entry(s, p, tid, req), q) == member_count(s, q),
{
    lemma_find_entry(s, p, tid);
    let n = member_count(s, p);
    let pos: nat = if req > n {
        n
    } else {
        req
    };
    let f = |e: EntryView| shift_up_from(e, p, pos);
    let m = s.map_values(f);
    let out = spec_insert_entry(s, p, tid, req);
    let newe = EntryView { playlist: p, track_id: tid, position: pos };
    assert(out =~= m.push(newe));
    assert forall|q: Seq<char>| #[trigger]
        member_count(m, q) == member_count(s, q) by {
        lemma_member_count_map(s, f, q);
    }
    assert forall|q: Seq<char>| #[trigger]
        member_count(out, q) == member_count(s, q) + (if q == p {
        1int
    } else {
        0int
    }) by {
        lemma_member_count_push(m, newe, q);
    }
    lemma_member_count_le(s, p);
    assert(entries_distinct(out)) by {
        assert forall|i: int, j: int|
            0 <= i < j < out.len() && out[i].playlist == out[j].playlist implies out[i].position
            != out[j].position && out[i].track_id != out[j].track_id by {
            if j < s.len() {
                assert(out[i] == f(s[i]) && out[j] == f(s[j]));
            } else {
                assert(out[i] == f(s[i]) && out[j] == EntryView {
                    playlist: p,
                    track_id: tid,
                    position: pos,
                });
            }
        }
    }
    assert(entries_bounded(out)) by {
        assert forall|i: int| 0 <= i < out.len() implies (#[trigger] out[i]).position
            < member_count(out, out[i].playlist) by {
            assert(member_count(out, p) == member_count(m, p) + 1);
            if i < s.len() {
                assert(out[i] == f(s[i]));
                assert(s[i].position < member_count(s, s[i].playlist));
                if s[i].playlist == p {
                    assert(member_count(out, p) == n + 1);
                } else {
                    assert(member_count(out, out[i].playlist) == member_count(
                        s,
                        s[i].playlist,
                    ));
                }
            }
        }
    }
}

/// Removing a row preserves the ordering invariant, shrinks its playlist by
/// one member and leaves every other playlist alone.
pub proof fn lemma_remove_entry_wf(s: Seq<EntryView>, i: int)
    requires
        wf_entries(s),
        0 <= i < s.len(),
    ensures
        wf_entries(spec_remove_entry(s, i)),
        member_count(spec_remove_entry(s, i), s[i].playlist) == member_count(s, s[i].playlist)
            - 1,
        forall|q: Seq<char>|
            q != s[i].playlist ==> member_count(spec_remove_entry(s, i), q) == member_count(s, q),
{
    let p = s[i].playlist;
    let pos = s[i].position;
    let f = |e: EntryView| shift_down_above(e, p, pos);
    let rest = s.remove(i);
    let out = spec_remove_entry(s, i);
    assert(s =~= s.subrange(0, i) + seq![s[i]] + s.subrange(i + 1, s.len() as int));
    assert(rest =~= s.subrange(0, i) + s.subrange(i + 1, s.len() as int));
    assert forall|q: Seq<char>| #[trigger]
        member_count(rest, q) == member_count(s, q) - (if q == p {
        1int
    } else {
        0int
    }) by {
        lemma_member_count_concat(s.subrange(0, i) + seq![s[i]], s.subrange(i + 1, s.len() as int), q);
        lemma_member_count_concat(s.subrange(0, i), seq![s[i]], q);
        lemma_member_count_concat(s.subrange(0, i), s.subrange(i + 1, s.len() as int), q);
        lemma_member_count_singleton(s[i], q);
    }
    assert forall|q: Seq<char>| #[trigger]
        member_count(out, q) == member_count(rest, q) by {
        lemma_member_count_map(rest, f, q);
    }
    // every remaining row of playlist p sits at a position other than pos
    assert forall|k: int| 0 <= k < rest.len() implies !((#[trigger] rest[k]).playlist == p
        && rest[k].position == pos) by {
        if k < i {
            assert(rest[k] == s[k]);
        } else {
            assert(rest[k] == s[k + 1]);
        }
    }
    assert(entries_distinct(out)) by {
        assert forall|a: int, b: int|
            0 <= a < b < out.len() && out[a].playlist == out[b].playlist implies out[a].position
            != out[b].position && out[a].track_id != out[b].track_id by {
            assert(out[a] == f(rest[a]) && out[b] == f(rest[b]));
            let ia: int = if a < i {
                a
            } else {
                a + 1
            };
            let ib: int = if b < i {
                b
            } else {
                b + 1
            };
            assert(rest[a] == s[ia] && rest[b] == s[ib]);
        }
    }
    assert(entries_bounded(out)) by {
        lemma_member_count_le(s, p);
        assert forall|k: int| 0 <= k < out.len() implies (#[trigger] out[k]).position
            < member_count(out, out[k].playlist) by {
            assert(out[k] == f(rest[k]));
            let ik: int = if k < i {
                k
            } else {
                k + 1
            };
            assert(rest[k] == s[ik]);
            assert(s[ik].position < member_count(s, s[ik].playlist));
            if rest[k].playlist == p {
                assert(member_count(out, p) == member_count(s, p) - 1);
                assert(pos < member_count(s, p));
                if rest[k].position > pos {
                } else {
                    assert(rest[k].position < pos);
                }
            }
        }
    }
}

/// A playlist holds position `k`.
pub open spec fn has_position(s: Seq<EntryView>, p: Seq<char>, k: nat) -> bool {
    exists|i: int| 0 <= i < s.len() && (#[trigger] s[i]).playlist == p && s[i].position == k
}

/// The set of positions playlist `p` occupies.
pub open spec fn positions_of(s: Seq<EntryView>, p: Seq<char>) -> Set<int>
    decreases s.len(),
{
    if s.len() == 0 {
        Set::empty()
    } else {
        let r = positions_of(s.drop_last(), p);
        if s.last().playlist == p {
            r.insert(s.last().position as int)
        } else {
            r
        }
    }
}

pub proof fn lemma_positions_exact(s: Seq<EntryView>, p: Seq<char>)
    requires
        entries_distinct(s),
    ensures
        positions_of(s, p).finite(),
        positions_of(s, p).len() == member_count(s, p),
        forall|k: int|
            positions_of(s, p).contains(k) <==> (0 <= k && has_position(s, p, k as nat)),
    decreases s.len(),
{
    if s.len() > 0 {
        let s0 = s.drop_last();
        lemma_positions_exact(s0, p);
        assert forall|k: int|
            (0 <= k && #[trigger] has_position(s0, p, k as nat)) implies (0 <= k && has_position(
            s,
            p,
            k as nat,
        )) by {
            let i = choose|i: int|
                0 <= i < s0.len() && (#[trigger] s0[i]).playlist == p && s0[i].position
                    == k as nat;
            assert(s[i] == s0[i]);
        }
        assert forall|k: int|
            (0 <= k && #[trigger] has_position(s, p, k as nat)) implies (positions_of(s, p).contains(
            k,
        )) by {
            let i = choose|i: int|
                0 <= i < s.len() && (#[trigger] s[i]).playlist == p && s[i].position == k as nat;
            if i < s.len() - 1 {
                assert(s0[i] == s[i]);
                assert(has_position(s0, p, k as nat));
            }
        }
        if s.last().playlist == p {
            // the last row's position is new to the set, by distinctness
            assert(!positions_of(s0, p).contains(s.last().position as int)) by {
                if has_position(s0, p, s.last().position) {
                    let i = choose|i: int|
                        0 <= i < s0.len() && (#[trigger] s0[i]).playlist == p && s0[i].position
                            == s.last().position;
                    assert(s[i] == s0[i]);
                    assert(s[i].position != s[s.len() - 1].position);
                }
            }
        }
    }
}

/// Law: in a well-formed relation, a playlist with `N` members occupies
/// every position `0 .. N-1`; with the invariant's uniqueness and bound
/// clauses, its positions are exactly `{0, ..., N-1}`, each exactly once.
pub proof fn lemma_positions_complete(s: Seq<EntryView>, p: Seq<char>, k: nat)
    requires
        wf_entries(s),
        k < member_count(s, p),
    ensures
        has_position(s, p, k),
{
    let n = member_count(s, p) as int;
    let ps = positions_of(s, p);
    let range = set_int_range(0, n);
    lemma_positions_exact(s, p);
    lemma_int_range(0, n);
    assert forall|x: int| ps.contains(x) implies range.contains(x) by {
        let i = choose|i: int|
            0 <= i < s.len() && (#[trigger] s[i]).playlist == p && s[i].position == x as nat;
        assert(s[i].position < member_count(s, s[i].playlist));
    }
    lemma_subset_equality(ps, range);
    assert(ps.contains(k as int));
}

/// Number of memberships shifted by an insertion at `pos`: those of the
/// playlist at `pos` or above.
pub proof fn lemma_count_at_or_above_le(s: Seq<EntryView>, p: Seq<char>, pos: nat)
    ensures
        count_at_or_above(s, p, pos) <= member_count(s, p),
    decreases s.len(),
{
    if s.len() > 0 {
        lemma_count_at_or_above_le(s.drop_last(), p, pos);
    }
}

pub(crate) fn count_members(entries: &Vec<PlaylistEntry>, playlist: &String) -> (n: usize)
    ensures
        n == member_count(entries.deep_view(), playlist@),
{
    let ghost s = entries.deep_view();
    let mut n: usize = 0;
    let mut i: usize = 0;
    while i < entries.len()
        invariant
            i <= entries.len(),
            n <= i,
            s == entries.deep_view(),
            n == member_count(s.take(i as int), playlist@),
        decreases entries.len() - i,
    {
        proof {
            assert(s.take(i + 1).drop_last() =~= s.take(i as int));
            assert(s.take(i + 1).last() == s[i as int]);
        }
        if entries[i].playlist == *playlist {
            n = n + 1;
        }
        i = i + 1;
    }
    proof {
        assert(s.take(entries.len() as int) =~= s);
    }
    n
}

pub(crate) fn find_member(entries: &Vec<PlaylistEntry>, playlist: &String, track_id: &String) -> (r:
    Option<usize>)
    ensures
        match r {
            Some(i) => find_entry(entries.deep_view(), playlist@, track_id@) == Some(i as int),
            None => find_entry(entries.deep_view(), playlist@, track_id@) is None,
        },
{
    let ghost s = entries.deep_view();
    let mut i: usize = 0;
    while i < entries.len()
        invariant
            i <= entries.len(),
            s == entries.deep_view(),
            forall|j: int|
                0 <= j < i ==> !((#[trigger] s[j]).playlist == playlist@ && s[j].track_id
                    == track_id@),
        decreases entries.len() - i,
    {
        if entries[i].playlist == *playlist && entries[i].track_id == *track_id {
            proof {
                assert(s[i as int] == entries@[i as int]@);
                assert(s[i as int].playlist == playlist@);
                assert(s[i as int].track_id == track_id@);
                lemma_find_entry(s, playlist@, track_id@);
            }
            return Some(i);
        }
        i = i + 1;
    }
    proof {
        lemma_find_entry(s, playlist@, track_id@);
    }
    None
}

/// Insert a membership of `track_id` into `playlist` at `position`,
/// shifting the positions at or above it up by one; a position past the end
/// appends.  Returns the number of rows shifted.  Fails, changing nothing,
/// exactly when the playlist already holds the track.
pub(crate) fn insert_entry(
    entries: &mut Vec<PlaylistEntry>,
    playlist: &String,
    track_id: &String,
    position: usize,
) -> (r: Result<u64, StoreError>)
    requires
        wf_entries(old(entries).deep_view()),
    ensures
        match r {
            Ok(shifted) => {
                let s0 = old(entries).deep_view();
                let n = member_count(s0, playlist@);
                let pos: nat = if position > n {
                    n
                } else {
                    position as nat
                };
                &&& find_entry(s0, playlist@, track_id@) is None
                &&& final(entries).deep_view() == spec_insert_entry(
                    s0,
                    playlist@,
                    track_id@,
                    position as nat,
                )
                &&& wf_entries(final(entries).deep_view())
                &&& shifted == count_at_or_above(s0, playlist@, pos)
            },
            Err(e) => {
                &&& e == StoreError::Duplicate
                &&& find_entry(old(entries).deep_view(), playlist@, track_id@) is Some
                &&& *final(entries) == *old(entries)
            },
        },
{
    let ghost s0 = old(entries).deep_view();
    if find_member(entries, playlist, track_id).is_some() {
        return Err(StoreError::Duplicate);
    }
    let n = count_members(entries, playlist);
    let pos = if position > n {
        n
    } else {
        position
    };
    proof {
        assert forall|j: int| 0 <= j < s0.len() implies (#[trigger] s0[j]).position
            < s0.len() by {
            lemma_member_count_le(s0, s0[j].playlist);
        }
    }
    let mut shifted: u64 = 0;
    let mut i: usize = 0;
    while i < entries.len()
        invariant
            i <= entries.len(),
            entries.len() == s0.len(),
            shifted <= i,
            pos <= n,
            forall|j: int| 0 <= j < s0.len() ==> (#[trigger] s0[j]).position < s0.len(),
            forall|j: int| i <= j < s0.len() ==> (#[trigger] entries@[j])@ == s0[j],
            forall|j: int|
                0 <= j < i ==> (#[trigger] entries@[j])@ == shift_up_from(
                    s0[j],
                    playlist@,
                    pos as nat,
                ),
            shifted == count_at_or_above(s0.take(i as int), playlist@, pos as nat),
        decreases entries.len() - i,
    {
        proof {
            assert(s0.take(i + 1).drop_last() =~= s0.take(i as int));
            assert(s0.take(i + 1).last() == s0[i as int]);
            assert(entries@[i as int]@ == s0[i as int]);
        }
        if entries[i].playlist == *playlist && entries[i].position >= pos {
            let moved = PlaylistEntry {
                playlist: entries[i].playlist.clone(),
                track_id: entries[i].track_id.clone(),
                position: entries[i].position + 1,
            };
            entries[i] = moved;
            shifted = shifted + 1;
            proof {
                assert(entries@[i as int]@ == shift_up_from(s0[i as int], playlist@, pos as nat));
            }
        } else {
            proof {
                assert(entries@[i as int]@ == shift_up_from(s0[i as int], playlist@, pos as nat));
            }
        }
        i = i + 1;
    }
    let fresh = PlaylistEntry {
        playlist: playlist.clone(),
        track_id: track_id.clone(),
        position: pos,
    };
    entries.push(fresh);
    proof {
        assert(s0.take(s0.len() as int) =~= s0);
        assert(entries.deep_view() =~= spec_insert_entry(s0, playlist@, track_id@, position as nat));
        lemma_insert_entry_wf(s0, playlist@, track_id@, position as nat);
    }
    Ok(shifted)
}

/// Remove the membership of `track_id` from `playlist`, shifting the
/// positions above it down by one, and return the position it had.  Fails,
/// changing nothing, exactly when the playlist does not hold the track.
pub(crate) fn remove_entry(
    entries: &mut Vec<PlaylistEntry>,
    playlist: &String,
    track_id: &String,
) -> (r: Result<usize, StoreError>)
    requires
        wf_entries(old(entries).deep_view()),
    ensures
        match r {
            Ok(pos) => {
                let s0 = old(entries).deep_view();
                let fi = find_entry(s0, playlist@, track_id@);
                &&& fi is Some
                &&& pos as nat == s0[fi.unwrap()].position
                &&& final(entries).deep_view() == spec_remove_entry(s0, fi.unwrap())
                &&& wf_entries(final(entries).deep_view())
            },
            Err(e) => {
                &&& e == StoreError::NotFound
                &&& find_entry(old(entries).deep_view(), playlist@, track_id@) is None
                &&& *final(entries) == *old(entries)
            },
        },
{
    let ghost s0 = old(entries).deep_view();
    let found = find_member(entries, playlist, track_id);
    let i = match found {
        Some(i) => i,
        None => {
            return Err(StoreError::NotFound);
        },
    };
    proof {
        lemma_find_entry(s0, playlist@, track_id@);
    }
    let removed = entries.remove(i);
    let pos = removed.position;
    let ghost rest = s0.remove(i as int);
    proof {
        assert(entries.deep_view() =~= rest);
        lemma_member_count_le(s0, s0[i as int].playlist);
        assert forall|j: int| 0 <= j < rest.len() implies (#[trigger] rest[j]).position
            < s0.len() by {
            let jj: int = if j < i {
                j
            } else {
                j + 1
            };
            lemma_member_count_le(s0, s0[jj].playlist);
            assert(rest[j] == s0[jj]);
        }
    }
    let mut k: usize = 0;
    while k < entries.len()
        invariant
            k <= entries.len(),
            entries.len() == rest.len(),
            forall|j: int| 0 <= j < rest.len() ==> (#[trigger] rest[j]).position < s0.len(),
            forall|j: int| k <= j < rest.len() ==> (#[trigger] entries@[j])@ == rest[j],
            forall|j: int|
                0 <= j < k ==> (#[trigger] entries@[j])@ == shift_down_above(
                    rest[j],
                    playlist@,
                    pos as nat,
                ),
        decreases entries.len() - k,
    {
        proof {
            assert(entries@[k as int]@ == rest[k as int]);
        }
        if entries[k].playlist == *playlist && entries[k].position > pos {
            let moved = PlaylistEntry {
                playlist: entries[k].playlist.clone(),
                track_id: entries[k].track_id.clone(),
                position: entries[k].position - 1,
            };
            entries[k] = moved;
            proof {
                assert(entries@[k as int]@ == shift_down_above(rest[k as int], playlist@, pos as nat));
            }
        } else {
            proof {
                assert(entries@[k as int]@ == shift_down_above(rest[k as int], playlist@, pos as nat));
            }
        }
        k = k + 1;
    }
    proof {
        assert(s0[i as int].playlist == playlist@ && s0[i as int].position == pos as nat);
        assert(entries.deep_view() =~= spec_remove_entry(s0, i as int));
        lemma_remove_entry_wf(s0, i as int);
    }
    Ok(pos)
}

} // verus!
