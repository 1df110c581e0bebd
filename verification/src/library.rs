//! The library update: ingesting one scan's worth of files.
//!
//! The caller walks the search roots, extracts each candidate file's tag
//! and hands the batch in as plain values.  A file whose derived id is
//! already persisted is skipped entirely — no re-extraction, no metadata
//! refresh; tag edits on an already-indexed file are deliberately never
//! picked up.  Because of that skip, re-running a scan over the same
//! unchanged files changes nothing: [`lemma_rescan_idempotent`].

use vstd::prelude::*;
use crate::artwork::spec_get_artwork;
use crate::models::Track;
use crate::models::TrackView;
use crate::store::spec_ingest_track;
use crate::store::track_ids;
use crate::store::wf_store;
use crate::store::Store;
use crate::store::StoreView;

verus! {

/// One scanned file, ready to ingest: its normalized track and the file
/// names of its directory (for the album-artwork heuristic).
pub struct ScanItem {
    pub track: Track,
    pub siblings: Vec<String>,
}

#[verifier::ext_equal]
pub ghost struct ScanItemView {
    pub track: TrackView,
    pub siblings: Seq<Seq<char>>,
}

impl View for ScanItem {
    type V = ScanItemView;

    open spec fn view(&self) -> ScanItemView {
        ScanItemView { track: self.track@, siblings: self.siblings.deep_view() }
    }
}

impl DeepView for ScanItem {
    type V = ScanItemView;

    open spec fn deep_view(&self) -> ScanItemView {
        self@
    }
}

/// One scan step: a known id is skipped, a new one is ingested.
pub open spec fn spec_scan_step(v: StoreView, it: ScanItemView) -> StoreView {
    if track_ids(v.tracks).contains(it.track.id) {
        v
    } else {
        spec_ingest_track(v, it.track, spec_get_artwork(it.track, it.siblings))
    }
}

/// A whole scan: the files in order, each stepped against the catalog the
/// previous ones left.
pub open spec fn spec_update_library(v: StoreView, items: Seq<ScanItemView>) -> StoreView
    decreases items.len(),
{
    if items.len() == 0 {
        v
    } else {
        spec_scan_step(spec_update_library(v, items.drop_last()), items.last())
    }
}

/// A scan never loses an id, and afterwards every scanned file's id is
/// persisted.
pub proof fn lemma_scan_keeps_ids(v: StoreView, items: Seq<ScanItemView>)
    ensures
        forall|id: Seq<char>|
            track_ids(v.tracks).contains(id) ==> track_ids(
                spec_update_library(v, items).tracks,
            ).contains(id),
        forall|k: int|
            0 <= k < items.len() ==> track_ids(spec_update_library(v, items).tracks).contains(
                (#[trigger] items[k]).track.id,
            ),
    decreases items.len(),
{
    if items.len() > 0 {
        let dl = items.drop_last();
        let w = spec_update_library(v, dl);
        let out = spec_update_library(v, items);
        lemma_scan_keeps_ids(v, dl);
        let last = items.last();
        if !track_ids(w.tracks).contains(last.track.id) {
            assert(track_ids(out.tracks) =~= track_ids(w.tracks).push(last.track.id));
            assert forall|id: Seq<char>|
                track_ids(w.tracks).contains(id) implies track_ids(out.tracks).contains(id) by {
                let j = choose|j: int|
                    0 <= j < track_ids(w.tracks).len() && track_ids(w.tracks)[j] == id;
                assert(track_ids(out.tracks)[j] == id);
            }
            assert(track_ids(out.tracks)[track_ids(w.tracks).len() as int] == last.track.id);
        }
        assert forall|k: int|
            0 <= k < items.len() implies track_ids(out.tracks).contains(
            (#[trigger] items[k]).track.id,
        ) by {
            if k < items.len() - 1 {
                assert(dl[k] == items[k]);
            } else {
                assert(items[k] == items.last());
            }
        }
    }
}

/// A scan whose every file is already persisted changes nothing.
pub proof fn lemma_scan_noop(u: StoreView, items: Seq<ScanItemView>)
    requires
        forall|k: int|
            0 <= k < items.len() ==> track_ids(u.tracks).contains((#[trigger] items[k]).track.id),
    ensures
        spec_update_library(u, items) == u,
    decreases items.len(),
{
    if items.len() > 0 {
        let dl = items.drop_last();
        assert forall|k: int|
            0 <= k < dl.len() implies track_ids(u.tracks).contains(
            (#[trigger] dl[k]).track.id,
        ) by {
            assert(dl[k] == items[k]);
        }
        lemma_scan_noop(u, dl);
        assert(items[items.len() - 1] == items.last());
    }
}

/// Law: a re-scan is idempotent.  Running the library update twice over
/// the same unchanged files yields the same catalog as running it once: no
/// duplicate tracks, no changed aggregates.
pub proof fn lemma_rescan_idempotent(v: StoreView, items: Seq<ScanItemView>)
    ensures
        spec_update_library(spec_update_library(v, items), items) == spec_update_library(
            v,
            items,
        ),
{
    lemma_scan_keeps_ids(v, items);
    lemma_scan_noop(spec_update_library(v, items), items);
}

/// Ingest one scan.  Each file whose id is new is ingested whole — genre,
/// artist, album and track row — and each known id is skipped.  Returns
/// how many tracks were added.
pub fn update_library(store: &mut Store, items: &Vec<ScanItem>) -> (r: u64)
    requires
        wf_store(old(store)@),
        old(store)@.tracks.len() + items@.len() < u32::MAX,
    ensures
        wf_store(final(store)@),
        final(store)@ == spec_update_library(old(store)@, items.deep_view()),
        final(store)@.tracks.len() == old(store)@.tracks.len() + r,
{
    let ghost v0 = store@;
    let ghost iv = items.deep_view();
    let mut added: u64 = 0;
    let mut i: usize = 0;
    while i < items.len()
        invariant
            i <= items.len(),
            iv == items.deep_view(),
            v0.tracks.len() + iv.len() < u32::MAX,
            wf_store(store@),
            store@ == spec_update_library(v0, iv.take(i as int)),
            store@.tracks.len() == v0.tracks.len() + added,
            added <= i,
        decreases items.len() - i,
    {
        proof {
            assert(iv.take(i + 1).drop_last() =~= iv.take(i as int));
            assert(iv.take(i + 1).last() == iv[i as int]);
            assert(iv[i as int] == items@[i as int]@);
        }
        let it = &items[i];
        if !store.has_track(it.track.id.as_str()) {
            let t = it.track.duplicate();
            let res = store.ingest_track(t, &it.siblings);
            proof {
                assert(res is Ok);
            }
            added = added + 1;
        }
        i = i + 1;
    }
    proof {
        assert(iv.take(items.len() as int) =~= iv);
    }
    added
}

} // verus!
