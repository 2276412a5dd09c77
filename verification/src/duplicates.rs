//! The search for duplicate images of a cleanup, from the known hashes to the groups.
//!
//! Images are first grouped by the hash of their bytes. Those that no such group holds are then
//! grouped by their fingerprints, as far as those are known; fingerprints that are made on the way
//! are kept for the next search.

use vstd::prelude::*;

use crate::candidates::{CandidateView, MediaItem};
use crate::collections::TextMap;
use crate::exact::{
    cached_groups, duplicate_groups, exact_duplicate_groups, exact_groups_have_copies,
    grouped_paths, groups_view, keeps_one_of_many, uncached_positions, CleanupDuplicateGroup,
    CleanupFileCache, GroupView,
};
use crate::hashing::HashRun;
use crate::order::{positions_hold_text, sorts_texts};
use crate::paths::texts_view;
use crate::visual::{
    cache_updates_for_fingerprints, eligible_images_are_in_no_exact_group, fingerprint_updates,
    fingerprints_view, item_paths, keyed_of, keyed_paths, known_fingerprints, matching,
    matching_keeps_paths_apart, sorted_by_path, split_by_cached_fingerprint, ungrouped,
    unknown_rows, updates_view, visual_duplicate_groups, visual_groups,
    matching_members_are_in_range, visual_groups_keep_a_candidate,
    visual_groups_stay_clear_of_exact_ones, visually_eligible,
    CleanupCacheUpdate, FingerprintView, KeyedView, VisualFingerprintItem,
};

verus! {

/// The first part of a search: images by the hash of their bytes.
pub struct ExactSearch {
    pub items: Vec<MediaItem>,
    pub cache: TextMap<CleanupFileCache>,
    pub run: HashRun,
}

/// The second part: the groups of identical files are made, and the other images are to be
/// named to the sidecar.
pub struct VisualSearch {
    pub groups: Vec<CleanupDuplicateGroup>,
    /// The images that no group holds.
    pub items: Vec<MediaItem>,
    pub cache: TextMap<CleanupFileCache>,
    pub updates: Vec<CleanupCacheUpdate>,
}

/// The third part: the images that no group holds, with the paths that the sidecar knows them by
/// and the fingerprints that are known.
pub struct FingerprintSearch {
    pub groups: Vec<CleanupDuplicateGroup>,
    pub items: Vec<MediaItem>,
    /// The sidecar path of each image.
    pub rows: Vec<String>,
    pub known: Vec<VisualFingerprintItem>,
    pub updates: Vec<CleanupCacheUpdate>,
}

impl ExactSearch {
    /// Starts a search: images whose hash is known are grouped. Also gives the positions of the
    /// images that are to be hashed.
    pub fn start(items: Vec<MediaItem>, cache: TextMap<CleanupFileCache>) -> (r: (Self, Vec<usize>))
        ensures
            r.0.items == items,
            r.0.cache == cache,
            r.0.run.wf(r.1.len() as int),
            r.0.run.groups@ == cached_groups(cache@, items@, items@.len()),
            r.0.run.cached == items.len() - r.1.len(),
            r.0.run.done == 0,
            r.0.run.updates@.len() == 0,
            r.0.run.errors@.len() == 0,
            r.1@ == uncached_positions(cache@, items@, items@.len()),
    {
        let (run, pending) = HashRun::start(&items, &cache);
        (ExactSearch { items, cache, run }, pending)
    }

    /// Makes the groups of identical files.
    pub fn finish(self) -> (next: VisualSearch)
        requires
            self.run.groups.wf(),
        ensures
            groups_view(next.groups@) == duplicate_groups(
                self.run.groups@,
                self.run.groups@.len(),
            ),
            next.items@ == ungrouped(
                self.items@,
                grouped_paths(groups_view(next.groups@)),
                self.items@.len(),
            ),
            next.cache == self.cache,
            next.updates == self.run.updates,
    {
        let (groups, paths) = exact_duplicate_groups(self.run.groups);
        let items = visually_eligible(self.items, &paths);
        VisualSearch { groups, items, cache: self.cache, updates: self.run.updates }
    }
}

impl VisualSearch {
    /// The id and the path of each image that no group holds.
    pub fn rows(&self) -> (rows: Vec<(i64, String)>)
        ensures
            rows.len() == self.items.len(),
            forall|i: int|
                0 <= i < rows.len() ==> (#[trigger] rows[i]).0 == self.items[i].id && rows[i].1@
                    == self.items[i].path@,
    {
        let mut out: Vec<(i64, String)> = Vec::new();
        let mut i: usize = 0;
        while i < self.items.len()
            invariant
                i <= self.items.len(),
                out.len() == i,
                forall|j: int|
                    0 <= j < i ==> (#[trigger] out[j]).0 == self.items[j].id && out[j].1@
                        == self.items[j].path@,
            decreases self.items.len() - i,
        {
            out.push((self.items[i].id, self.items[i].path.clone()));
            i = i + 1;
        }
        out
    }

    /// Takes the sidecar path of each image. Also gives the paths that are to be fingerprinted.
    pub fn with_rows(self, rows: Vec<String>) -> (r: (FingerprintSearch, Vec<String>))
        requires
            rows.len() == self.items.len(),
        ensures
            r.0.groups == self.groups,
            r.0.items == self.items,
            r.0.rows == rows,
            r.0.updates == self.updates,
            fingerprints_view(r.0.known@) == known_fingerprints(
                self.cache@,
                self.items@,
                texts_view(rows@),
                rows@.len(),
            ),
            texts_view(r.1@) == unknown_rows(
                self.cache@,
                self.items@,
                texts_view(rows@),
                rows@.len(),
            ),
    {
        let (known, pending) = split_by_cached_fingerprint(&self.items, &rows, &self.cache);
        (
            FingerprintSearch {
                groups: self.groups,
                items: self.items,
                rows,
                known,
                updates: self.updates,
            },
            pending,
        )
    }
}

impl FingerprintSearch {
    /// Keeps fingerprints that were made for the next search.
    pub fn note(&mut self, made: &Vec<VisualFingerprintItem>)
        requires
            old(self).rows.len() == old(self).items.len(),
        ensures
            final(self).groups == old(self).groups,
            final(self).items == old(self).items,
            final(self).rows == old(self).rows,
            final(self).known == old(self).known,
            updates_view(final(self).updates@) == updates_view(old(self).updates@)
                + fingerprint_updates(
                old(self).items@,
                texts_view(old(self).rows@),
                fingerprints_view(made@),
                made@.len(),
            ),
    {
        let mut added = cache_updates_for_fingerprints(&self.items, &self.rows, made);
        let ghost before = self.updates@;
        let ghost more = added@;
        self.updates.append(&mut added);
        assert(updates_view(self.updates@) =~= updates_view(before) + updates_view(more));
    }

    /// The groups of identical files and behind them the groups of images that look alike, with
    /// the changes to the cache.
    pub fn finish(self) -> (r: (Vec<CleanupDuplicateGroup>, Vec<CleanupCacheUpdate>))
        requires
            self.rows.len() == self.items.len(),
        ensures
            r.1 == self.updates,
            exists|k: Seq<KeyedView>| #[trigger]
                sorted_by_path(
                    keyed_of(
                        item_paths(self.items@),
                        texts_view(self.rows@),
                        fingerprints_view(self.known@),
                        self.known@.len(),
                    ),
                    k,
                ) && groups_view(r.0@) == groups_view(self.groups@) + visual_groups(
                    self.items@,
                    k,
                    matching(k).found,
                    matching(k).found.len(),
                ),
    {
        let mut found = visual_duplicate_groups(&self.items, &self.rows, &self.known);
        let ghost visual = found@;
        let ghost exact = self.groups@;
        let mut groups = self.groups;
        groups.append(&mut found);
        assert(groups_view(groups@) =~= groups_view(exact) + groups_view(visual));
        (groups, self.updates)
    }
}

proof fn lemma_keyed_paths(
    paths: Seq<Seq<char>>,
    rows: Seq<Seq<char>>,
    fps: Seq<FingerprintView>,
    n: nat,
)
    requires
        rows.len() == paths.len(),
        rows.len() <= usize::MAX,
        n <= fps.len(),
    ensures
        keyed_of(paths, rows, fps, n).len() <= n,
        forall|i: int|
            0 <= i < keyed_of(paths, rows, fps, n).len() ==> paths.contains(
                (#[trigger] keyed_of(paths, rows, fps, n)[i]).path,
            ),
    decreases n,
{
    if n > 0 {
        lemma_keyed_paths(paths, rows, fps, (n - 1) as nat);
        positions_hold_text(rows, fps[n - 1].path);
    }
}

/// The groups of a search are sound: every group holds two files at least and keeps one of them,
/// and no file is in a group of identical files and in a group of images that look alike.
pub proof fn duplicate_groups_are_sound(
    by_hash: Seq<(Seq<char>, Seq<CandidateView>)>,
    items: Seq<MediaItem>,
    rows: Seq<Seq<char>>,
    known: Seq<FingerprintView>,
    k: Seq<KeyedView>,
)
    requires
        items.len() <= usize::MAX,
        known.len() <= usize::MAX,
        ({
            let exact = duplicate_groups(by_hash, by_hash.len());
            let others = ungrouped(items, grouped_paths(exact), items.len());
            rows.len() == others.len() && sorted_by_path(
                keyed_of(item_paths(others), rows, known, known.len()),
                k,
            )
        }),
    ensures
        ({
            let exact = duplicate_groups(by_hash, by_hash.len());
            let others = ungrouped(items, grouped_paths(exact), items.len());
            let visual = visual_groups(others, k, matching(k).found, matching(k).found.len());
            &&& forall|g: int|
                0 <= g < (exact + visual).len() ==> keeps_one_of_many(
                    #[trigger] (exact + visual)[g],
                )
            &&& forall|g: int, h: int, x: int, y: int|
                0 <= g < exact.len() && 0 <= h < visual.len() && 0 <= x < exact[g].candidates.len()
                    && 0 <= y < visual[h].candidates.len()
                    ==> #[trigger] exact[g].candidates[x].path
                    != #[trigger] visual[h].candidates[y].path
        }),
{
    let exact = duplicate_groups(by_hash, by_hash.len());
    let grouped = grouped_paths(exact);
    let others = ungrouped(items, grouped, items.len());
    let paths = item_paths(others);
    let list = keyed_of(paths, rows, known, known.len());
    let found = matching(k).found;
    let visual = visual_groups(others, k, found, found.len());
    eligible_images_are_in_no_exact_group(items, grouped, items.len());
    exact_groups_have_copies(by_hash, by_hash.len());
    matching_keeps_paths_apart(k);
    lemma_keyed_paths(paths, rows, known, known.len());
    let order = choose|order: Seq<usize>| #[trigger]
        sorts_texts(keyed_paths(list), order) && k == order.map_values(|i: usize| list[i as int]);
    assert forall|i: int| 0 <= i < k.len() implies paths.contains((#[trigger] k[i]).path) by {
        assert(order[i] < keyed_paths(list).len());
        assert(k[i] == list[order[i] as int]);
    }
    matching_members_are_in_range(k);
    assert forall|g: int, x: int| 0 <= g < found.len() && 0 <= x < found[g].0.len() implies paths.contains(
        k[#[trigger] found[g].0[x] as int].path,
    ) by {
        assert(found[g].0[x] < k.len());
    }
    visual_groups_keep_a_candidate(others, k, found, found.len());
    visual_groups_stay_clear_of_exact_ones(others, k, found, found.len(), grouped);
    assert forall|g: int, h: int, x: int, y: int|
        0 <= g < exact.len() && 0 <= h < visual.len() && 0 <= x < exact[g].candidates.len() && 0
            <= y < visual[h].candidates.len() implies #[trigger] exact[g].candidates[x].path
        != #[trigger] visual[h].candidates[y].path by {
        assert(grouped.contains(exact[g].candidates[x].path));
        assert(!grouped.contains(visual[h].candidates[y].path));
    }
}

} // verus!
