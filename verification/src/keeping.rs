//! Which copy of a group of duplicates is kept, told by the dates and sizes of its files.

use vstd::prelude::*;

use crate::candidates::{
    better, candidate_date, candidate_of, candidate_pixels, candidates_view, keeper_index,
    keeper_is_best, keeper_path, CandidateView, CleanupCandidate, MediaItem,
};
use crate::exact::{duplicate_groups, groups_view, CleanupDuplicateGroup, GroupView};
use crate::order::{first_position, last_position, positions_hold_text};
use crate::selection::positions;
use crate::text;
use crate::visual::{
    item_paths, keyed_paths, match_candidates, sized_candidate, visual_groups, KeyedView,
};

verus! {

/// Whether `t` is the date of a file: when it was taken, where that is known; else when it was
/// modified, where that is known; else when it was created; and beyond every date where nothing
/// is known.
pub open spec fn is_dated(c: CleanupCandidate, t: i64) -> bool {
    ||| c.captured_at == Some(t)
    ||| c.captured_at is None && c.modified_at == Some(t)
    ||| c.captured_at is None && c.modified_at is None && c.created_at == Some(t)
    ||| c.captured_at is None && c.modified_at is None && c.created_at is None && t == i64::MAX
}

/// The number of pixels of a file, at the bounds of `i64` where it is beyond them.
pub open spec fn area(c: CleanupCandidate) -> int {
    let w: int = if c.width is Some {
        c.width->0 as int
    } else {
        0
    };
    let h: int = if c.height is Some {
        c.height->0 as int
    } else {
        0
    };
    if w * h > i64::MAX {
        i64::MAX as int
    } else if w * h < i64::MIN {
        i64::MIN as int
    } else {
        w * h
    }
}

/// The number of bytes of a file; none where it is not known.
pub open spec fn bytes(c: CleanupCandidate) -> int {
    if c.size_bytes is Some {
        c.size_bytes->0 as int
    } else {
        0
    }
}

/// Whether a file may be kept where there is the other one: it is earlier; or as early, with more
/// pixels; or with as many, and more bytes; or with as many, and a path that does not come later.
pub open spec fn may_stay_beside(kept: CleanupCandidate, other: CleanupCandidate) -> bool {
    forall|s: i64, t: i64|
        #[trigger] is_dated(kept, s) && #[trigger] is_dated(other, t) ==> {
            ||| s < t
            ||| s == t && area(kept) > area(other)
            ||| s == t && area(kept) == area(other) && bytes(kept) > bytes(other)
            ||| s == t && area(kept) == area(other) && bytes(kept) == bytes(other)
                && !text::text_less(other.path@, kept.path@)
        }
}

/// Whether the copy that a group keeps is one of its files, and may stay beside all of them.
pub open spec fn keeps_the_best(keep: Seq<char>, files: Seq<CleanupCandidate>) -> bool {
    exists|k: int|
        0 <= k < files.len() && (#[trigger] files[k]).path@ == keep && forall|j: int|
            0 <= j < files.len() ==> may_stay_beside(files[k], #[trigger] files[j])
}

/// Every file has one date.
pub proof fn every_file_has_one_date(c: CleanupCandidate, s: i64, t: i64)
    ensures
        is_dated(c, s) && is_dated(c, t) ==> s == t,
        is_dated(c, candidate_date(c@)),
        candidate_pixels(c@) == area(c),
{
}

proof fn lemma_not_better(kept: CleanupCandidate, other: CleanupCandidate)
    requires
        !better(other@, kept@),
    ensures
        may_stay_beside(kept, other),
{
    assert forall|s: i64, t: i64| #[trigger] is_dated(kept, s) && #[trigger] is_dated(other, t) implies {
        ||| s < t
        ||| s == t && area(kept) > area(other)
        ||| s == t && area(kept) == area(other) && bytes(kept) > bytes(other)
        ||| s == t && area(kept) == area(other) && bytes(kept) == bytes(other)
            && !text::text_less(other.path@, kept.path@)
    } by {
        every_file_has_one_date(kept, s, candidate_date(kept@));
        every_file_has_one_date(other, t, candidate_date(other@));
    }
}

/// Of some files the one to keep is the best of them, by dates and sizes; there is one wherever
/// there are files.
pub proof fn best_copy_is_chosen(files: Seq<CleanupCandidate>)
    ensures
        keeper_path(candidates_view(files)) is Some <==> files.len() > 0,
        files.len() > 0 ==> keeps_the_best(keeper_path(candidates_view(files))->0, files),
{
    if files.len() > 0 {
        let c = candidates_view(files);
        keeper_is_best(c);
        let k = keeper_index(c, c.len());
        assert(c[k] == files[k]@);
        assert forall|j: int| 0 <= j < files.len() implies may_stay_beside(
            files[k],
            #[trigger] files[j],
        ) by {
            assert(c[j] == files[j]@);
            assert(!better(c[j], c[k]));
            lemma_not_better(files[k], files[j]);
        }
        assert(files[k].path@ == keeper_path(c)->0);
    }
}

spec fn keeps_its_keeper(g: GroupView) -> bool {
    g.candidates.len() > 0 && g.default_keep_path == keeper_path(g.candidates)->0
}

proof fn lemma_visual_keepers(
    items: Seq<MediaItem>,
    k: Seq<KeyedView>,
    found: Seq<(Seq<usize>, int)>,
    n: nat,
)
    ensures
        forall|g: int|
            0 <= g < visual_groups(items, k, found, n).len() ==> keeps_its_keeper(
                #[trigger] visual_groups(items, k, found, n)[g],
            ),
    decreases n,
{
    if n > 0 {
        lemma_visual_keepers(items, k, found, (n - 1) as nat);
        let rest = visual_groups(items, k, found, (n - 1) as nat);
        let all = visual_groups(items, k, found, n);
        assert forall|g: int| 0 <= g < all.len() implies keeps_its_keeper(#[trigger] all[g]) by {
            if g < rest.len() {
                assert(all[g] == rest[g]);
            }
        }
    }
}

proof fn lemma_exact_keepers(by_hash: Seq<(Seq<char>, Seq<CandidateView>)>, n: nat)
    ensures
        forall|g: int|
            0 <= g < duplicate_groups(by_hash, n).len() ==> keeps_its_keeper(
                #[trigger] duplicate_groups(by_hash, n)[g],
            ),
    decreases n,
{
    if n > 0 {
        lemma_exact_keepers(by_hash, (n - 1) as nat);
        let rest = duplicate_groups(by_hash, (n - 1) as nat);
        let all = duplicate_groups(by_hash, n);
        assert forall|g: int| 0 <= g < all.len() implies keeps_its_keeper(#[trigger] all[g]) by {
            if g < rest.len() {
                assert(all[g] == rest[g]);
            }
        }
    }
}

proof fn lemma_group_keeps_the_best(g: CleanupDuplicateGroup)
    requires
        keeps_its_keeper(g@),
    ensures
        keeps_the_best(g.default_keep_path@, g.candidates@),
{
    best_copy_is_chosen(g.candidates@);
}

/// Of every group of images that look alike the best file is kept: one of the group's files has
/// the path to keep, and no other is earlier, or as early with more pixels, or as early with as
/// many pixels and more bytes.
pub proof fn look_alikes_keep_the_best(
    items: Seq<MediaItem>,
    k: Seq<KeyedView>,
    found: Seq<(Seq<usize>, int)>,
    n: nat,
    groups: Seq<CleanupDuplicateGroup>,
)
    requires
        groups_view(groups) == visual_groups(items, k, found, n),
    ensures
        forall|g: int|
            0 <= g < groups.len() ==> keeps_the_best(
                (#[trigger] groups[g]).default_keep_path@,
                groups[g].candidates@,
            ),
{
    lemma_visual_keepers(items, k, found, n);
    assert forall|g: int| 0 <= g < groups.len() implies keeps_the_best(
        (#[trigger] groups[g]).default_keep_path@,
        groups[g].candidates@,
    ) by {
        assert(groups_view(groups)[g] == groups[g]@);
        assert(keeps_its_keeper(visual_groups(items, k, found, n)[g]));
        lemma_group_keeps_the_best(groups[g]);
    }
}

/// Of every group of identical files the best is kept. See [`look_alikes_keep_the_best`].
pub proof fn identical_files_keep_the_best(
    by_hash: Seq<(Seq<char>, Seq<CandidateView>)>,
    n: nat,
    groups: Seq<CleanupDuplicateGroup>,
)
    requires
        groups_view(groups) == duplicate_groups(by_hash, n),
    ensures
        forall|g: int|
            0 <= g < groups.len() ==> keeps_the_best(
                (#[trigger] groups[g]).default_keep_path@,
                groups[g].candidates@,
            ),
{
    lemma_exact_keepers(by_hash, n);
    assert forall|g: int| 0 <= g < groups.len() implies keeps_the_best(
        (#[trigger] groups[g]).default_keep_path@,
        groups[g].candidates@,
    ) by {
        assert(groups_view(groups)[g] == groups[g]@);
        assert(keeps_its_keeper(duplicate_groups(by_hash, n)[g]));
        lemma_group_keeps_the_best(groups[g]);
    }
}

/// Whether a file of a group is that of the item: path, name, size and dates are the item's.
pub open spec fn tells_of(c: CandidateView, item: MediaItem) -> bool {
    &&& c.path == item.path@
    &&& c.file_name == item.file_name@
    &&& c.display_path is Some <==> item.display_path is Some
    &&& c.display_path is Some ==> c.display_path->0 == item.display_path->0@
    &&& c.size_bytes == item.size_bytes
    &&& c.created_at == item.created_at
    &&& c.modified_at == item.modified_at
    &&& c.captured_at == item.captured_at
}

/// A file of an image tells what the catalog tells of it; its size in pixels is not known yet.
pub proof fn file_tells_of_its_item(item: MediaItem)
    ensures
        tells_of(candidate_of(item), item),
        candidate_of(item).width is None && candidate_of(item).height is None,
{
}

/// Whether a file of a group of images that look alike is that of an item, with the size that the
/// first fingerprint of its path gives.
pub open spec fn is_sized_file(
    items: Seq<MediaItem>,
    k: Seq<KeyedView>,
    c: CandidateView,
    i: int,
    e: int,
) -> bool {
    &&& 0 <= i < items.len() && tells_of(c, items[i])
    &&& 0 <= e < k.len() && k[e].path == c.path
    &&& c.width == Some(k[e].fingerprint.width)
    &&& c.height == Some(k[e].fingerprint.height)
    &&& forall|j: int| i < j < items.len() ==> (#[trigger] items[j]).path@ != c.path
    &&& forall|j: int| 0 <= j < e ==> (#[trigger] k[j]).path != c.path
}

proof fn lemma_last_is_last(texts: Seq<Seq<char>>, t: Seq<char>)
    requires
        texts.len() <= usize::MAX,
    ensures
        last_position(texts, t) matches Some(i) ==> forall|j: int|
            i < j < texts.len() ==> #[trigger] texts[j] != t,
    decreases texts.len(),
{
    if texts.len() > 0 && texts.last() != t {
        let rest = texts.drop_last();
        lemma_last_is_last(rest, t);
        if last_position(texts, t) is Some {
            let i = last_position(texts, t)->0;
            assert forall|j: int| i < j < texts.len() implies #[trigger] texts[j] != t by {
                if j < rest.len() {
                    assert(texts[j] == rest[j]);
                }
            }
        }
    }
}

proof fn lemma_first_is_first(texts: Seq<Seq<char>>, t: Seq<char>)
    requires
        texts.len() <= usize::MAX,
    ensures
        first_position(texts, t) matches Some(i) ==> forall|j: int|
            0 <= j < i ==> #[trigger] texts[j] != t,
    decreases texts.len(),
{
    if texts.len() > 0 {
        let rest = texts.drop_last();
        lemma_first_is_first(rest, t);
        positions_hold_text(rest, t);
        if first_position(texts, t) is Some {
            let i = first_position(texts, t)->0;
            assert forall|j: int| 0 <= j < i implies #[trigger] texts[j] != t by {
                assert(texts[j] == rest[j]);
                if first_position(rest, t) is None && rest[j] == t {
                    assert(rest.contains(t));
                }
            }
        }
    }
}

/// The first position of a text holds it and no earlier one does; the last position of a text
/// holds it and no later one does; a text that stands nowhere has neither.
pub proof fn first_and_last_positions(texts: Seq<Seq<char>>, t: Seq<char>)
    requires
        texts.len() <= usize::MAX,
    ensures
        match first_position(texts, t) {
            Some(i) => i < texts.len() && texts[i as int] == t && forall|j: int|
                0 <= j < i ==> #[trigger] texts[j] != t,
            None => forall|j: int| 0 <= j < texts.len() ==> #[trigger] texts[j] != t,
        },
        match last_position(texts, t) {
            Some(i) => i < texts.len() && texts[i as int] == t && forall|j: int|
                i < j < texts.len() ==> #[trigger] texts[j] != t,
            None => forall|j: int| 0 <= j < texts.len() ==> #[trigger] texts[j] != t,
        },
{
    positions_hold_text(texts, t);
    lemma_first_is_first(texts, t);
    lemma_last_is_last(texts, t);
    if !texts.contains(t) {
        assert forall|j: int| 0 <= j < texts.len() implies #[trigger] texts[j] != t by {
            if texts[j] == t {
                assert(texts.contains(t));
            }
        }
    }
}

/// Every match of images makes a group of its own, in order: the group has one file for each
/// member, with what the catalog and the fingerprint tell of it, and the group's score is the
/// width of the match.
pub proof fn every_match_makes_a_group(
    items: Seq<MediaItem>,
    k: Seq<KeyedView>,
    found: Seq<(Seq<usize>, int)>,
    n: nat,
)
    requires
        n <= found.len(),
        items.len() <= usize::MAX,
        k.len() <= usize::MAX,
        forall|g: int| 0 <= g < found.len() ==> (#[trigger] found[g]).0.len() >= 1,
        forall|g: int| 0 <= g < found.len() ==> i64::MIN <= (#[trigger] found[g]).1 <= i64::MAX,
        forall|g: int, x: int|
            0 <= g < found.len() && 0 <= x < found[g].0.len() ==> (#[trigger] found[g].0[x])
                < k.len() && item_paths(items).contains(k[found[g].0[x] as int].path),
    ensures
        visual_groups(items, k, found, n).len() == n,
        forall|g: int|
            0 <= g < n ==> is_group_of_match(
                items,
                k,
                found[g],
                g,
                #[trigger] visual_groups(items, k, found, n)[g],
            ),
    decreases n,
{
    if n > 0 {
        every_match_makes_a_group(items, k, found, (n - 1) as nat);
        let m = found[n - 1].0;
        assert forall|x: int| 0 <= x < m.len() implies (#[trigger] m[x]) < k.len()
            && item_paths(items).contains(k[m[x] as int].path) by {
            assert(found[n - 1].0[x] < k.len());
        }
        lemma_files_of_match(items, k, m, m.len());
        let rest = visual_groups(items, k, found, (n - 1) as nat);
        let all = visual_groups(items, k, found, n);
        assert(is_group_of_match(items, k, found[n - 1], n - 1, all[n - 1]));
        assert forall|g: int| 0 <= g < n implies is_group_of_match(
            items,
            k,
            found[g],
            g,
            #[trigger] all[g],
        ) by {
            if g < n - 1 {
                assert(all[g] == rest[g]);
            }
        }
    }
}

/// Whether a group is that of a match, at position `g`.
pub open spec fn is_group_of_match(
    items: Seq<MediaItem>,
    k: Seq<KeyedView>,
    found: (Seq<usize>, int),
    g: int,
    group: GroupView,
) -> bool {
    &&& group.id == "visual-"@ + text::decimal((g + 1) as nat)
    &&& group.kind == "visual-image"@
    &&& group.reason == "Strict perceptual hash match"@
    &&& group.score is Some && group.score->0 == found.1
    &&& group.candidates.len() == found.0.len()
    &&& forall|x: int|
        0 <= x < found.0.len() ==> (#[trigger] group.candidates[x]).path
            == k[found.0[x] as int].path && is_file_of_group(items, k, group.candidates[x])
}

/// Whether a file of a group is that of some item and some fingerprint.
pub open spec fn is_file_of_group(
    items: Seq<MediaItem>,
    k: Seq<KeyedView>,
    c: CandidateView,
) -> bool {
    exists|i: int, e: int| #[trigger] is_sized_file(items, k, c, i, e)
}

proof fn lemma_files_of_match(items: Seq<MediaItem>, k: Seq<KeyedView>, m: Seq<usize>, n: nat)
    requires
        n <= m.len(),
        items.len() <= usize::MAX,
        k.len() <= usize::MAX,
        forall|x: int|
            0 <= x < m.len() ==> (#[trigger] m[x]) < k.len() && item_paths(items).contains(
                k[m[x] as int].path,
            ),
    ensures
        match_candidates(items, k, m, n).len() == n,
        forall|x: int|
            0 <= x < n ==> (#[trigger] match_candidates(items, k, m, n)[x]).path
                == k[m[x] as int].path && is_file_of_group(
                items,
                k,
                match_candidates(items, k, m, n)[x],
            ),
    decreases n,
{
    if n > 0 {
        lemma_files_of_match(items, k, m, (n - 1) as nat);
        assert(m[n - 1] < k.len());
        let p = k[m[n - 1] as int].path;
        let paths = item_paths(items);
        let keys = keyed_paths(k);
        first_and_last_positions(paths, p);
        first_and_last_positions(keys, p);
        positions_hold_text(paths, p);
        assert(keys[m[n - 1] as int] == p);
        let i = last_position(paths, p)->0 as int;
        let e = first_position(keys, p)->0 as int;
        let c = sized_candidate(items, k, p)->0;
        assert(paths[i] == items[i].path@);
        assert(keys[e] == k[e].path);
        assert forall|j: int| i < j < items.len() implies (#[trigger] items[j]).path@ != c.path by {
            assert(paths[j] == items[j].path@);
        }
        assert forall|j: int| 0 <= j < e implies (#[trigger] k[j]).path != c.path by {
            assert(keys[j] == k[j].path);
        }
        assert(is_sized_file(items, k, c, i, e));
        let before = match_candidates(items, k, m, (n - 1) as nat);
        let after = match_candidates(items, k, m, n);
        assert(after == before.push(c));
        assert forall|x: int| 0 <= x < n implies (#[trigger] after[x]).path == k[m[x] as int].path
            && is_file_of_group(items, k, after[x]) by {
            if x < n - 1 {
                assert(after[x] == before[x]);
            }
        }
    }
}

/// The groups of identical files are those of the hashes with more than one file, in their order
/// and numbered from one, each with all files of its hash.
pub proof fn every_shared_hash_makes_a_group(by_hash: Seq<(Seq<char>, Seq<CandidateView>)>, n: nat)
    ensures
        ({
            let shared = positions(n, |i: int| by_hash[i].1.len() > 1);
            let groups = duplicate_groups(by_hash, n);
            &&& groups.len() == shared.len()
            &&& forall|g: int|
                0 <= g < groups.len() ==> {
                    &&& (#[trigger] groups[g]).candidates == by_hash[shared[g]].1
                    &&& groups[g].id == "exact-"@ + text::decimal((g + 1) as nat)
                    &&& groups[g].kind == "exact-image"@
                    &&& groups[g].reason == "Byte-identical image file hash"@
                    &&& groups[g].score == Some(0i64)
                }
        }),
    decreases n,
{
    if n > 0 {
        every_shared_hash_makes_a_group(by_hash, (n - 1) as nat);
    }
}

} // verus!
