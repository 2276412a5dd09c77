//! What the cleanup cache tells of the images, and what is written to it.

use vstd::prelude::*;

use crate::candidates::{CandidateView, MediaItem};
use crate::cleanup::{count, has_exact, has_visual, is_stale};
use crate::exact::{cached_files, cached_hash, uncached_positions, CleanupFileCache};
use crate::keeping::{first_and_last_positions, tells_of};
use crate::order::{first_position, last_position};
use crate::selection::positions;
use crate::text;
use crate::visual::{
    cached_fingerprint, distance, fingerprint_updates, hamming, hash_update, item_paths, keyed_of,
    known_fingerprints, look_alike, ones, origin, total_distance, ungrouped, unknown_rows,
    FingerprintView,
};

verus! {

/// Whether the cache has an entry for the item's path that was made of a file with the item's size
/// and time of modification.
pub open spec fn is_current(cache: Map<Seq<char>, CleanupFileCache>, item: MediaItem) -> bool {
    cache.contains_key(item.path@) && cache[item.path@].size_bytes == item.size_bytes
        && cache[item.path@].modified_at == item.modified_at
}

/// A hash is taken from the cache exactly where the entry is current and holds one, and then it is
/// that one.
pub proof fn only_current_hashes_are_taken(cache: Map<Seq<char>, CleanupFileCache>, item: MediaItem)
    ensures
        cached_hash(cache, item) is Some <==> is_current(cache, item)
            && cache[item.path@].sha256 is Some,
        cached_hash(cache, item) matches Some(h) ==> h == cache[item.path@].sha256->0@,
{
}

/// Whether an entry holds a whole fingerprint: both sides and all three hashes.
pub open spec fn is_whole(e: CleanupFileCache) -> bool {
    e.width is Some && e.height is Some && e.ahash is Some && e.dhash is Some && e.phash is Some
}

/// A fingerprint is taken from the cache exactly where the entry is current and holds a whole one,
/// and then every part of it is that of the entry, under the path that was asked for.
pub proof fn only_current_fingerprints_are_taken(
    cache: Map<Seq<char>, CleanupFileCache>,
    item: MediaItem,
    p: Seq<char>,
)
    ensures
        cached_fingerprint(cache, item, p) is Some <==> is_current(cache, item) && is_whole(
            cache[item.path@],
        ),
        cached_fingerprint(cache, item, p) matches Some(f) ==> {
            let e = cache[item.path@];
            &&& f.path == p
            &&& Some(f.width) == e.width
            &&& Some(f.height) == e.height
            &&& f.ahash == e.ahash->0@
            &&& f.dhash == e.dhash->0@
            &&& f.phash == e.phash->0@
        },
{
}

/// The files to hash are those whose hash the cache does not give, in order.
pub proof fn every_unknown_file_is_hashed(
    cache: Map<Seq<char>, CleanupFileCache>,
    items: Seq<MediaItem>,
    n: nat,
)
    requires
        n <= items.len() <= usize::MAX,
    ensures
        ({
            let pending = positions(
                n,
                |i: int| !(is_current(cache, items[i]) && cache[items[i].path@].sha256 is Some),
            );
            &&& uncached_positions(cache, items, n).len() == pending.len()
            &&& forall|m: int|
                0 <= m < pending.len() ==> #[trigger] uncached_positions(cache, items, n)[m]
                    == pending[m]
        }),
    decreases n,
{
    if n > 0 {
        every_unknown_file_is_hashed(cache, items, (n - 1) as nat);
        only_current_hashes_are_taken(cache, items[n - 1]);
    }
}

/// The files that are grouped without being hashed are those whose hash the cache gives, in order,
/// each under that hash.
pub proof fn every_known_file_is_grouped(
    cache: Map<Seq<char>, CleanupFileCache>,
    items: Seq<MediaItem>,
    n: nat,
)
    requires
        n <= items.len(),
    ensures
        ({
            let known = positions(
                n,
                |i: int| is_current(cache, items[i]) && cache[items[i].path@].sha256 is Some,
            );
            let files = cached_files(cache, items, n);
            &&& files.len() == known.len()
            &&& forall|m: int|
                0 <= m < known.len() ==> (#[trigger] files[m]).0
                    == cache[items[known[m]].path@].sha256->0@ && tells_of(
                    files[m].1,
                    items[known[m]],
                ) && files[m].1.width is None && files[m].1.height is None
        }),
    decreases n,
{
    if n > 0 {
        every_known_file_is_grouped(cache, items, (n - 1) as nat);
        only_current_hashes_are_taken(cache, items[n - 1]);
    }
}

/// The path of a row stands for an item: the item has the path that stands at the last place of
/// the row's path, and no earlier item has it.
pub proof fn row_stands_for_its_item(items: Seq<MediaItem>, rows: Seq<Seq<char>>, p: Seq<char>)
    requires
        items.len() <= usize::MAX,
        rows.len() == items.len(),
    ensures
        origin(item_paths(items), rows, p) is Some <==> rows.contains(p),
        origin(item_paths(items), rows, p) matches Some(i) ==> {
            &&& i < items.len()
            &&& exists|r: int|
                {
                    &&& 0 <= r < rows.len() && #[trigger] rows[r] == p
                    &&& forall|j: int| r < j < rows.len() ==> #[trigger] rows[j] != p
                    &&& items[r].path@ == items[i as int].path@
                    &&& forall|j: int|
                        0 <= j < i ==> (#[trigger] items[j]).path@ != items[r].path@
                }
        },
{
    let paths = item_paths(items);
    first_and_last_positions(rows, p);
    if let Some(r) = last_position(rows, p) {
        assert(rows[r as int] == p);
        first_and_last_positions(paths, paths[r as int]);
        assert(paths[r as int] == items[r as int].path@);
        if let Some(i) = first_position(paths, paths[r as int]) {
            assert(paths[i as int] == items[i as int].path@);
            assert forall|j: int| 0 <= j < i implies (#[trigger] items[j]).path@
                != items[r as int].path@ by {
                assert(paths[j] == items[j].path@);
            }
        }
    }
}

/// Where rows and items are told apart by their paths, each row stands for the item at its own
/// place.
pub proof fn row_stands_for_the_item_at_its_place(
    items: Seq<MediaItem>,
    rows: Seq<Seq<char>>,
    r: int,
)
    requires
        items.len() <= usize::MAX,
        rows.len() == items.len(),
        0 <= r < rows.len(),
        rows.no_duplicates(),
        item_paths(items).no_duplicates(),
    ensures
        origin(item_paths(items), rows, rows[r]) == Some(r as usize),
{
    let paths = item_paths(items);
    first_and_last_positions(rows, rows[r]);
    let l = last_position(rows, rows[r])->0;
    assert(l == r);
    first_and_last_positions(paths, paths[r]);
    let f = first_position(paths, paths[r])->0;
    assert(paths[f as int] == paths[r]);
}

/// Whether the cache gives the fingerprint of the item that a row stands for.
pub open spec fn is_fingerprint_known(
    cache: Map<Seq<char>, CleanupFileCache>,
    items: Seq<MediaItem>,
    rows: Seq<Seq<char>>,
) -> spec_fn(int) -> bool {
    |r: int|
        origin(item_paths(items), rows, rows[r]) matches Some(i) && is_current(
            cache,
            items[i as int],
        ) && is_whole(cache[items[i as int].path@])
}

/// Whether the cache does not give the fingerprint of the item that a row stands for.
pub open spec fn is_fingerprint_pending(
    cache: Map<Seq<char>, CleanupFileCache>,
    items: Seq<MediaItem>,
    rows: Seq<Seq<char>>,
) -> spec_fn(int) -> bool {
    |r: int|
        origin(item_paths(items), rows, rows[r]) matches Some(i) && !(is_current(
            cache,
            items[i as int],
        ) && is_whole(cache[items[i as int].path@]))
}

/// The rows are told apart one by one: the fingerprints that the cache gives are those of the rows
/// whose item has a current and whole entry, in order, and the paths of the other rows are to be
/// fingerprinted, in order.
pub proof fn rows_are_known_or_pending_one_by_one(
    cache: Map<Seq<char>, CleanupFileCache>,
    items: Seq<MediaItem>,
    rows: Seq<Seq<char>>,
    n: nat,
)
    ensures
        ({
            let known = positions(n, is_fingerprint_known(cache, items, rows));
            let out = known_fingerprints(cache, items, rows, n);
            &&& out.len() == known.len()
            &&& forall|m: int|
                0 <= m < out.len() ==> Some(#[trigger] out[m]) == cached_fingerprint(
                    cache,
                    items[origin(item_paths(items), rows, rows[known[m]])->0 as int],
                    rows[known[m]],
                )
        }),
        ({
            let pending = positions(n, is_fingerprint_pending(cache, items, rows));
            let out = unknown_rows(cache, items, rows, n);
            &&& out.len() == pending.len()
            &&& forall|m: int| 0 <= m < out.len() ==> #[trigger] out[m] == rows[pending[m]]
        }),
    decreases n,
{
    if n > 0 {
        rows_are_known_or_pending_one_by_one(cache, items, rows, (n - 1) as nat);
        if let Some(i) = origin(item_paths(items), rows, rows[n - 1]) {
            only_current_fingerprints_are_taken(cache, items[i as int], rows[n - 1]);
        }
    }
}

/// What is written for a hash makes the entry current for the file that was hashed, and nothing of
/// a fingerprint is written.
pub proof fn hash_is_written_for_its_file(c: CandidateView, hash: Seq<char>)
    ensures
        ({
            let u = hash_update(c, hash);
            &&& u.path == c.path && u.size_bytes == c.size_bytes && u.modified_at == c.modified_at
            &&& u.sha256 == Some(hash)
            &&& u.width is None && u.height is None
            &&& u.ahash is None && u.dhash is None && u.phash is None
        }),
{
}

/// Whether what is written is the fingerprint of an item: it makes the entry current for the
/// item's file, each part of the fingerprint stands at its own place, and no hash is written.
pub open spec fn writes_fingerprint(
    u: crate::visual::UpdateView,
    item: MediaItem,
    f: FingerprintView,
) -> bool {
    &&& u.path == item.path@ && u.size_bytes == item.size_bytes && u.modified_at
        == item.modified_at
    &&& u.sha256 is None
    &&& u.width == Some(f.width) && u.height == Some(f.height)
    &&& u.ahash == Some(f.ahash) && u.dhash == Some(f.dhash) && u.phash == Some(f.phash)
}

/// Every fresh fingerprint whose path is that of some row is written, in order, for the item that
/// the row stands for.
pub proof fn every_fresh_fingerprint_is_written(
    items: Seq<MediaItem>,
    rows: Seq<Seq<char>>,
    fps: Seq<FingerprintView>,
    n: nat,
)
    requires
        items.len() <= usize::MAX,
        rows.len() == items.len(),
    ensures
        ({
            let known = positions(n, |i: int| rows.contains(fps[i].path));
            let out = fingerprint_updates(items, rows, fps, n);
            &&& out.len() == known.len()
            &&& forall|m: int|
                0 <= m < out.len() ==> writes_fingerprint(
                    #[trigger] out[m],
                    items[origin(item_paths(items), rows, fps[known[m]].path)->0 as int],
                    fps[known[m]],
                )
        }),
    decreases n,
{
    if n > 0 {
        every_fresh_fingerprint_is_written(items, rows, fps, (n - 1) as nat);
        row_stands_for_its_item(items, rows, fps[n - 1].path);
    }
}

/// Every fingerprint whose path is that of some row is compared, in order, under the path of the
/// item at the row's last place.
pub proof fn every_known_fingerprint_is_compared(
    paths: Seq<Seq<char>>,
    rows: Seq<Seq<char>>,
    fps: Seq<FingerprintView>,
    n: nat,
)
    requires
        rows.len() <= usize::MAX,
    ensures
        ({
            let known = positions(n, |i: int| rows.contains(fps[i].path));
            let out = keyed_of(paths, rows, fps, n);
            &&& out.len() == known.len()
            &&& forall|m: int|
                0 <= m < out.len() ==> (#[trigger] out[m]).fingerprint == fps[known[m]]
                    && is_path_of_row(paths, rows, fps[known[m]].path, out[m].path)
        }),
    decreases n,
{
    if n > 0 {
        every_known_fingerprint_is_compared(paths, rows, fps, (n - 1) as nat);
        let p = fps[n - 1].path;
        first_and_last_positions(rows, p);
        if let Some(i) = last_position(rows, p) {
            assert(rows[i as int] == p);
            assert(is_path_of_row(paths, rows, p, paths[i as int]));
        }
    }
}

/// Whether `path` stands at the place of the last row with the given sidecar path.
pub open spec fn is_path_of_row(
    paths: Seq<Seq<char>>,
    rows: Seq<Seq<char>>,
    row: Seq<char>,
    path: Seq<char>,
) -> bool {
    exists|r: int|
        0 <= r < rows.len() && #[trigger] rows[r] == row && paths[r] == path && forall|j: int|
            r < j < rows.len() ==> #[trigger] rows[j] != row
}

/// The images that are compared are those that are in no group of identical files, in order.
pub proof fn every_ungrouped_image_is_compared(
    items: Seq<MediaItem>,
    grouped: Set<Seq<char>>,
    n: nat,
)
    ensures
        ({
            let left = positions(n, |i: int| !grouped.contains(items[i].path@));
            &&& ungrouped(items, grouped, n).len() == left.len()
            &&& forall|m: int|
                0 <= m < left.len() ==> #[trigger] ungrouped(items, grouped, n)[m] == items[left[m]]
        }),
    decreases n,
{
    if n > 0 {
        every_ungrouped_image_is_compared(items, grouped, (n - 1) as nat);
    }
}

/// Two images look alike exactly where all their hashes can be read and differ in at most six,
/// eight and ten bits: the perceptual, the difference and the average hash. What looks like
/// another is looked like by it.
pub proof fn look_alikes_differ_in_few_bits(a: FingerprintView, b: FingerprintView)
    ensures
        look_alike(a, b) <==> {
            &&& hamming(a.phash, b.phash) is Some && hamming(a.phash, b.phash)->0 <= 6
            &&& hamming(a.dhash, b.dhash) is Some && hamming(a.dhash, b.dhash)->0 <= 8
            &&& hamming(a.ahash, b.ahash) is Some && hamming(a.ahash, b.ahash)->0 <= 10
        },
        look_alike(a, b) == look_alike(b, a),
        look_alike(a, b) ==> total_distance(a, b) == hamming(a.phash, b.phash)->0 + hamming(
            a.dhash,
            b.dhash,
        )->0 + hamming(a.ahash, b.ahash)->0,
{
    lemma_distance_symmetric(a.phash, b.phash);
    lemma_distance_symmetric(a.dhash, b.dhash);
    lemma_distance_symmetric(a.ahash, b.ahash);
}

proof fn lemma_distance_symmetric(a: Seq<char>, b: Seq<char>)
    ensures
        distance(a, b) == distance(b, a),
{
    if text::parsed_hex(a) is Some && text::parsed_hex(b) is Some {
        crate::visual::hamming_is_a_distance(a, b, b);
    }
}

/// The distance of two hashes is the number of bits in which they differ: a bit more at the end of
/// both adds one exactly where it differs.
pub proof fn distance_counts_differing_bits(x: u128, y: u128)
    requires
        x < 0x8000_0000_0000_0000_0000_0000_0000_0000,
        y < 0x8000_0000_0000_0000_0000_0000_0000_0000,
    ensures
        ones(0) == 0,
        ones((x << 1) ^ (y << 1)) == ones(x ^ y),
        ones(((x << 1) | 1) ^ ((y << 1) | 1)) == ones(x ^ y),
        ones(((x << 1) | 1) ^ (y << 1)) == ones(x ^ y) + 1,
{
    let d = x ^ y;
    assert(x ^ y < 0x8000_0000_0000_0000_0000_0000_0000_0000) by (bit_vector)
        requires
            x < 0x8000_0000_0000_0000_0000_0000_0000_0000,
            y < 0x8000_0000_0000_0000_0000_0000_0000_0000,
    ;
    assert((x << 1) ^ (y << 1) == (x ^ y) << 1) by (bit_vector);
    assert(((x << 1) | 1) ^ ((y << 1) | 1) == (x ^ y) << 1) by (bit_vector);
    assert(((x << 1) | 1) ^ (y << 1) == ((x ^ y) << 1) | 1) by (bit_vector);
    let even = d << 1;
    let odd = (d << 1) | 1;
    assert((d << 1) % 2 == 0 && ((d << 1) | 1) % 2 == 1) by (bit_vector);
    assert((d << 1) / 2 == d && ((d << 1) | 1) / 2 == d) by (bit_vector)
        requires
            d < 0x8000_0000_0000_0000_0000_0000_0000_0000,
    ;
    assert(ones(odd) == 1 + ones(d));
    assert(ones(even) == ones(d));
}

/// What the cache covers: an image counts for the hash, for the fingerprint or as stale by its own
/// entry alone, and never both as stale and as covered.
pub proof fn coverage_goes_by_the_entry(cache: Map<Seq<char>, CleanupFileCache>, item: MediaItem)
    ensures
        has_exact(cache, item) <==> is_current(cache, item) && cache[item.path@].sha256 is Some,
        has_visual(cache, item) <==> is_current(cache, item) && is_whole(cache[item.path@]),
        is_stale(cache, item) <==> cache.contains_key(item.path@) && !is_current(cache, item),
        is_stale(cache, item) ==> !has_exact(cache, item) && !has_visual(cache, item),
{
}

/// Counting goes item by item: the number of items with a property is the number of places at
/// which there is one.
pub proof fn count_is_the_number_of_places(items: Seq<MediaItem>, p: spec_fn(MediaItem) -> bool)
    ensures
        count(items, p) == positions(items.len(), |i: int| p(items[i])).len(),
    decreases items.len(),
{
    if items.len() > 0 {
        let rest = items.drop_last();
        count_is_the_number_of_places(rest, p);
        crate::selection::same_wishes_choose_the_same(
            rest.len(),
            |i: int| p(rest[i]),
            |i: int| p(items[i]),
        );
    }
}

} // verus!
