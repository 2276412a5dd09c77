//! Images that look alike: their fingerprints, and the groups they form.

use vstd::arithmetic::power2::{lemma2_to64, lemma_pow2_unfold, pow2};
use vstd::prelude::*;

use crate::candidates::{
    candidate_of, candidates_view, choose_cleanup_keeper, cleanup_candidate_from_media,
    keeper_path, CandidateView, CleanupCandidate, MediaItem,
};
use crate::collections::{TextMap, TextSet};
use crate::exact::{
    cache_matches, cache_matches_media, groups_view, keeps_one_of_many, CleanupDuplicateGroup,
    CleanupFileCache, GroupView,
};
use crate::keeping::{keeps_the_best, look_alikes_keep_the_best};
use crate::order::{
    first_position, first_positions, group_positions, last_position, last_positions, look_up,
    looks_up, positions_by_text, positions_hold_text, sort_texts, sorts_texts,
};
use crate::paths::{opt_view, texts_view};
use crate::text;

verus! {

/// The number of set bits.
pub open spec fn ones(x: u128) -> nat
    decreases x,
{
    if x == 0 {
        0
    } else {
        (x % 2) as nat + ones(x / 2)
    }
}

proof fn lemma_ones_bound(x: u128, k: nat)
    requires
        x < pow2(k),
    ensures
        ones(x) <= k,
    decreases k,
{
    if x > 0 {
        if k == 0 {
            lemma2_to64();
        } else {
            lemma_pow2_unfold(k);
            lemma_ones_bound(x / 2, (k - 1) as nat);
        }
    }
}

proof fn lemma_pow2_128()
    ensures
        pow2(128) == 0x1_0000_0000_0000_0000_0000_0000_0000_0000,
{
    vstd::arithmetic::power2::lemma_pow2_adds(64, 64);
    lemma2_to64();
}

fn count_ones(x: u128) -> (n: i64)
    ensures
        n == ones(x),
        0 <= n <= 128,
{
    proof {
        lemma_pow2_128();
        lemma_ones_bound(x, 128);
    }
    let mut rest: u128 = x;
    let mut n: i64 = 0;
    while rest > 0
        invariant
            0 <= n <= 128,
            n + ones(rest) == ones(x),
            ones(x) <= 128,
        decreases rest,
    {
        if rest % 2 == 1 {
            n = n + 1;
        }
        rest = rest / 2;
    }
    n
}

/// The number of bits in which two hexadecimal numbers differ, where both are numbers of 128
/// bits at most.
pub open spec fn hamming(a: Seq<char>, b: Seq<char>) -> Option<i64> {
    match (text::parsed_hex(a), text::parsed_hex(b)) {
        (Some(x), Some(y)) => Some(ones(x ^ y) as i64),
        _ => None,
    }
}

/// See [`hamming`].
pub fn hex_hamming(a: &str, b: &str) -> (d: Option<i64>)
    ensures
        d == hamming(a@, b@),
        d matches Some(n) ==> 0 <= n <= 128,
{
    match (text::parse_hex(a), text::parse_hex(b)) {
        (Some(x), Some(y)) => Some(count_ones(x ^ y)),
        _ => None,
    }
}

proof fn lemma_ones_zero(x: u128)
    ensures
        ones(x) == 0 <==> x == 0,
    decreases x,
{
    if x > 0 {
        lemma_ones_zero(x / 2);
    }
}

proof fn lemma_ones_of_xor(a: u128, b: u128)
    ensures
        ones(a ^ b) <= ones(a) + ones(b),
    decreases a, b,
{
    if a == 0 {
        assert(0u128 ^ b == b) by (bit_vector);
    } else if b == 0 {
        assert(a ^ 0u128 == a) by (bit_vector);
    } else {
        let c = a ^ b;
        assert(c / 2 == (a / 2) ^ (b / 2)) by (bit_vector)
            requires
                c == a ^ b,
        ;
        assert(c % 2 <= a % 2 + b % 2) by (bit_vector)
            requires
                c == a ^ b,
        ;
        lemma_ones_of_xor(a / 2, b / 2);
    }
}

/// The distance is one: it is at most 128, the same both ways, zero exactly between equal
/// numbers, and no longer than a way over a third number.
pub proof fn hamming_is_a_distance(a: Seq<char>, b: Seq<char>, c: Seq<char>)
    requires
        text::parsed_hex(a) is Some,
        text::parsed_hex(b) is Some,
        text::parsed_hex(c) is Some,
    ensures
        hamming(a, b) is Some,
        0 <= hamming(a, b)->0 <= 128,
        hamming(a, b) == hamming(b, a),
        hamming(a, b)->0 == 0 <==> text::parsed_hex(a) == text::parsed_hex(b),
        hamming(a, c)->0 <= hamming(a, b)->0 + hamming(b, c)->0,
{
    let x = text::parsed_hex(a)->0;
    let y = text::parsed_hex(b)->0;
    let z = text::parsed_hex(c)->0;
    lemma_pow2_128();
    lemma_ones_bound(x ^ y, 128);
    lemma_ones_bound(y ^ z, 128);
    lemma_ones_bound(x ^ z, 128);
    assert(x ^ y == y ^ x) by (bit_vector);
    assert(x ^ y == 0 <==> x == y) by (bit_vector);
    assert(x ^ z == (x ^ y) ^ (y ^ z)) by (bit_vector);
    lemma_ones_zero(x ^ y);
    lemma_ones_of_xor(x ^ y, y ^ z);
}

/// The visual fingerprint of a file.
pub struct VisualFingerprintItem {
    pub path: String,
    pub width: i64,
    pub height: i64,
    pub ahash: String,
    pub dhash: String,
    pub phash: String,
}

/// What a [`VisualFingerprintItem`] stands for.
pub struct FingerprintView {
    pub path: Seq<char>,
    pub width: i64,
    pub height: i64,
    pub ahash: Seq<char>,
    pub dhash: Seq<char>,
    pub phash: Seq<char>,
}

impl View for VisualFingerprintItem {
    type V = FingerprintView;

    open spec fn view(&self) -> FingerprintView {
        FingerprintView {
            path: self.path@,
            width: self.width,
            height: self.height,
            ahash: self.ahash@,
            dhash: self.dhash@,
            phash: self.phash@,
        }
    }
}

/// What a list of fingerprints stands for.
pub open spec fn fingerprints_view(s: Seq<VisualFingerprintItem>) -> Seq<FingerprintView> {
    s.map_values(|f: VisualFingerprintItem| f@)
}

/// The paths of a list of items.
pub open spec fn item_paths(items: Seq<MediaItem>) -> Seq<Seq<char>> {
    items.map_values(|i: MediaItem| i.path@)
}

fn paths_of(items: &Vec<MediaItem>) -> (paths: Vec<String>)
    ensures
        texts_view(paths@) == item_paths(items@),
        paths.len() == items.len(),
{
    let mut out: Vec<String> = Vec::new();
    let mut i: usize = 0;
    while i < items.len()
        invariant
            i <= items.len(),
            out.len() == i,
            forall|j: int| 0 <= j < i ==> (#[trigger] out[j])@ == items[j].path@,
        decreases items.len() - i,
    {
        out.push(items[i].path.clone());
        i = i + 1;
    }
    assert(texts_view(out@) =~= item_paths(items@));
    out
}

/// Those of the first `n` items that no group of identical files holds.
pub open spec fn ungrouped(items: Seq<MediaItem>, grouped: Set<Seq<char>>, n: nat) -> Seq<MediaItem>
    decreases n,
{
    if n == 0 {
        Seq::empty()
    } else {
        let rest = ungrouped(items, grouped, (n - 1) as nat);
        if grouped.contains(items[n - 1].path@) {
            rest
        } else {
            rest.push(items[n - 1])
        }
    }
}

/// The items that can be visual duplicates. See [`ungrouped`].
pub fn visually_eligible(items: Vec<MediaItem>, grouped: &TextSet) -> (eligible: Vec<MediaItem>)
    ensures
        eligible@ == ungrouped(items@, grouped@, items@.len()),
{
    let ghost all = items@;
    let mut out: Vec<MediaItem> = Vec::new();
    for item in it: items.into_iter()
        invariant
            it.seq() == all,
            out@ == ungrouped(all, grouped@, it.index() as nat),
    {
        if !grouped.contains(item.path.as_str()) {
            out.push(item);
        }
    }
    out
}

/// The item behind a path that the sidecar was given: the last row with that path names an
/// item's path, and the first item with it is meant. `rows` are the sidecar paths of `paths`.
pub open spec fn origin(paths: Seq<Seq<char>>, rows: Seq<Seq<char>>, p: Seq<char>) -> Option<usize> {
    match last_position(rows, p) {
        Some(i) => first_position(paths, paths[i as int]),
        None => None,
    }
}

/// Finds the item behind a sidecar path.
struct OriginIndex {
    by_row: TextMap<usize>,
    by_path: TextMap<usize>,
}

impl OriginIndex {
    spec fn wf(self, paths: Seq<Seq<char>>, rows: Seq<Seq<char>>) -> bool {
        &&& forall|t: Seq<char>| #[trigger] looks_up(self.by_row@, t) == last_position(rows, t)
        &&& forall|t: Seq<char>| #[trigger] looks_up(self.by_path@, t) == first_position(paths, t)
    }

    fn new(paths: &Vec<String>, rows: &Vec<String>) -> (index: Self)
        ensures
            index.wf(texts_view(paths@), texts_view(rows@)),
    {
        OriginIndex { by_row: last_positions(rows), by_path: first_positions(paths) }
    }

    fn find(&self, paths: &Vec<String>, rows: &Vec<String>, p: &str) -> (i: Option<usize>)
        requires
            self.wf(texts_view(paths@), texts_view(rows@)),
            rows.len() == paths.len(),
        ensures
            i == origin(texts_view(paths@), texts_view(rows@), p@),
            i matches Some(k) ==> k < paths.len(),
    {
        match look_up(&self.by_row, p) {
            Some(r) => {
                proof {
                    positions_hold_text(texts_view(rows@), p@);
                    positions_hold_text(texts_view(paths@), texts_view(paths@)[r as int]);
                }
                look_up(&self.by_path, paths[r].as_str())
            },
            None => None,
        }
    }
}

/// The fingerprint that the cache holds of an item's file as it is, for the sidecar path `p`.
pub open spec fn cached_fingerprint(
    cache: Map<Seq<char>, CleanupFileCache>,
    item: MediaItem,
    p: Seq<char>,
) -> Option<FingerprintView> {
    if cache.contains_key(item.path@) && cache_matches(cache[item.path@], item) {
        let e = cache[item.path@];
        match (e.width, e.height, e.ahash, e.dhash, e.phash) {
            (Some(width), Some(height), Some(ahash), Some(dhash), Some(phash)) => Some(
                FingerprintView {
                    path: p,
                    width,
                    height,
                    ahash: ahash@,
                    dhash: dhash@,
                    phash: phash@,
                },
            ),
            _ => None,
        }
    } else {
        None
    }
}

fn find_cached_fingerprint(
    cache: &TextMap<CleanupFileCache>,
    item: &MediaItem,
    p: &String,
) -> (found: Option<VisualFingerprintItem>)
    ensures
        match found {
            Some(f) => cached_fingerprint(cache@, *item, p@) == Some(f@),
            None => cached_fingerprint(cache@, *item, p@) is None,
        },
{
    match cache.get(item.path.as_str()) {
        Some(e) => if cache_matches_media(e, item) {
            match (e.width, e.height, &e.ahash, &e.dhash, &e.phash) {
                (Some(width), Some(height), Some(ahash), Some(dhash), Some(phash)) => Some(
                    VisualFingerprintItem {
                        path: p.clone(),
                        width,
                        height,
                        ahash: ahash.clone(),
                        dhash: dhash.clone(),
                        phash: phash.clone(),
                    },
                ),
                _ => None,
            }
        } else {
            None
        },
        None => None,
    }
}

/// The fingerprints that the cache holds for the first `n` rows.
pub open spec fn known_fingerprints(
    cache: Map<Seq<char>, CleanupFileCache>,
    items: Seq<MediaItem>,
    rows: Seq<Seq<char>>,
    n: nat,
) -> Seq<FingerprintView>
    decreases n,
{
    if n == 0 {
        Seq::empty()
    } else {
        let rest = known_fingerprints(cache, items, rows, (n - 1) as nat);
        match origin(item_paths(items), rows, rows[n - 1]) {
            Some(i) => match cached_fingerprint(cache, items[i as int], rows[n - 1]) {
                Some(f) => rest.push(f),
                None => rest,
            },
            None => rest,
        }
    }
}

/// The paths of the first `n` rows for which the cache holds no fingerprint.
pub open spec fn unknown_rows(
    cache: Map<Seq<char>, CleanupFileCache>,
    items: Seq<MediaItem>,
    rows: Seq<Seq<char>>,
    n: nat,
) -> Seq<Seq<char>>
    decreases n,
{
    if n == 0 {
        Seq::empty()
    } else {
        let rest = unknown_rows(cache, items, rows, (n - 1) as nat);
        match origin(item_paths(items), rows, rows[n - 1]) {
            Some(i) => match cached_fingerprint(cache, items[i as int], rows[n - 1]) {
                Some(_) => rest,
                None => rest.push(rows[n - 1]),
            },
            None => rest,
        }
    }
}

/// Every image has a known fingerprint or is to be fingerprinted: rows are told apart without
/// loss.
pub proof fn every_row_is_known_or_pending(
    cache: Map<Seq<char>, CleanupFileCache>,
    items: Seq<MediaItem>,
    rows: Seq<Seq<char>>,
    n: nat,
)
    requires
        n <= rows.len(),
        rows.len() == items.len(),
        rows.len() <= usize::MAX,
    ensures
        known_fingerprints(cache, items, rows, n).len() + unknown_rows(cache, items, rows, n).len()
            == n,
    decreases n,
{
    if n > 0 {
        every_row_is_known_or_pending(cache, items, rows, (n - 1) as nat);
        let p = rows[n - 1];
        assert(rows.contains(p));
        positions_hold_text(rows, p);
        let i = last_position(rows, p)->0 as int;
        assert(item_paths(items).contains(item_paths(items)[i]));
        positions_hold_text(item_paths(items), item_paths(items)[i]);
    }
}

/// Splits the sidecar paths of a cleanup: the fingerprints that the cache holds, and the paths
/// of the files to fingerprint.
pub fn split_by_cached_fingerprint(
    items: &Vec<MediaItem>,
    rows: &Vec<String>,
    cache: &TextMap<CleanupFileCache>,
) -> (split: (Vec<VisualFingerprintItem>, Vec<String>))
    requires
        rows.len() == items.len(),
    ensures
        fingerprints_view(split.0@) == known_fingerprints(
            cache@,
            items@,
            texts_view(rows@),
            rows@.len(),
        ),
        texts_view(split.1@) == unknown_rows(cache@, items@, texts_view(rows@), rows@.len()),
{
    let ghost r = texts_view(rows@);
    let paths = paths_of(items);
    let index = OriginIndex::new(&paths, rows);
    let mut known: Vec<VisualFingerprintItem> = Vec::new();
    let mut unknown: Vec<String> = Vec::new();
    assert(fingerprints_view(known@) =~= Seq::empty());
    assert(texts_view(unknown@) =~= Seq::empty());
    let mut n: usize = 0;
    while n < rows.len()
        invariant
            n <= rows.len(),
            rows.len() == items.len(),
            r == texts_view(rows@),
            texts_view(paths@) == item_paths(items@),
            paths.len() == items.len(),
            index.wf(texts_view(paths@), r),
            fingerprints_view(known@) == known_fingerprints(cache@, items@, r, n as nat),
            texts_view(unknown@) == unknown_rows(cache@, items@, r, n as nat),
        decreases rows.len() - n,
    {
        let ghost known_before = fingerprints_view(known@);
        let ghost unknown_before = texts_view(unknown@);
        assert(r[n as int] == rows[n as int]@);
        if let Some(i) = index.find(&paths, rows, rows[n].as_str()) {
            match find_cached_fingerprint(cache, &items[i], &rows[n]) {
                Some(f) => {
                    let ghost added = f@;
                    known.push(f);
                    assert(fingerprints_view(known@) =~= known_before.push(added));
                },
                None => {
                    unknown.push(rows[n].clone());
                    assert(texts_view(unknown@) =~= unknown_before.push(r[n as int]));
                },
            }
        }
        n = n + 1;
    }
    (known, unknown)
}

/// A change of the cleanup cache.
pub struct CleanupCacheUpdate {
    pub path: String,
    pub size_bytes: Option<i64>,
    pub modified_at: Option<i64>,
    pub sha256: Option<String>,
    pub width: Option<i64>,
    pub height: Option<i64>,
    pub ahash: Option<String>,
    pub dhash: Option<String>,
    pub phash: Option<String>,
}

/// What a [`CleanupCacheUpdate`] stands for.
pub struct UpdateView {
    pub path: Seq<char>,
    pub size_bytes: Option<i64>,
    pub modified_at: Option<i64>,
    pub sha256: Option<Seq<char>>,
    pub width: Option<i64>,
    pub height: Option<i64>,
    pub ahash: Option<Seq<char>>,
    pub dhash: Option<Seq<char>>,
    pub phash: Option<Seq<char>>,
}

impl View for CleanupCacheUpdate {
    type V = UpdateView;

    open spec fn view(&self) -> UpdateView {
        UpdateView {
            path: self.path@,
            size_bytes: self.size_bytes,
            modified_at: self.modified_at,
            sha256: opt_view(self.sha256),
            width: self.width,
            height: self.height,
            ahash: opt_view(self.ahash),
            dhash: opt_view(self.dhash),
            phash: opt_view(self.phash),
        }
    }
}

/// What a list of cache changes stands for.
pub open spec fn updates_view(s: Seq<CleanupCacheUpdate>) -> Seq<UpdateView> {
    s.map_values(|u: CleanupCacheUpdate| u@)
}

/// The change that records a hash.
pub open spec fn hash_update(c: CandidateView, hash: Seq<char>) -> UpdateView {
    UpdateView {
        path: c.path,
        size_bytes: c.size_bytes,
        modified_at: c.modified_at,
        sha256: Some(hash),
        width: None,
        height: None,
        ahash: None,
        dhash: None,
        phash: None,
    }
}

/// See [`hash_update`].
pub fn cache_update_for_hash(c: &CleanupCandidate, hash: &String) -> (u: CleanupCacheUpdate)
    ensures
        u@ == hash_update(c@, hash@),
{
    CleanupCacheUpdate {
        path: c.path.clone(),
        size_bytes: c.size_bytes,
        modified_at: c.modified_at,
        sha256: Some(hash.clone()),
        width: None,
        height: None,
        ahash: None,
        dhash: None,
        phash: None,
    }
}

/// The change that records a fingerprint.
pub open spec fn fingerprint_update(item: MediaItem, f: FingerprintView) -> UpdateView {
    UpdateView {
        path: item.path@,
        size_bytes: item.size_bytes,
        modified_at: item.modified_at,
        sha256: None,
        width: Some(f.width),
        height: Some(f.height),
        ahash: Some(f.ahash),
        dhash: Some(f.dhash),
        phash: Some(f.phash),
    }
}

/// The changes for the first `n` fresh fingerprints: one for each that belongs to an item.
pub open spec fn fingerprint_updates(
    items: Seq<MediaItem>,
    rows: Seq<Seq<char>>,
    fps: Seq<FingerprintView>,
    n: nat,
) -> Seq<UpdateView>
    decreases n,
{
    if n == 0 {
        Seq::empty()
    } else {
        let rest = fingerprint_updates(items, rows, fps, (n - 1) as nat);
        match origin(item_paths(items), rows, fps[n - 1].path) {
            Some(i) => rest.push(fingerprint_update(items[i as int], fps[n - 1])),
            None => rest,
        }
    }
}

/// See [`fingerprint_updates`].
pub fn cache_updates_for_fingerprints(
    items: &Vec<MediaItem>,
    rows: &Vec<String>,
    fps: &Vec<VisualFingerprintItem>,
) -> (updates: Vec<CleanupCacheUpdate>)
    requires
        rows.len() == items.len(),
    ensures
        updates_view(updates@) == fingerprint_updates(
            items@,
            texts_view(rows@),
            fingerprints_view(fps@),
            fps@.len(),
        ),
{
    let ghost r = texts_view(rows@);
    let ghost views = fingerprints_view(fps@);
    let paths = paths_of(items);
    let index = OriginIndex::new(&paths, rows);
    let mut out: Vec<CleanupCacheUpdate> = Vec::new();
    assert(updates_view(out@) =~= Seq::empty());
    let mut n: usize = 0;
    while n < fps.len()
        invariant
            n <= fps.len(),
            rows.len() == items.len(),
            r == texts_view(rows@),
            views == fingerprints_view(fps@),
            texts_view(paths@) == item_paths(items@),
            paths.len() == items.len(),
            index.wf(texts_view(paths@), r),
            updates_view(out@) == fingerprint_updates(items@, r, views, n as nat),
        decreases fps.len() - n,
    {
        let ghost before = updates_view(out@);
        let f = &fps[n];
        assert(views[n as int] == f@);
        if let Some(i) = index.find(&paths, rows, f.path.as_str()) {
            let item = &items[i];
            let update = CleanupCacheUpdate {
                path: item.path.clone(),
                size_bytes: item.size_bytes,
                modified_at: item.modified_at,
                sha256: None,
                width: Some(f.width),
                height: Some(f.height),
                ahash: Some(f.ahash.clone()),
                dhash: Some(f.dhash.clone()),
                phash: Some(f.phash.clone()),
            };
            let ghost added = update@;
            out.push(update);
            assert(updates_view(out@) =~= before.push(added));
        }
        n = n + 1;
    }
    out
}

/// What a cache change writes.
pub enum CacheWrite {
    /// The hash; the fingerprint stays as it was.
    Hash,
    /// The fingerprint; the hash stays as it was.
    Fingerprint,
    /// Nothing.
    Nothing,
}

/// A change with a hash and no fingerprint writes the hash, one with a fingerprint and no hash
/// writes the fingerprint, any other writes nothing.
pub fn cache_write(update: &CleanupCacheUpdate) -> (w: CacheWrite)
    ensures
        w is Hash <==> update@.sha256 is Some && update@.ahash is None,
        w is Fingerprint <==> update@.sha256 is None && update@.ahash is Some,
        w is Nothing <==> (update@.sha256 is Some <==> update@.ahash is Some),
{
    if update.sha256.is_some() && update.ahash.is_none() {
        CacheWrite::Hash
    } else if update.sha256.is_none() && update.ahash.is_some() {
        CacheWrite::Fingerprint
    } else {
        CacheWrite::Nothing
    }
}

/// A fingerprint under the path of its item.
pub struct KeyedFingerprint {
    pub path: String,
    pub fingerprint: VisualFingerprintItem,
}

/// What a [`KeyedFingerprint`] stands for.
pub struct KeyedView {
    pub path: Seq<char>,
    pub fingerprint: FingerprintView,
}

impl View for KeyedFingerprint {
    type V = KeyedView;

    open spec fn view(&self) -> KeyedView {
        KeyedView { path: self.path@, fingerprint: self.fingerprint@ }
    }
}

/// What a list of keyed fingerprints stands for.
pub open spec fn keyed_view(s: Seq<KeyedFingerprint>) -> Seq<KeyedView> {
    s.map_values(|k: KeyedFingerprint| k@)
}

/// The paths of keyed fingerprints.
pub open spec fn keyed_paths(s: Seq<KeyedView>) -> Seq<Seq<char>> {
    s.map_values(|k: KeyedView| k.path)
}

/// The first `n` fingerprints that belong to an item, under the item's path.
pub open spec fn keyed_of(
    paths: Seq<Seq<char>>,
    rows: Seq<Seq<char>>,
    fps: Seq<FingerprintView>,
    n: nat,
) -> Seq<KeyedView>
    decreases n,
{
    if n == 0 {
        Seq::empty()
    } else {
        let rest = keyed_of(paths, rows, fps, (n - 1) as nat);
        match last_position(rows, fps[n - 1].path) {
            Some(i) => rest.push(
                KeyedView { path: paths[i as int], fingerprint: fps[n - 1] },
            ),
            None => rest,
        }
    }
}

/// Whether `sorted` is `list` in the order of the paths, entries of one path in the order in
/// which they stood.
pub open spec fn sorted_by_path(list: Seq<KeyedView>, sorted: Seq<KeyedView>) -> bool {
    exists|order: Seq<usize>| #[trigger]
        sorts_texts(keyed_paths(list), order) && sorted == order.map_values(
            |i: usize| list[i as int],
        )
}

fn clone_fingerprint(f: &VisualFingerprintItem) -> (r: VisualFingerprintItem)
    ensures
        r@ == f@,
{
    VisualFingerprintItem {
        path: f.path.clone(),
        width: f.width,
        height: f.height,
        ahash: f.ahash.clone(),
        dhash: f.dhash.clone(),
        phash: f.phash.clone(),
    }
}

/// The fingerprints that belong to an item, under the item's path and in the order of paths.
pub fn keyed_fingerprints(
    items: &Vec<MediaItem>,
    rows: &Vec<String>,
    fps: &Vec<VisualFingerprintItem>,
) -> (keyed: Vec<KeyedFingerprint>)
    requires
        rows.len() == items.len(),
    ensures
        sorted_by_path(
            keyed_of(item_paths(items@), texts_view(rows@), fingerprints_view(fps@), fps@.len()),
            keyed_view(keyed@),
        ),
        forall|i: int|
            0 <= i < keyed.len() ==> item_paths(items@).contains((#[trigger] keyed[i]).path@),
{
    let ghost paths = item_paths(items@);
    let ghost r = texts_view(rows@);
    let ghost views = fingerprints_view(fps@);
    let by_row = last_positions(rows);
    let mut keys: Vec<String> = Vec::new();
    let mut sources: Vec<usize> = Vec::new();
    assert(texts_view(keys@) =~= keyed_paths(Seq::empty()));
    let mut n: usize = 0;
    while n < fps.len()
        invariant
            n <= fps.len(),
            rows.len() == items.len(),
            paths == item_paths(items@),
            r == texts_view(rows@),
            views == fingerprints_view(fps@),
            forall|t: Seq<char>| #[trigger] looks_up(by_row@, t) == last_position(r, t),
            keys.len() == sources.len(),
            keys.len() == keyed_of(paths, r, views, n as nat).len(),
            forall|k: int|
                0 <= k < keys.len() ==> (#[trigger] sources[k]) < fps.len() && keyed_of(
                    paths,
                    r,
                    views,
                    n as nat,
                )[k] == (KeyedView { path: keys[k]@, fingerprint: views[sources[k] as int] }),
            forall|k: int| 0 <= k < keys.len() ==> paths.contains((#[trigger] keys[k])@),
        decreases fps.len() - n,
    {
        assert(views[n as int] == fps[n as int]@);
        if let Some(i) = look_up(&by_row, fps[n].path.as_str()) {
            proof {
                positions_hold_text(r, views[n as int].path);
            }
            assert(paths[i as int] == items[i as int].path@);
            keys.push(items[i].path.clone());
            sources.push(n);
            assert(paths.contains(keys[keys.len() - 1]@));
        }
        n = n + 1;
    }
    let ghost list = keyed_of(paths, r, views, fps@.len());
    assert forall|k: int| 0 <= k < keys.len() implies list[k].path == (#[trigger] keys[k])@ by {
        assert(sources[k] < fps.len());
    }
    assert(texts_view(keys@) =~= keyed_paths(list));
    let order = sort_texts(&keys);
    let mut out: Vec<KeyedFingerprint> = Vec::new();
    let mut k: usize = 0;
    while k < order.len()
        invariant
            k <= order.len(),
            out.len() == k,
            sorts_texts(keyed_paths(list), order@),
            keys.len() == list.len(),
            sources.len() == list.len(),
            views == fingerprints_view(fps@),
            forall|k: int|
                0 <= k < keys.len() ==> (#[trigger] sources[k]) < fps.len() && list[k] == (
                KeyedView { path: keys[k]@, fingerprint: views[sources[k] as int] }),
            forall|k: int| 0 <= k < keys.len() ==> paths.contains((#[trigger] keys[k])@),
            forall|j: int| 0 <= j < k ==> (#[trigger] out[j])@ == list[order[j] as int],
            forall|j: int| 0 <= j < k ==> paths.contains((#[trigger] out[j]).path@),
        decreases order.len() - k,
    {
        let p = order[k];
        assert(keyed_paths(list).len() == list.len());
        let source = sources[p];
        assert(paths.contains(keys[p as int]@));
        out.push(
            KeyedFingerprint {
                path: keys[p].clone(),
                fingerprint: clone_fingerprint(&fps[source]),
            },
        );
        k = k + 1;
    }
    assert(keyed_view(out@) =~= order@.map_values(|i: usize| list[i as int]));
    out
}

/// The distance of two hashes; 65 where one is no number of 128 bits at most.
pub open spec fn distance(a: Seq<char>, b: Seq<char>) -> int {
    match hamming(a, b) {
        Some(d) => d as int,
        None => 65,
    }
}

fn hash_distance(a: &str, b: &str) -> (d: i64)
    ensures
        d == distance(a@, b@),
        0 <= d <= 128,
{
    match hex_hamming(a, b) {
        Some(d) => d,
        None => 65,
    }
}

/// Whether two fingerprints are of images that look alike: each of the three hashes is within
/// its own distance.
pub open spec fn look_alike(a: FingerprintView, b: FingerprintView) -> bool {
    &&& distance(a.phash, b.phash) <= 6
    &&& distance(a.dhash, b.dhash) <= 8
    &&& distance(a.ahash, b.ahash) <= 10
}

/// The sum of the three distances.
pub open spec fn total_distance(a: FingerprintView, b: FingerprintView) -> int {
    distance(a.phash, b.phash) + distance(a.dhash, b.dhash) + distance(a.ahash, b.ahash)
}

/// Whether position `j` joins the group that position `i` starts: it stands behind it, its path
/// is in no group yet, and the two look alike.
pub open spec fn joins(k: Seq<KeyedView>, used: Set<Seq<char>>, i: usize, j: usize) -> bool {
    j > i && !used.contains(k[j as int].path) && look_alike(
        k[i as int].fingerprint,
        k[j as int].fingerprint,
    )
}

/// The group that position `i` starts among the first `t` positions of `list`.
pub open spec fn members(
    k: Seq<KeyedView>,
    used: Set<Seq<char>>,
    list: Seq<usize>,
    i: usize,
    t: nat,
) -> Seq<usize>
    decreases t,
{
    if t == 0 {
        seq![i]
    } else {
        let rest = members(k, used, list, i, (t - 1) as nat);
        if joins(k, used, i, list[t - 1]) {
            rest.push(list[t - 1])
        } else {
            rest
        }
    }
}

/// The largest distance of a member from position `i`, among the first `t` positions of `list`.
pub open spec fn widest(
    k: Seq<KeyedView>,
    used: Set<Seq<char>>,
    list: Seq<usize>,
    i: usize,
    t: nat,
) -> int
    decreases t,
{
    if t == 0 {
        0
    } else {
        let rest = widest(k, used, list, i, (t - 1) as nat);
        let d = total_distance(k[i as int].fingerprint, k[list[t - 1] as int].fingerprint);
        if joins(k, used, i, list[t - 1]) && rest < d {
            d
        } else {
            rest
        }
    }
}

/// The groups found so far, each with its width, and the paths in them.
pub struct Matching {
    pub used: Set<Seq<char>>,
    pub found: Seq<(Seq<usize>, int)>,
}

/// The paths of the given positions.
pub open spec fn paths_at(k: Seq<KeyedView>, m: Seq<usize>) -> Set<Seq<char>> {
    Set::new(|p: Seq<char>| exists|x: int| 0 <= x < m.len() && k[#[trigger] m[x] as int].path == p)
}

/// What becomes of a matching when position `i` may start a group.
pub open spec fn matched_from(k: Seq<KeyedView>, s: Matching, list: Seq<usize>, i: usize) -> Matching {
    if s.used.contains(k[i as int].path) {
        s
    } else {
        let m = members(k, s.used, list, i, list.len());
        if m.len() < 2 {
            s
        } else {
            Matching {
                used: s.used.union(paths_at(k, m)),
                found: s.found.push((m, widest(k, s.used, list, i, list.len()))),
            }
        }
    }
}

/// The matching behind the first `n` positions of `list`.
pub open spec fn matched_list(k: Seq<KeyedView>, s: Matching, list: Seq<usize>, n: nat) -> Matching
    decreases n,
{
    if n == 0 {
        s
    } else {
        matched_from(k, matched_list(k, s, list, (n - 1) as nat), list, list[n - 1])
    }
}

/// The matching behind the first `n` lists.
pub open spec fn matched_lists(
    k: Seq<KeyedView>,
    lists: Seq<(Seq<char>, Seq<usize>)>,
    n: nat,
) -> Matching
    decreases n,
{
    if n == 0 {
        Matching { used: Set::empty(), found: Seq::empty() }
    } else {
        let list = lists[n - 1].1;
        matched_list(k, matched_lists(k, lists, (n - 1) as nat), list, list.len())
    }
}

/// The average hashes of keyed fingerprints.
pub open spec fn average_hashes(k: Seq<KeyedView>) -> Seq<Seq<char>> {
    k.map_values(|e: KeyedView| e.fingerprint.ahash)
}

/// The groups of fingerprints that look alike. Only fingerprints with the same average hash are
/// held against each other.
pub open spec fn matching(k: Seq<KeyedView>) -> Matching {
    let lists = positions_by_text(average_hashes(k), k.len());
    matched_lists(k, lists, lists.len())
}

/// A group of positions that look like the first of them, and the largest distance from it.
pub struct VisualMatch {
    pub members: Vec<usize>,
    pub distance: i64,
}

/// What a list of matches stands for.
pub open spec fn matches_view(s: Seq<VisualMatch>) -> Seq<(Seq<usize>, int)> {
    s.map_values(|m: VisualMatch| (m.members@, m.distance as int))
}

fn match_from(
    keyed: &Vec<KeyedFingerprint>,
    used: &TextSet,
    list: &Vec<usize>,
    i: usize,
) -> (m: VisualMatch)
    requires
        i < keyed.len(),
        forall|t: int| 0 <= t < list.len() ==> #[trigger] list[t] < keyed.len(),
    ensures
        m.members@ == members(keyed_view(keyed@), used@, list@, i, list@.len()),
        m.distance == widest(keyed_view(keyed@), used@, list@, i, list@.len()),
        forall|t: int| 0 <= t < m.members.len() ==> #[trigger] m.members[t] < keyed.len(),
{
    let ghost k = keyed_view(keyed@);
    let mut found: Vec<usize> = Vec::new();
    found.push(i);
    assert(found@ =~= seq![i]);
    let mut far: i64 = 0;
    let mut t: usize = 0;
    while t < list.len()
        invariant
            k == keyed_view(keyed@),
            i < keyed.len(),
            forall|t: int| 0 <= t < list.len() ==> #[trigger] list[t] < keyed.len(),
            t <= list.len(),
            found@ == members(k, used@, list@, i, t as nat),
            far == widest(k, used@, list@, i, t as nat),
            0 <= far <= 384,
            forall|t: int| 0 <= t < found.len() ==> #[trigger] found[t] < keyed.len(),
        decreases list.len() - t,
    {
        let j = list[t];
        if j > i && !used.contains(keyed[j].path.as_str()) {
            let a = &keyed[i].fingerprint;
            let b = &keyed[j].fingerprint;
            assert(a@ == k[i as int].fingerprint && b@ == k[j as int].fingerprint);
            let pd: i64 = hash_distance(a.phash.as_str(), b.phash.as_str());
            let dd: i64 = hash_distance(a.dhash.as_str(), b.dhash.as_str());
            let ad: i64 = hash_distance(a.ahash.as_str(), b.ahash.as_str());
            if pd <= 6 && dd <= 8 && ad <= 10 {
                if far < pd + dd + ad {
                    far = pd + dd + ad;
                }
                found.push(j);
            }
        }
        t = t + 1;
    }
    VisualMatch { members: found, distance: far }
}

fn use_paths(used: &mut TextSet, keyed: &Vec<KeyedFingerprint>, m: &Vec<usize>)
    requires
        forall|t: int| 0 <= t < m.len() ==> #[trigger] m[t] < keyed.len(),
    ensures
        final(used)@ == old(used)@.union(paths_at(keyed_view(keyed@), m@)),
{
    let ghost k = keyed_view(keyed@);
    let ghost before = used@;
    let mut x: usize = 0;
    while x < m.len()
        invariant
            k == keyed_view(keyed@),
            forall|t: int| 0 <= t < m.len() ==> #[trigger] m[t] < keyed.len(),
            x <= m.len(),
            forall|p: Seq<char>| #[trigger]
                used@.contains(p) <==> before.contains(p) || exists|y: int|
                    0 <= y < x && k[#[trigger] m[y] as int].path == p,
        decreases m.len() - x,
    {
        let j = m[x];
        used.insert(keyed[j].path.clone());
        assert(k[m[x as int] as int].path == keyed[j as int].path@);
        x = x + 1;
    }
    assert(used@ =~= before.union(paths_at(k, m@)));
}

/// The groups of fingerprints that look alike. See [`matching`].
pub fn match_fingerprints(keyed: &Vec<KeyedFingerprint>) -> (found: Vec<VisualMatch>)
    ensures
        matches_view(found@) == matching(keyed_view(keyed@)).found,
        forall|g: int, t: int|
            0 <= g < found.len() && 0 <= t < found[g].members.len() ==> #[trigger] found[g].members[t]
                < keyed.len(),
{
    let ghost k = keyed_view(keyed@);
    let mut hashes: Vec<String> = Vec::new();
    let mut i: usize = 0;
    while i < keyed.len()
        invariant
            i <= keyed.len(),
            hashes.len() == i,
            forall|j: int| 0 <= j < i ==> (#[trigger] hashes[j])@ == keyed[j].fingerprint.ahash@,
        decreases keyed.len() - i,
    {
        hashes.push(keyed[i].fingerprint.ahash.clone());
        i = i + 1;
    }
    assert(texts_view(hashes@) =~= average_hashes(k));
    let lists = group_positions(&hashes);
    let ghost grouped = positions_by_text(average_hashes(k), k.len());
    let mut used = TextSet::new();
    let mut found: Vec<VisualMatch> = Vec::new();
    assert(matches_view(found@) =~= Seq::empty());
    let mut q: usize = 0;
    while q < lists.len()
        invariant
            k == keyed_view(keyed@),
            q <= lists.len(),
            lists.len() == grouped.len(),
            forall|q: int| 0 <= q < lists.len() ==> (#[trigger] lists[q])@ == grouped[q].1,
            forall|q: int, x: int|
                0 <= q < lists.len() && 0 <= x < lists[q].len() ==> #[trigger] lists[q][x]
                    < keyed.len(),
            used@ == matched_lists(k, grouped, q as nat).used,
            matches_view(found@) == matched_lists(k, grouped, q as nat).found,
            forall|g: int, t: int|
                0 <= g < found.len() && 0 <= t < found[g].members.len()
                    ==> #[trigger] found[g].members[t] < keyed.len(),
        decreases lists.len() - q,
    {
        let list = &lists[q];
        let ghost start = matched_lists(k, grouped, q as nat);
        assert(forall|x: int| 0 <= x < list.len() ==> #[trigger] list[x] < keyed.len()) by {
            assert forall|x: int| 0 <= x < list.len() implies #[trigger] list[x] < keyed.len() by {
                assert(lists[q as int][x] < keyed.len());
            }
        }
        let mut n: usize = 0;
        while n < list.len()
            invariant
                k == keyed_view(keyed@),
                n <= list.len(),
                forall|x: int| 0 <= x < list.len() ==> #[trigger] list[x] < keyed.len(),
                used@ == matched_list(k, start, list@, n as nat).used,
                matches_view(found@) == matched_list(k, start, list@, n as nat).found,
                forall|g: int, t: int|
                    0 <= g < found.len() && 0 <= t < found[g].members.len()
                        ==> #[trigger] found[g].members[t] < keyed.len(),
            decreases list.len() - n,
        {
            let i = list[n];
            if !used.contains(keyed[i].path.as_str()) {
                let m = match_from(keyed, &used, list, i);
                if m.members.len() >= 2 {
                    let ghost before = matches_view(found@);
                    let ghost added = (m.members@, m.distance as int);
                    use_paths(&mut used, keyed, &m.members);
                    found.push(m);
                    assert(matches_view(found@) =~= before.push(added));
                }
            }
            n = n + 1;
        }
        q = q + 1;
    }
    found
}

/// The candidate of an item's path, with the size of its first fingerprint.
pub open spec fn sized_candidate(
    items: Seq<MediaItem>,
    k: Seq<KeyedView>,
    p: Seq<char>,
) -> Option<CandidateView> {
    match last_position(item_paths(items), p) {
        Some(i) => match first_position(keyed_paths(k), p) {
            Some(e) => Some(
                CandidateView {
                    width: Some(k[e as int].fingerprint.width),
                    height: Some(k[e as int].fingerprint.height),
                    ..candidate_of(items[i as int])
                },
            ),
            None => Some(candidate_of(items[i as int])),
        },
        None => None,
    }
}

/// The candidates of the first `n` members.
pub open spec fn match_candidates(
    items: Seq<MediaItem>,
    k: Seq<KeyedView>,
    m: Seq<usize>,
    n: nat,
) -> Seq<CandidateView>
    decreases n,
{
    if n == 0 {
        Seq::empty()
    } else {
        let rest = match_candidates(items, k, m, (n - 1) as nat);
        match sized_candidate(items, k, k[m[n - 1] as int].path) {
            Some(c) => rest.push(c),
            None => rest,
        }
    }
}

/// The groups of duplicates that the first `n` matches make, numbered from one.
pub open spec fn visual_groups(
    items: Seq<MediaItem>,
    k: Seq<KeyedView>,
    found: Seq<(Seq<usize>, int)>,
    n: nat,
) -> Seq<GroupView>
    decreases n,
{
    if n == 0 {
        Seq::empty()
    } else {
        let rest = visual_groups(items, k, found, (n - 1) as nat);
        let c = match_candidates(items, k, found[n - 1].0, found[n - 1].0.len());
        match keeper_path(c) {
            Some(keep) => rest.push(
                GroupView {
                    id: "visual-"@ + text::decimal(rest.len() + 1),
                    kind: "visual-image"@,
                    reason: "Strict perceptual hash match"@,
                    score: Some(found[n - 1].1 as i64),
                    default_keep_path: keep,
                    candidates: c,
                },
            ),
            None => rest,
        }
    }
}

/// The groups of images that look alike, of the items whose sidecar paths are `rows`, by the
/// fingerprints known of them.
pub fn visual_duplicate_groups(
    items: &Vec<MediaItem>,
    rows: &Vec<String>,
    fps: &Vec<VisualFingerprintItem>,
) -> (groups: Vec<CleanupDuplicateGroup>)
    requires
        rows.len() == items.len(),
    ensures
        exists|k: Seq<KeyedView>| #[trigger]
            sorted_by_path(
                keyed_of(
                    item_paths(items@),
                    texts_view(rows@),
                    fingerprints_view(fps@),
                    fps@.len(),
                ),
                k,
            ) && groups_view(groups@) == visual_groups(
                items@,
                k,
                matching(k).found,
                matching(k).found.len(),
            ),
        forall|g: int|
            0 <= g < groups.len() ==> keeps_the_best(
                (#[trigger] groups[g]).default_keep_path@,
                groups[g].candidates@,
            ),
{
    let keyed = keyed_fingerprints(items, rows, fps);
    let found = match_fingerprints(&keyed);
    let ghost k = keyed_view(keyed@);
    let ghost fv = matches_view(found@);
    let paths = paths_of(items);
    let by_path = last_positions(&paths);
    let mut keyed_names: Vec<String> = Vec::new();
    let mut i: usize = 0;
    while i < keyed.len()
        invariant
            i <= keyed.len(),
            keyed_names.len() == i,
            forall|j: int| 0 <= j < i ==> (#[trigger] keyed_names[j])@ == keyed[j].path@,
        decreases keyed.len() - i,
    {
        keyed_names.push(keyed[i].path.clone());
        i = i + 1;
    }
    assert(texts_view(keyed_names@) =~= keyed_paths(k));
    let by_key = first_positions(&keyed_names);
    let mut out: Vec<CleanupDuplicateGroup> = Vec::new();
    assert(groups_view(out@) =~= Seq::empty());
    let mut n: usize = 0;
    while n < found.len()
        invariant
            n <= found.len(),
            out.len() <= n,
            k == keyed_view(keyed@),
            fv == matches_view(found@),
            texts_view(paths@) == item_paths(items@),
            paths.len() == items.len(),
            texts_view(keyed_names@) == keyed_paths(k),
            keyed_names.len() == keyed.len(),
            forall|t: Seq<char>| #[trigger]
                looks_up(by_path@, t) == last_position(item_paths(items@), t),
            forall|t: Seq<char>| #[trigger] looks_up(by_key@, t) == first_position(keyed_paths(k), t),
            forall|g: int, t: int|
                0 <= g < found.len() && 0 <= t < found[g].members.len()
                    ==> #[trigger] found[g].members[t] < keyed.len(),
            groups_view(out@) == visual_groups(items@, k, fv, n as nat),
        decreases found.len() - n,
    {
        let m = &found[n].members;
        let mut files: Vec<CleanupCandidate> = Vec::new();
        assert(candidates_view(files@) =~= Seq::empty());
        let mut x: usize = 0;
        while x < m.len()
            invariant
                x <= m.len(),
                n < found.len(),
                m == found[n as int].members,
                k == keyed_view(keyed@),
                texts_view(paths@) == item_paths(items@),
                paths.len() == items.len(),
                texts_view(keyed_names@) == keyed_paths(k),
                keyed_names.len() == keyed.len(),
                forall|t: Seq<char>| #[trigger]
                    looks_up(by_path@, t) == last_position(item_paths(items@), t),
                forall|t: Seq<char>| #[trigger]
                    looks_up(by_key@, t) == first_position(keyed_paths(k), t),
                forall|g: int, t: int|
                    0 <= g < found.len() && 0 <= t < found[g].members.len()
                        ==> #[trigger] found[g].members[t] < keyed.len(),
                candidates_view(files@) == match_candidates(items@, k, m@, x as nat),
            decreases m.len() - x,
        {
            assert(found[n as int].members[x as int] < keyed.len());
            let p = &keyed[m[x]].path;
            let ghost before = candidates_view(files@);
            proof {
                positions_hold_text(item_paths(items@), p@);
                positions_hold_text(keyed_paths(k), p@);
            }
            if let Some(item) = look_up(&by_path, p.as_str()) {
                let mut c = cleanup_candidate_from_media(&items[item]);
                if let Some(e) = look_up(&by_key, p.as_str()) {
                    c.width = Some(keyed[e].fingerprint.width);
                    c.height = Some(keyed[e].fingerprint.height);
                }
                let ghost added = c@;
                files.push(c);
                assert(candidates_view(files@) =~= before.push(added));
            }
            x = x + 1;
        }
        let ghost files_view = candidates_view(files@);
        let ghost before = groups_view(out@);
        if let Some(keeper) = choose_cleanup_keeper(files.as_slice()) {
            let number = text::to_decimal(out.len() as u128 + 1);
            let group = CleanupDuplicateGroup {
                id: text::concat2("visual-", number.as_str()),
                kind: "visual-image".to_string(),
                reason: "Strict perceptual hash match".to_string(),
                score: Some(found[n].distance),
                default_keep_path: keeper,
                candidates: files,
            };
            let ghost added = group@;
            out.push(group);
            assert(groups_view(out@) =~= before.push(added));
        }
        n = n + 1;
    }
    proof {
        look_alikes_keep_the_best(items@, k, fv, fv.len(), out@);
    }
    out
}

/// Whether each group of a matching has two members at least, whose paths are in use, and no
/// path is in two groups.
pub open spec fn keeps_paths_apart(k: Seq<KeyedView>, s: Matching) -> bool {
    &&& forall|g: int| 0 <= g < s.found.len() ==> (#[trigger] s.found[g]).0.len() >= 2
    &&& forall|g: int, x: int|
        0 <= g < s.found.len() && 0 <= x < s.found[g].0.len() ==> s.used.contains(
            k[#[trigger] s.found[g].0[x] as int].path,
        )
    &&& forall|g: int, h: int, x: int, y: int|
        0 <= g < h < s.found.len() && 0 <= x < s.found[g].0.len() && 0 <= y < s.found[h].0.len()
            ==> k[#[trigger] s.found[g].0[x] as int].path != k[#[trigger] s.found[h].0[y] as int].path
}

/// Whether every later member of each group looks like the first one.
pub open spec fn members_look_alike(k: Seq<KeyedView>, s: Matching) -> bool {
    forall|g: int, x: int|
        0 <= g < s.found.len() && 1 <= x < s.found[g].0.len() ==> look_alike(
            k[s.found[g].0[0] as int].fingerprint,
            k[#[trigger] s.found[g].0[x] as int].fingerprint,
        )
}

proof fn lemma_members(k: Seq<KeyedView>, used: Set<Seq<char>>, list: Seq<usize>, i: usize, t: nat)
    requires
        t <= list.len(),
        !used.contains(k[i as int].path),
    ensures
        members(k, used, list, i, t).len() >= 1,
        members(k, used, list, i, t)[0] == i,
        forall|x: int|
            0 <= x < members(k, used, list, i, t).len() ==> !used.contains(
                k[#[trigger] members(k, used, list, i, t)[x] as int].path,
            ),
        forall|x: int|
            1 <= x < members(k, used, list, i, t).len() ==> look_alike(
                k[i as int].fingerprint,
                k[#[trigger] members(k, used, list, i, t)[x] as int].fingerprint,
            ),
    decreases t,
{
    if t > 0 {
        lemma_members(k, used, list, i, (t - 1) as nat);
        let rest = members(k, used, list, i, (t - 1) as nat);
        let all = members(k, used, list, i, t);
        assert forall|x: int| 0 <= x < all.len() implies !used.contains(
            k[#[trigger] all[x] as int].path,
        ) by {
            if x < rest.len() {
                assert(all[x] == rest[x]);
            }
        }
        assert forall|x: int| 1 <= x < all.len() implies look_alike(
            k[i as int].fingerprint,
            k[#[trigger] all[x] as int].fingerprint,
        ) by {
            if x < rest.len() {
                assert(all[x] == rest[x]);
            }
        }
    }
}

proof fn lemma_matched_from(k: Seq<KeyedView>, s: Matching, list: Seq<usize>, i: usize)
    requires
        keeps_paths_apart(k, s),
        members_look_alike(k, s),
    ensures
        keeps_paths_apart(k, matched_from(k, s, list, i)),
        members_look_alike(k, matched_from(k, s, list, i)),
{
    let r = matched_from(k, s, list, i);
    let m = members(k, s.used, list, i, list.len());
    if !s.used.contains(k[i as int].path) && m.len() >= 2 {
        lemma_members(k, s.used, list, i, list.len());
        let last = s.found.len() as int;
        assert(r.found[last].0 == m);
        assert forall|g: int| 0 <= g < r.found.len() implies (#[trigger] r.found[g]).0.len() >= 2 by {
            if g < last {
                assert(r.found[g] == s.found[g]);
            }
        }
        assert forall|g: int, x: int|
            0 <= g < r.found.len() && 0 <= x < r.found[g].0.len() implies r.used.contains(
            k[#[trigger] r.found[g].0[x] as int].path,
        ) by {
            if g < last {
                assert(r.found[g].0[x] == s.found[g].0[x]);
            } else {
                assert(k[m[x] as int].path == k[r.found[g].0[x] as int].path);
            }
        }
        assert forall|g: int, h: int, x: int, y: int|
            0 <= g < h < r.found.len() && 0 <= x < r.found[g].0.len() && 0 <= y
                < r.found[h].0.len() implies k[#[trigger] r.found[g].0[x] as int].path
            != k[#[trigger] r.found[h].0[y] as int].path by {
            assert(r.found[g].0[x] == s.found[g].0[x]);
            assert(s.used.contains(k[s.found[g].0[x] as int].path));
            if h < last {
                assert(r.found[h].0[y] == s.found[h].0[y]);
            } else {
                assert(!s.used.contains(k[m[y] as int].path));
            }
        }
        assert forall|g: int, x: int|
            0 <= g < r.found.len() && 1 <= x < r.found[g].0.len() implies look_alike(
            k[r.found[g].0[0] as int].fingerprint,
            k[#[trigger] r.found[g].0[x] as int].fingerprint,
        ) by {
            if g < last {
                assert(r.found[g].0[x] == s.found[g].0[x]);
            } else {
                assert(look_alike(k[i as int].fingerprint, k[m[x] as int].fingerprint));
            }
        }
    }
}

proof fn lemma_matched_list(k: Seq<KeyedView>, s: Matching, list: Seq<usize>, n: nat)
    requires
        keeps_paths_apart(k, s),
        members_look_alike(k, s),
    ensures
        keeps_paths_apart(k, matched_list(k, s, list, n)),
        members_look_alike(k, matched_list(k, s, list, n)),
    decreases n,
{
    if n > 0 {
        lemma_matched_list(k, s, list, (n - 1) as nat);
        lemma_matched_from(k, matched_list(k, s, list, (n - 1) as nat), list, list[n - 1]);
    }
}

proof fn lemma_matched_lists(k: Seq<KeyedView>, lists: Seq<(Seq<char>, Seq<usize>)>, n: nat)
    ensures
        keeps_paths_apart(k, matched_lists(k, lists, n)),
        members_look_alike(k, matched_lists(k, lists, n)),
    decreases n,
{
    if n > 0 {
        lemma_matched_lists(k, lists, (n - 1) as nat);
        let list = lists[n - 1].1;
        lemma_matched_list(k, matched_lists(k, lists, (n - 1) as nat), list, list.len());
    }
}

/// Groups of images that look alike have two members at least, a path is in one group at most,
/// and every member looks like the first of its group.
pub proof fn matching_keeps_paths_apart(k: Seq<KeyedView>)
    ensures
        keeps_paths_apart(k, matching(k)),
        members_look_alike(k, matching(k)),
{
    let lists = positions_by_text(average_hashes(k), k.len());
    lemma_matched_lists(k, lists, lists.len());
}

/// Whether every member of a matching is one of the first `n` positions.
pub open spec fn members_in_range(s: Matching, n: nat) -> bool {
    forall|g: int, x: int|
        0 <= g < s.found.len() && 0 <= x < s.found[g].0.len() ==> #[trigger] s.found[g].0[x] < n
}

proof fn lemma_list_of_bounds(g: Seq<(Seq<char>, Seq<usize>)>, t: Seq<char>, i: nat)
    requires
        i <= g.len(),
    ensures
        i <= crate::order::list_of(g, t, i) <= g.len(),
    decreases g.len() - i,
{
    if i < g.len() && g[i as int].0 != t {
        lemma_list_of_bounds(g, t, i + 1);
    }
}

proof fn lemma_positions_in_range(texts: Seq<Seq<char>>, n: nat)
    requires
        n <= usize::MAX,
    ensures
        forall|q: int, t: int|
            0 <= q < positions_by_text(texts, n).len() && 0 <= t < positions_by_text(
                texts,
                n,
            )[q].1.len() ==> #[trigger] positions_by_text(texts, n)[q].1[t] < n,
    decreases n,
{
    if n > 0 {
        lemma_positions_in_range(texts, (n - 1) as nat);
        let g = positions_by_text(texts, (n - 1) as nat);
        let all = positions_by_text(texts, n);
        assert forall|q: int, t: int|
            0 <= q < all.len() && 0 <= t < all[q].1.len() implies #[trigger] all[q].1[t] < n by {
            let at = crate::order::list_of(g, texts[n - 1], 0);
            lemma_list_of_bounds(g, texts[n - 1], 0);
            if q < g.len() && t < g[q].1.len() {
                assert(g[q].1[t] < n - 1);
            } else {
                assert(q == at);
                assert(all[q].1[t] == (n - 1) as usize);
            }
        }
    }
}

proof fn lemma_members_in_range(
    k: Seq<KeyedView>,
    used: Set<Seq<char>>,
    list: Seq<usize>,
    i: usize,
    t: nat,
)
    requires
        t <= list.len(),
        i < k.len(),
        forall|j: int| 0 <= j < list.len() ==> #[trigger] list[j] < k.len(),
    ensures
        forall|x: int|
            0 <= x < members(k, used, list, i, t).len() ==> #[trigger] members(k, used, list, i, t)[x]
                < k.len(),
    decreases t,
{
    if t > 0 {
        lemma_members_in_range(k, used, list, i, (t - 1) as nat);
        let rest = members(k, used, list, i, (t - 1) as nat);
        let all = members(k, used, list, i, t);
        assert forall|x: int| 0 <= x < all.len() implies #[trigger] all[x] < k.len() by {
            if x < rest.len() {
                assert(all[x] == rest[x]);
            } else {
                assert(all[x] == list[t - 1]);
            }
        }
    }
}

proof fn lemma_list_in_range(k: Seq<KeyedView>, s: Matching, list: Seq<usize>, n: nat)
    requires
        n <= list.len(),
        members_in_range(s, k.len()),
        forall|j: int| 0 <= j < list.len() ==> #[trigger] list[j] < k.len(),
    ensures
        members_in_range(matched_list(k, s, list, n), k.len()),
    decreases n,
{
    if n > 0 {
        lemma_list_in_range(k, s, list, (n - 1) as nat);
        let before = matched_list(k, s, list, (n - 1) as nat);
        let after = matched_list(k, s, list, n);
        let i = list[n - 1];
        lemma_members_in_range(k, before.used, list, i, list.len());
        assert forall|g: int, x: int|
            0 <= g < after.found.len() && 0 <= x < after.found[g].0.len() implies #[trigger] after.found[g].0[x]
            < k.len() by {
            if g < before.found.len() {
                assert(after.found[g] == before.found[g]);
                assert(before.found[g].0[x] < k.len());
            }
        }
    }
}

proof fn lemma_lists_in_range(k: Seq<KeyedView>, lists: Seq<(Seq<char>, Seq<usize>)>, n: nat)
    requires
        n <= lists.len(),
        forall|q: int, t: int|
            0 <= q < lists.len() && 0 <= t < lists[q].1.len() ==> #[trigger] lists[q].1[t] < k.len(),
    ensures
        members_in_range(matched_lists(k, lists, n), k.len()),
    decreases n,
{
    if n > 0 {
        lemma_lists_in_range(k, lists, (n - 1) as nat);
        let list = lists[n - 1].1;
        assert forall|j: int| 0 <= j < list.len() implies #[trigger] list[j] < k.len() by {
            assert(lists[n - 1].1[j] < k.len());
        }
        lemma_list_in_range(k, matched_lists(k, lists, (n - 1) as nat), list, list.len());
    }
}

/// The members of a group are positions of the fingerprints that were held against each other.
pub proof fn matching_members_are_in_range(k: Seq<KeyedView>)
    requires
        k.len() <= usize::MAX,
    ensures
        members_in_range(matching(k), k.len()),
{
    let lists = positions_by_text(average_hashes(k), k.len());
    lemma_positions_in_range(average_hashes(k), k.len());
    lemma_lists_in_range(k, lists, lists.len());
}

/// A group of images that look alike keeps one of its candidates.
pub proof fn visual_groups_keep_a_candidate(
    items: Seq<MediaItem>,
    k: Seq<KeyedView>,
    found: Seq<(Seq<usize>, int)>,
    n: nat,
)
    requires
        n <= found.len(),
        items.len() <= usize::MAX,
        forall|g: int| 0 <= g < found.len() ==> (#[trigger] found[g]).0.len() >= 2,
        forall|g: int, x: int|
            0 <= g < found.len() && 0 <= x < found[g].0.len() ==> item_paths(items).contains(
                k[#[trigger] found[g].0[x] as int].path,
            ),
    ensures
        forall|g: int|
            0 <= g < visual_groups(items, k, found, n).len() ==> keeps_one_of_many(
                #[trigger] visual_groups(items, k, found, n)[g],
            ),
    decreases n,
{
    if n > 0 {
        visual_groups_keep_a_candidate(items, k, found, (n - 1) as nat);
        let m = found[n - 1].0;
        let c = match_candidates(items, k, m, m.len());
        assert forall|x: int| 0 <= x < m.len() implies item_paths(items).contains(
            k[#[trigger] m[x] as int].path,
        ) by {
            assert(item_paths(items).contains(k[found[n - 1].0[x] as int].path));
        }
        lemma_all_members_are_candidates(items, k, m, m.len());
        crate::candidates::keeper_is_best(c);
        let all = visual_groups(items, k, found, n);
        let kept = crate::candidates::keeper_index(c, c.len());
        assert(all.last().candidates[kept].path == all.last().default_keep_path);
        assert forall|g: int| 0 <= g < all.len() implies keeps_one_of_many(#[trigger] all[g]) by {
            if g < all.len() - 1 {
                assert(all[g] == visual_groups(items, k, found, (n - 1) as nat)[g]);
            }
        }
    }
}

proof fn lemma_all_members_are_candidates(
    items: Seq<MediaItem>,
    k: Seq<KeyedView>,
    m: Seq<usize>,
    n: nat,
)
    requires
        n <= m.len(),
        items.len() <= usize::MAX,
        forall|x: int|
            0 <= x < m.len() ==> item_paths(items).contains(k[#[trigger] m[x] as int].path),
    ensures
        match_candidates(items, k, m, n).len() == n,
    decreases n,
{
    if n > 0 {
        lemma_all_members_are_candidates(items, k, m, (n - 1) as nat);
        assert(item_paths(items).contains(k[m[n - 1] as int].path));
        positions_hold_text(item_paths(items), k[m[n - 1] as int].path);
    }
}

/// The items that are looked at for visual duplicates are those that no group of identical files
/// holds.
pub proof fn eligible_images_are_in_no_exact_group(
    items: Seq<MediaItem>,
    grouped: Set<Seq<char>>,
    n: nat,
)
    requires
        n <= items.len(),
    ensures
        ungrouped(items, grouped, n).len() <= n,
        forall|i: int|
            0 <= i < ungrouped(items, grouped, n).len() ==> !grouped.contains(
                (#[trigger] ungrouped(items, grouped, n)[i]).path@,
            ),
        forall|p: int|
            0 <= p < n && !grouped.contains((#[trigger] items[p]).path@) ==> ungrouped(
                items,
                grouped,
                n,
            ).contains(items[p]),
    decreases n,
{
    if n > 0 {
        let m = (n - 1) as nat;
        eligible_images_are_in_no_exact_group(items, grouped, m);
        let before = ungrouped(items, grouped, m);
        let after = ungrouped(items, grouped, n);
        assert forall|p: int|
            0 <= p < n && !grouped.contains((#[trigger] items[p]).path@) implies after.contains(
            items[p],
        ) by {
            if p < m {
                let w = choose|w: int| 0 <= w < before.len() && before[w] == items[p];
                assert(after[w] == items[p]);
            } else {
                assert(after.last() == items[p]);
            }
        }
    }
}

proof fn lemma_candidate_paths(
    items: Seq<MediaItem>,
    k: Seq<KeyedView>,
    m: Seq<usize>,
    n: nat,
    grouped: Set<Seq<char>>,
)
    requires
        items.len() <= usize::MAX,
        forall|i: int| 0 <= i < items.len() ==> !grouped.contains((#[trigger] items[i]).path@),
    ensures
        forall|x: int|
            0 <= x < match_candidates(items, k, m, n).len() ==> !grouped.contains(
                (#[trigger] match_candidates(items, k, m, n)[x]).path,
            ),
    decreases n,
{
    if n > 0 {
        lemma_candidate_paths(items, k, m, (n - 1) as nat, grouped);
        positions_hold_text(item_paths(items), k[m[n - 1] as int].path);
    }
}

/// No file is in a group of identical files and in a group of images that look alike: groups
/// that are made of items outside `grouped` hold no file of it.
pub proof fn visual_groups_stay_clear_of_exact_ones(
    items: Seq<MediaItem>,
    k: Seq<KeyedView>,
    found: Seq<(Seq<usize>, int)>,
    n: nat,
    grouped: Set<Seq<char>>,
)
    requires
        items.len() <= usize::MAX,
        forall|i: int| 0 <= i < items.len() ==> !grouped.contains((#[trigger] items[i]).path@),
    ensures
        forall|g: int, x: int|
            0 <= g < visual_groups(items, k, found, n).len() && 0 <= x < visual_groups(
                items,
                k,
                found,
                n,
            )[g].candidates.len() ==> !grouped.contains(
                (#[trigger] visual_groups(items, k, found, n)[g].candidates[x]).path,
            ),
    decreases n,
{
    if n > 0 {
        visual_groups_stay_clear_of_exact_ones(items, k, found, (n - 1) as nat, grouped);
        lemma_candidate_paths(items, k, found[n - 1].0, found[n - 1].0.len(), grouped);
        let before = visual_groups(items, k, found, (n - 1) as nat);
        let after = visual_groups(items, k, found, n);
        assert forall|g: int, x: int|
            0 <= g < after.len() && 0 <= x < after[g].candidates.len() implies !grouped.contains(
            (#[trigger] after[g].candidates[x]).path,
        ) by {
            if g < before.len() {
                assert(after[g] == before[g]);
                assert(!grouped.contains(before[g].candidates[x].path));
            }
        }
    }
}

} // verus!
