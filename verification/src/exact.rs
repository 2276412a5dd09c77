//! Byte-identical copies: what is known of their hashes, and the groups they form.

use vstd::prelude::*;

use crate::candidates::{
    candidate_of, candidates_view, choose_cleanup_keeper, cleanup_candidate_from_media,
    keeper_path, CandidateView, CleanupCandidate, MediaItem,
};
use crate::collections::{TextMap, TextSet};
use crate::keeping::{identical_files_keep_the_best, keeps_the_best};
use crate::text;

verus! {

/// What the cleanup cache holds of a file.
pub struct CleanupFileCache {
    pub size_bytes: Option<i64>,
    pub modified_at: Option<i64>,
    pub sha256: Option<String>,
    pub width: Option<i64>,
    pub height: Option<i64>,
    pub ahash: Option<String>,
    pub dhash: Option<String>,
    pub phash: Option<String>,
}

/// A group of duplicates and the copy to keep of it.
pub struct CleanupDuplicateGroup {
    pub id: String,
    pub kind: String,
    pub reason: String,
    pub score: Option<i64>,
    pub default_keep_path: String,
    pub candidates: Vec<CleanupCandidate>,
}

/// What a [`CleanupDuplicateGroup`] stands for.
pub struct GroupView {
    pub id: Seq<char>,
    pub kind: Seq<char>,
    pub reason: Seq<char>,
    pub score: Option<i64>,
    pub default_keep_path: Seq<char>,
    pub candidates: Seq<CandidateView>,
}

impl View for CleanupDuplicateGroup {
    type V = GroupView;

    open spec fn view(&self) -> GroupView {
        GroupView {
            id: self.id@,
            kind: self.kind@,
            reason: self.reason@,
            score: self.score,
            default_keep_path: self.default_keep_path@,
            candidates: candidates_view(self.candidates@),
        }
    }
}

/// What a list of groups stands for.
pub open spec fn groups_view(s: Seq<CleanupDuplicateGroup>) -> Seq<GroupView> {
    s.map_values(|g: CleanupDuplicateGroup| g@)
}

/// Whether a cache entry was made of the item's file as it is: size and time of modification
/// are the same.
pub open spec fn cache_matches(cache: CleanupFileCache, item: MediaItem) -> bool {
    cache.size_bytes == item.size_bytes && cache.modified_at == item.modified_at
}

/// See [`cache_matches`].
pub fn cache_matches_media(cache: &CleanupFileCache, item: &MediaItem) -> (yes: bool)
    ensures
        yes == cache_matches(*cache, *item),
{
    cache.size_bytes == item.size_bytes && cache.modified_at == item.modified_at
}

/// The hash that the cache holds of an item's file as it is.
pub open spec fn cached_hash(
    cache: Map<Seq<char>, CleanupFileCache>,
    item: MediaItem,
) -> Option<Seq<char>> {
    if cache.contains_key(item.path@) && cache_matches(cache[item.path@], item) {
        match cache[item.path@].sha256 {
            Some(h) => Some(h@),
            None => None,
        }
    } else {
        None
    }
}

fn find_cached_hash(cache: &TextMap<CleanupFileCache>, item: &MediaItem) -> (hash: Option<String>)
    ensures
        match hash {
            Some(h) => cached_hash(cache@, *item) == Some(h@),
            None => cached_hash(cache@, *item) is None,
        },
{
    match cache.get(item.path.as_str()) {
        Some(entry) => if cache_matches_media(entry, item) {
            match &entry.sha256 {
                Some(h) => Some(h.clone()),
                None => None,
            }
        } else {
            None
        },
        None => None,
    }
}

/// Files by their hash: each hash with its files, hashes in the order in which they came.
pub struct HashGroups {
    index: TextMap<usize>,
    hashes: Vec<String>,
    groups: Vec<Vec<CleanupCandidate>>,
}

/// The first position from `i` on that holds `hash`, or the length.
pub open spec fn hash_position(
    g: Seq<(Seq<char>, Seq<CandidateView>)>,
    hash: Seq<char>,
    i: nat,
) -> int
    decreases g.len() - i,
{
    if i >= g.len() {
        g.len() as int
    } else if g[i as int].0 == hash {
        i as int
    } else {
        hash_position(g, hash, i + 1)
    }
}

/// The groups with one more file: behind the files of its hash, or as a group of its own.
pub open spec fn with_file(
    g: Seq<(Seq<char>, Seq<CandidateView>)>,
    hash: Seq<char>,
    c: CandidateView,
) -> Seq<(Seq<char>, Seq<CandidateView>)> {
    let i = hash_position(g, hash, 0);
    if i < g.len() {
        g.update(i, (hash, g[i].1.push(c)))
    } else {
        g.push((hash, seq![c]))
    }
}

proof fn lemma_hash_position(
    g: Seq<(Seq<char>, Seq<CandidateView>)>,
    hash: Seq<char>,
    i: nat,
    p: int,
)
    requires
        i <= p < g.len(),
        g[p].0 == hash,
        forall|j: int| i <= j < p ==> (#[trigger] g[j]).0 != hash,
    ensures
        hash_position(g, hash, i) == p,
    decreases p - i,
{
    if i < p {
        lemma_hash_position(g, hash, i + 1, p);
    }
}

proof fn lemma_no_hash_position(g: Seq<(Seq<char>, Seq<CandidateView>)>, hash: Seq<char>, i: nat)
    requires
        i <= g.len(),
        forall|j: int| i <= j < g.len() ==> (#[trigger] g[j]).0 != hash,
    ensures
        hash_position(g, hash, i) == g.len(),
    decreases g.len() - i,
{
    if i < g.len() {
        lemma_no_hash_position(g, hash, i + 1);
    }
}

impl View for HashGroups {
    type V = Seq<(Seq<char>, Seq<CandidateView>)>;

    closed spec fn view(&self) -> Seq<(Seq<char>, Seq<CandidateView>)> {
        Seq::new(
            self.hashes@.len(),
            |i: int| (self.hashes@[i]@, candidates_view(self.groups@[i]@)),
        )
    }
}

impl HashGroups {
    /// Whether every hash has one group.
    pub closed spec fn wf(self) -> bool {
        &&& self.hashes.len() == self.groups.len()
        &&& forall|h: Seq<char>| #[trigger]
            self.index@.contains_key(h) ==> self.index@[h] < self.hashes.len()
                && self.hashes[self.index@[h] as int]@ == h
        &&& forall|i: int|
            0 <= i < self.hashes.len() ==> self.index@.contains_key(#[trigger] self.hashes[i]@)
                && self.index@[self.hashes[i]@] == i
    }

    /// No files yet.
    pub fn new() -> (g: Self)
        ensures
            g.wf(),
            g@ == Seq::<(Seq<char>, Seq<CandidateView>)>::empty(),
    {
        let g = HashGroups { index: TextMap::new(), hashes: Vec::new(), groups: Vec::new() };
        assert(g@ =~= Seq::empty());
        g
    }

    /// Adds a file with its hash. See [`with_file`].
    pub fn insert(&mut self, hash: String, c: CleanupCandidate)
        requires
            old(self).wf(),
        ensures
            final(self).wf(),
            final(self)@ == with_file(old(self)@, hash@, c@),
    {
        let ghost before = self@;
        let found: Option<usize> = match self.index.get(hash.as_str()) {
            Some(i) => Some(*i),
            None => None,
        };
        match found {
            Some(i) => {
                proof {
                    assert forall|j: int| 0 <= j < i implies (#[trigger] before[j]).0 != hash@ by {
                        assert(self.index@[self.hashes[j]@] == j);
                    }
                    lemma_hash_position(before, hash@, 0, i as int);
                }
                let ghost files = self.groups@[i as int]@;
                self.groups[i].push(c);
                assert(candidates_view(self.groups@[i as int]@) =~= candidates_view(files).push(c@));
                assert(self@ =~= with_file(before, hash@, c@));
            },
            None => {
                proof {
                    assert forall|j: int| 0 <= j < before.len() implies (#[trigger] before[j]).0
                        != hash@ by {
                        assert(self.index@.contains_key(self.hashes[j]@));
                    }
                    lemma_no_hash_position(before, hash@, 0);
                }
                let n: usize = self.hashes.len();
                let mut files: Vec<CleanupCandidate> = Vec::new();
                files.push(c);
                assert(candidates_view(files@) =~= seq![c@]);
                self.index.insert(hash.clone(), n);
                self.hashes.push(hash);
                self.groups.push(files);
                assert(self@ =~= with_file(before, hash@, c@));
            },
        }
    }
}

/// The groups of the first `n` items whose hash the cache holds.
pub open spec fn cached_groups(
    cache: Map<Seq<char>, CleanupFileCache>,
    items: Seq<MediaItem>,
    n: nat,
) -> Seq<(Seq<char>, Seq<CandidateView>)>
    decreases n,
{
    if n == 0 {
        Seq::empty()
    } else {
        let rest = cached_groups(cache, items, (n - 1) as nat);
        match cached_hash(cache, items[n - 1]) {
            Some(h) => with_file(rest, h, candidate_of(items[n - 1])),
            None => rest,
        }
    }
}

/// The positions of the first `n` items whose hash the cache does not hold.
pub open spec fn uncached_positions(
    cache: Map<Seq<char>, CleanupFileCache>,
    items: Seq<MediaItem>,
    n: nat,
) -> Seq<usize>
    decreases n,
{
    if n == 0 {
        Seq::empty()
    } else {
        let rest = uncached_positions(cache, items, (n - 1) as nat);
        if cached_hash(cache, items[n - 1]) is None {
            rest.push((n - 1) as usize)
        } else {
            rest
        }
    }
}

/// The number of files in groups.
pub open spec fn file_count(g: Seq<(Seq<char>, Seq<CandidateView>)>) -> nat
    decreases g.len(),
{
    if g.len() == 0 {
        0
    } else {
        file_count(g.drop_last()) + g.last().1.len()
    }
}

proof fn lemma_count_of_update(
    g: Seq<(Seq<char>, Seq<CandidateView>)>,
    i: int,
    files: (Seq<char>, Seq<CandidateView>),
)
    requires
        0 <= i < g.len(),
    ensures
        file_count(g.update(i, files)) == file_count(g) - g[i].1.len() + files.1.len(),
    decreases g.len(),
{
    let h = g.update(i, files);
    if i == g.len() - 1 {
        assert(h.drop_last() =~= g.drop_last());
    } else {
        assert(h.drop_last() =~= g.drop_last().update(i, files));
        lemma_count_of_update(g.drop_last(), i, files);
    }
}

/// Adding a file adds one file and takes none away.
pub proof fn adding_a_file_keeps_the_others(
    g: Seq<(Seq<char>, Seq<CandidateView>)>,
    hash: Seq<char>,
    c: CandidateView,
)
    ensures
        file_count(with_file(g, hash, c)) == file_count(g) + 1,
{
    lemma_hash_position_bounds(g, hash, 0);
    let i = hash_position(g, hash, 0);
    if i < g.len() {
        lemma_count_of_update(g, i, (hash, g[i].1.push(c)));
    } else {
        assert(g.push((hash, seq![c])).drop_last() =~= g);
    }
}

proof fn lemma_hash_position_bounds(
    g: Seq<(Seq<char>, Seq<CandidateView>)>,
    hash: Seq<char>,
    i: nat,
)
    requires
        i <= g.len(),
    ensures
        i <= hash_position(g, hash, i) <= g.len(),
    decreases g.len() - i,
{
    if i < g.len() && g[i as int].0 != hash {
        lemma_hash_position_bounds(g, hash, i + 1);
    }
}

/// Whether no two groups are of one hash.
pub open spec fn hashes_differ(g: Seq<(Seq<char>, Seq<CandidateView>)>) -> bool {
    forall|i: int, j: int| 0 <= i < j < g.len() ==> (#[trigger] g[i]).0 != (#[trigger] g[j]).0
}

proof fn lemma_hash_position_is_first(
    g: Seq<(Seq<char>, Seq<CandidateView>)>,
    hash: Seq<char>,
    i: nat,
)
    requires
        i <= g.len(),
    ensures
        hash_position(g, hash, i) < g.len() ==> g[hash_position(g, hash, i)].0 == hash,
        hash_position(g, hash, i) == g.len() ==> forall|j: int|
            i <= j < g.len() ==> (#[trigger] g[j]).0 != hash,
    decreases g.len() - i,
{
    if i < g.len() && g[i as int].0 != hash {
        lemma_hash_position_is_first(g, hash, i + 1);
    }
}

/// A file joins the files of its hash and no others: groups of different hashes stay apart, and
/// the file stands last in the group of its hash.
pub proof fn file_joins_the_group_of_its_hash(
    g: Seq<(Seq<char>, Seq<CandidateView>)>,
    hash: Seq<char>,
    c: CandidateView,
)
    requires
        hashes_differ(g),
    ensures
        hashes_differ(with_file(g, hash, c)),
        exists|i: int|
            0 <= i < with_file(g, hash, c).len() && (#[trigger] with_file(g, hash, c)[i]).0 == hash
                && with_file(g, hash, c)[i].1.last() == c,
        forall|i: int|
            0 <= i < g.len() && (#[trigger] g[i]).0 != hash ==> with_file(g, hash, c)[i] == g[i],
{
    lemma_hash_position_bounds(g, hash, 0);
    lemma_hash_position_is_first(g, hash, 0);
    let at = hash_position(g, hash, 0);
    let after = with_file(g, hash, c);
    assert(after[at].0 == hash && after[at].1.last() == c);
}

/// Every image is grouped by a known hash or is to be hashed: items are told apart without loss.
pub proof fn every_image_is_cached_or_pending(
    cache: Map<Seq<char>, CleanupFileCache>,
    items: Seq<MediaItem>,
    n: nat,
)
    requires
        n <= items.len(),
    ensures
        file_count(cached_groups(cache, items, n)) + uncached_positions(cache, items, n).len() == n,
    decreases n,
{
    if n > 0 {
        every_image_is_cached_or_pending(cache, items, (n - 1) as nat);
        if let Some(h) = cached_hash(cache, items[n - 1]) {
            adding_a_file_keeps_the_others(
                cached_groups(cache, items, (n - 1) as nat),
                h,
                candidate_of(items[n - 1]),
            );
        }
    }
}

/// Splits the items of a cleanup: those with a known hash are grouped, the positions of the
/// others are listed to be hashed.
pub fn split_by_cached_hash(
    items: &Vec<MediaItem>,
    cache: &TextMap<CleanupFileCache>,
) -> (split: (HashGroups, Vec<usize>))
    ensures
        split.0.wf(),
        split.0@ == cached_groups(cache@, items@, items@.len()),
        split.1@ == uncached_positions(cache@, items@, items@.len()),
        split.1.len() <= items.len(),
{
    let mut groups = HashGroups::new();
    let mut pending: Vec<usize> = Vec::new();
    let mut i: usize = 0;
    while i < items.len()
        invariant
            i <= items.len(),
            groups.wf(),
            groups@ == cached_groups(cache@, items@, i as nat),
            pending@ == uncached_positions(cache@, items@, i as nat),
            pending.len() <= i,
        decreases items.len() - i,
    {
        match find_cached_hash(cache, &items[i]) {
            Some(hash) => {
                groups.insert(hash, cleanup_candidate_from_media(&items[i]));
            },
            None => {
                pending.push(i);
            },
        }
        i = i + 1;
    }
    (groups, pending)
}

/// The groups of duplicates among the first `n` hashes: those with more than one file, numbered
/// from one.
pub open spec fn duplicate_groups(
    by_hash: Seq<(Seq<char>, Seq<CandidateView>)>,
    n: nat,
) -> Seq<GroupView>
    decreases n,
{
    if n == 0 {
        Seq::empty()
    } else {
        let rest = duplicate_groups(by_hash, (n - 1) as nat);
        let files = by_hash[n - 1].1;
        if files.len() > 1 {
            rest.push(
                GroupView {
                    id: "exact-"@ + text::decimal(rest.len() + 1),
                    kind: "exact-image"@,
                    reason: "Byte-identical image file hash"@,
                    score: Some(0),
                    default_keep_path: keeper_path(files)->0,
                    candidates: files,
                },
            )
        } else {
            rest
        }
    }
}

/// The paths of the files in the groups.
pub open spec fn grouped_paths(groups: Seq<GroupView>) -> Set<Seq<char>> {
    Set::new(
        |p: Seq<char>|
            exists|g: int, c: int|
                0 <= g < groups.len() && 0 <= c < groups[g].candidates.len()
                    && #[trigger] groups[g].candidates[c].path == p,
    )
}

fn add_paths(paths: &mut TextSet, files: &Vec<CleanupCandidate>, Ghost(groups): Ghost<Seq<GroupView>>, Ghost(group): Ghost<GroupView>)
    requires
        old(paths)@ == grouped_paths(groups),
        group.candidates == candidates_view(files@),
    ensures
        final(paths)@ == grouped_paths(groups.push(group)),
{
    let ghost all = groups.push(group);
    let mut k: usize = 0;
    while k < files.len()
        invariant
            k <= files.len(),
            group.candidates == candidates_view(files@),
            all == groups.push(group),
            forall|p: Seq<char>| #[trigger]
                paths@.contains(p) <==> grouped_paths(groups).contains(p) || exists|c: int|
                    0 <= c < k && #[trigger] files[c].path@ == p,
        decreases files.len() - k,
    {
        paths.insert(files[k].path.clone());
        k = k + 1;
    }
    assert forall|p: Seq<char>| paths@.contains(p) == grouped_paths(all).contains(p) by {
        if grouped_paths(groups).contains(p) {
            let (g, c) = choose|g: int, c: int|
                0 <= g < groups.len() && 0 <= c < groups[g].candidates.len()
                    && #[trigger] groups[g].candidates[c].path == p;
            assert(all[g].candidates[c].path == p);
        }
        if exists|c: int| 0 <= c < files.len() && #[trigger] files[c].path@ == p {
            let c = choose|c: int| 0 <= c < files.len() && #[trigger] files[c].path@ == p;
            assert(all[groups.len() as int].candidates[c].path == p);
        }
        if grouped_paths(all).contains(p) {
            let (g, c) = choose|g: int, c: int|
                0 <= g < all.len() && 0 <= c < all[g].candidates.len()
                    && #[trigger] all[g].candidates[c].path == p;
            if g < groups.len() {
                assert(groups[g].candidates[c].path == p);
            } else {
                assert(files[c].path@ == p);
            }
        }
    }
    assert(paths@ =~= grouped_paths(all));
}

/// The groups of byte-identical files, and the paths of all files in them.
pub fn exact_duplicate_groups(by_hash: HashGroups) -> (found: (Vec<CleanupDuplicateGroup>, TextSet))
    requires
        by_hash.wf(),
    ensures
        groups_view(found.0@) == duplicate_groups(by_hash@, by_hash@.len()),
        found.1@ == grouped_paths(groups_view(found.0@)),
        forall|g: int|
            0 <= g < found.0.len() ==> keeps_the_best(
                (#[trigger] found.0[g]).default_keep_path@,
                found.0[g].candidates@,
            ),
{
    let ghost view = by_hash@;
    let mut out: Vec<CleanupDuplicateGroup> = Vec::new();
    let mut paths = TextSet::new();
    assert(groups_view(out@) =~= Seq::empty());
    assert(paths@ =~= grouped_paths(groups_view(out@)));
    let ghost all = by_hash.groups@;
    for files in it: by_hash.groups.into_iter()
        invariant
            it.seq() == all,
            view.len() == all.len(),
            forall|i: int| 0 <= i < view.len() ==> #[trigger] view[i].1 == candidates_view(all[i]@),
            groups_view(out@) == duplicate_groups(view, it.index() as nat),
            paths@ == grouped_paths(groups_view(out@)),
            out.len() <= it.index(),
    {
        let ghost k = it.index() as int;
        assert(files == all[k]);
        assert(view[k].1 == candidates_view(files@));
        if files.len() > 1 {
            if let Some(keeper) = choose_cleanup_keeper(files.as_slice()) {
                let number = text::to_decimal(out.len() as u128 + 1);
                let ghost before = groups_view(out@);
                let ghost files_view = candidates_view(files@);
                let group = CleanupDuplicateGroup {
                    id: text::concat2("exact-", number.as_str()),
                    kind: "exact-image".to_string(),
                    reason: "Byte-identical image file hash".to_string(),
                    score: Some(0),
                    default_keep_path: keeper,
                    candidates: files,
                };
                add_paths(&mut paths, &group.candidates, Ghost(before), Ghost(group@));
                let ghost added = group@;
                out.push(group);
                assert(groups_view(out@) =~= before.push(added));
            }
        }
    }
    proof {
        identical_files_keep_the_best(view, view.len(), out@);
    }
    (out, paths)
}

/// A group's files are at least two, and the copy to keep is one of them.
pub proof fn exact_groups_have_copies(by_hash: Seq<(Seq<char>, Seq<CandidateView>)>, n: nat)
    requires
        n <= by_hash.len(),
    ensures
        forall|g: int|
            0 <= g < duplicate_groups(by_hash, n).len() ==> keeps_one_of_many(
                #[trigger] duplicate_groups(by_hash, n)[g],
            ),
    decreases n,
{
    if n > 0 {
        exact_groups_have_copies(by_hash, (n - 1) as nat);
        let files = by_hash[n - 1].1;
        if files.len() > 1 {
            crate::candidates::keeper_is_best(files);
            let k = crate::candidates::keeper_index(files, files.len());
            let all = duplicate_groups(by_hash, n);
            let added = all.last();
            assert(added.candidates[k].path == added.default_keep_path);
            assert(keeps_one_of_many(added));
            assert forall|g: int| 0 <= g < all.len() implies keeps_one_of_many(#[trigger] all[g]) by {
                if g < all.len() - 1 {
                    assert(all[g] == duplicate_groups(by_hash, (n - 1) as nat)[g]);
                }
            }
        } else {
            assert(duplicate_groups(by_hash, n) == duplicate_groups(by_hash, (n - 1) as nat));
        }
    }
}

/// Whether a group holds two files at least and keeps one of them.
pub open spec fn keeps_one_of_many(g: GroupView) -> bool {
    &&& g.candidates.len() >= 2
    &&& exists|k: int|
        0 <= k < g.candidates.len() && #[trigger] g.candidates[k].path == g.default_keep_path
}

/// The groups of some files, each with its hash, that were added one after the other.
pub open spec fn grouped_files(files: Seq<(Seq<char>, CandidateView)>, n: nat) -> Seq<
    (Seq<char>, Seq<CandidateView>),
>
    decreases n,
{
    if n == 0 {
        Seq::empty()
    } else {
        with_file(grouped_files(files, (n - 1) as nat), files[n - 1].0, files[n - 1].1)
    }
}

/// The first `n` items whose hash the cache holds, each with that hash.
pub open spec fn cached_files(
    cache: Map<Seq<char>, CleanupFileCache>,
    items: Seq<MediaItem>,
    n: nat,
) -> Seq<(Seq<char>, CandidateView)>
    decreases n,
{
    if n == 0 {
        Seq::empty()
    } else {
        let rest = cached_files(cache, items, (n - 1) as nat);
        match cached_hash(cache, items[n - 1]) {
            Some(h) => rest.push((h, candidate_of(items[n - 1]))),
            None => rest,
        }
    }
}

proof fn lemma_grouped_prefix(
    a: Seq<(Seq<char>, CandidateView)>,
    b: Seq<(Seq<char>, CandidateView)>,
    n: nat,
)
    requires
        n <= a.len(),
        n <= b.len(),
        forall|i: int| 0 <= i < n ==> #[trigger] a[i] == b[i],
    ensures
        grouped_files(a, n) == grouped_files(b, n),
    decreases n,
{
    if n > 0 {
        lemma_grouped_prefix(a, b, (n - 1) as nat);
        assert(a[n - 1] == b[n - 1]);
    }
}

/// Images are grouped file by file: the groups that a search starts with are those of the files
/// whose hash the cache holds, and a file that is hashed is added to them.
pub proof fn images_are_grouped_one_by_one(
    cache: Map<Seq<char>, CleanupFileCache>,
    items: Seq<MediaItem>,
    n: nat,
    files: Seq<(Seq<char>, CandidateView)>,
    hash: Seq<char>,
    c: CandidateView,
)
    ensures
        cached_groups(cache, items, n) == grouped_files(
            cached_files(cache, items, n),
            cached_files(cache, items, n).len(),
        ),
        with_file(grouped_files(files, files.len()), hash, c) == grouped_files(
            files.push((hash, c)),
            files.push((hash, c)).len(),
        ),
    decreases n,
{
    let more = files.push((hash, c));
    lemma_grouped_prefix(files, more, files.len());
    if n > 0 {
        images_are_grouped_one_by_one(cache, items, (n - 1) as nat, files, hash, c);
        let rest = cached_files(cache, items, (n - 1) as nat);
        let all = cached_files(cache, items, n);
        if cached_hash(cache, items[n - 1]) is Some {
            lemma_grouped_prefix(rest, all, rest.len());
        }
    }
}

/// Whether one of the first `n` files has the given hash.
spec fn is_one_of(
    files: Seq<(Seq<char>, CandidateView)>,
    n: int,
    hash: Seq<char>,
    c: CandidateView,
) -> bool {
    exists|i: int| 0 <= i < n && #[trigger] files[i] == (hash, c)
}

/// Whether a file is in a group of the given hash.
spec fn is_in_group(
    g: Seq<(Seq<char>, Seq<CandidateView>)>,
    hash: Seq<char>,
    c: CandidateView,
) -> bool {
    exists|q: int| 0 <= q < g.len() && (#[trigger] g[q]).0 == hash && g[q].1.contains(c)
}

/// Whether groups hold the first `n` files: no two are of one hash, a group holds only files of
/// its hash, and every file is in the group of its hash.
spec fn holds_files(
    g: Seq<(Seq<char>, Seq<CandidateView>)>,
    files: Seq<(Seq<char>, CandidateView)>,
    n: int,
) -> bool {
    &&& hashes_differ(g)
    &&& forall|q: int, x: int|
        0 <= q < g.len() && 0 <= x < g[q].1.len() ==> is_one_of(
            files,
            n,
            g[q].0,
            #[trigger] g[q].1[x],
        )
    &&& forall|i: int| 0 <= i < n ==> is_in_group(g, (#[trigger] files[i]).0, files[i].1)
}

proof fn lemma_grouped_files(files: Seq<(Seq<char>, CandidateView)>, n: nat)
    requires
        n <= files.len(),
    ensures
        holds_files(grouped_files(files, n), files, n as int),
    decreases n,
{
    if n > 0 {
        let m = n - 1;
        lemma_grouped_files(files, m as nat);
        let before = grouped_files(files, m as nat);
        let after = grouped_files(files, n);
        let (hash, c) = files[m];
        file_joins_the_group_of_its_hash(before, hash, c);
        lemma_hash_position_bounds(before, hash, 0);
        lemma_hash_position_is_first(before, hash, 0);
        let at = hash_position(before, hash, 0);
        assert(after[at].0 == hash);
        assert(after[at].1.last() == c);
        assert(after[at].1.contains(c));
        assert forall|q: int, x: int| 0 <= q < after.len() && 0 <= x < after[q].1.len() implies is_one_of(
            files,
            n as int,
            after[q].0,
            #[trigger] after[q].1[x],
        ) by {
            if q < before.len() && x < before[q].1.len() {
                assert(after[q].1[x] == before[q].1[x] && after[q].0 == before[q].0);
                assert(is_one_of(files, m, before[q].0, before[q].1[x]));
                let i = choose|i: int|
                    0 <= i < m && #[trigger] files[i] == (before[q].0, before[q].1[x]);
                assert(files[i] == (after[q].0, after[q].1[x]));
            } else {
                assert(q == at);
                assert(after[q].1[x] == c);
                assert(files[m] == (after[q].0, after[q].1[x]));
            }
        }
        assert forall|i: int| 0 <= i < n implies is_in_group(
            after,
            (#[trigger] files[i]).0,
            files[i].1,
        ) by {
            if i < m {
                assert(is_in_group(before, files[i].0, files[i].1));
                let q = choose|q: int|
                    0 <= q < before.len() && (#[trigger] before[q]).0 == files[i].0
                        && before[q].1.contains(files[i].1);
                let x = choose|x: int| 0 <= x < before[q].1.len() && before[q].1[x] == files[i].1;
                assert(after[q].1[x] == files[i].1);
                assert(after[q].0 == files[i].0);
            } else {
                assert(after[at].0 == files[i].0);
            }
        }
    }
}

/// Whether a list of files is that of one of the first `n` hashes.
spec fn is_list(
    by_hash: Seq<(Seq<char>, Seq<CandidateView>)>,
    n: int,
    c: Seq<CandidateView>,
) -> bool {
    exists|q: int| 0 <= q < n && (#[trigger] by_hash[q]).1 == c
}

/// Whether one of the groups holds exactly the given files.
spec fn is_group(groups: Seq<GroupView>, c: Seq<CandidateView>) -> bool {
    exists|g: int| 0 <= g < groups.len() && (#[trigger] groups[g]).candidates == c
}

proof fn lemma_duplicate_groups(by_hash: Seq<(Seq<char>, Seq<CandidateView>)>, n: nat)
    requires
        n <= by_hash.len(),
    ensures
        forall|g: int|
            0 <= g < duplicate_groups(by_hash, n).len() ==> is_list(
                by_hash,
                n as int,
                (#[trigger] duplicate_groups(by_hash, n)[g]).candidates,
            ),
        forall|q: int|
            0 <= q < n && (#[trigger] by_hash[q]).1.len() > 1 ==> is_group(
                duplicate_groups(by_hash, n),
                by_hash[q].1,
            ),
    decreases n,
{
    if n > 0 {
        lemma_duplicate_groups(by_hash, (n - 1) as nat);
        let rest = duplicate_groups(by_hash, (n - 1) as nat);
        let all = duplicate_groups(by_hash, n);
        assert forall|g: int| 0 <= g < all.len() implies is_list(
            by_hash,
            n as int,
            (#[trigger] all[g]).candidates,
        ) by {
            if g < rest.len() {
                assert(all[g] == rest[g]);
                assert(is_list(by_hash, n - 1, rest[g].candidates));
                let q = choose|q: int|
                    0 <= q < n - 1 && (#[trigger] by_hash[q]).1 == rest[g].candidates;
                assert(by_hash[q].1 == all[g].candidates);
            } else {
                assert(by_hash[n - 1].1 == all[g].candidates);
            }
        }
        assert forall|q: int| 0 <= q < n && (#[trigger] by_hash[q]).1.len() > 1 implies is_group(
            all,
            by_hash[q].1,
        ) by {
            if q < n - 1 {
                assert(is_group(rest, by_hash[q].1));
                let g = choose|g: int|
                    0 <= g < rest.len() && (#[trigger] rest[g]).candidates == by_hash[q].1;
                assert(all[g] == rest[g]);
            } else {
                assert(all.last().candidates == by_hash[q].1);
            }
        }
    }
}

/// Whether one of the groups holds both files.
pub open spec fn share_a_group(groups: Seq<GroupView>, a: CandidateView, b: CandidateView) -> bool {
    exists|g: int|
        0 <= g < groups.len() && (#[trigger] groups[g]).candidates.contains(a)
            && groups[g].candidates.contains(b)
}

/// Two hashed images share a group of byte-identical files exactly where their hashes agree.
pub proof fn images_share_a_group_where_hashes_agree(
    files: Seq<(Seq<char>, CandidateView)>,
    i: int,
    j: int,
)
    requires
        forall|a: int, b: int|
            0 <= a < b < files.len() ==> (#[trigger] files[a]).1.path != (
            #[trigger] files[b]).1.path,
        0 <= i < files.len(),
        0 <= j < files.len(),
        i != j,
    ensures
        share_a_group(
            duplicate_groups(
                grouped_files(files, files.len()),
                grouped_files(files, files.len()).len(),
            ),
            files[i].1,
            files[j].1,
        ) <==> files[i].0 == files[j].0,
{
    let by_hash = grouped_files(files, files.len());
    let groups = duplicate_groups(by_hash, by_hash.len());
    lemma_grouped_files(files, files.len());
    lemma_duplicate_groups(by_hash, by_hash.len());
    let (a, b) = (files[i].1, files[j].1);
    if files[i].0 == files[j].0 {
        assert(is_in_group(by_hash, files[i].0, a));
        assert(is_in_group(by_hash, files[j].0, b));
        let q = choose|q: int|
            0 <= q < by_hash.len() && (#[trigger] by_hash[q]).0 == files[i].0
                && by_hash[q].1.contains(a);
        let r = choose|r: int|
            0 <= r < by_hash.len() && (#[trigger] by_hash[r]).0 == files[j].0
                && by_hash[r].1.contains(b);
        assert(q == r);
        let x = choose|x: int| 0 <= x < by_hash[q].1.len() && by_hash[q].1[x] == a;
        let y = choose|y: int| 0 <= y < by_hash[q].1.len() && by_hash[q].1[y] == b;
        assert(x != y);
        assert(is_group(groups, by_hash[q].1));
        let g = choose|g: int|
            0 <= g < groups.len() && (#[trigger] groups[g]).candidates == by_hash[q].1;
        assert(groups[g].candidates.contains(a));
    }
    if share_a_group(groups, a, b) {
        let g = choose|g: int|
            0 <= g < groups.len() && (#[trigger] groups[g]).candidates.contains(a)
                && groups[g].candidates.contains(b);
        assert(is_list(by_hash, by_hash.len() as int, groups[g].candidates));
        let q = choose|q: int|
            0 <= q < by_hash.len() && (#[trigger] by_hash[q]).1 == groups[g].candidates;
        let x = choose|x: int| 0 <= x < by_hash[q].1.len() && by_hash[q].1[x] == a;
        let y = choose|y: int| 0 <= y < by_hash[q].1.len() && by_hash[q].1[y] == b;
        assert(is_one_of(files, files.len() as int, by_hash[q].0, by_hash[q].1[x]));
        assert(is_one_of(files, files.len() as int, by_hash[q].0, by_hash[q].1[y]));
        let k = choose|k: int|
            0 <= k < files.len() && #[trigger] files[k] == (by_hash[q].0, by_hash[q].1[x]);
        let l = choose|l: int|
            0 <= l < files.len() && #[trigger] files[l] == (by_hash[q].0, by_hash[q].1[y]);
        assert(k == i && l == j);
    }
}

} // verus!
