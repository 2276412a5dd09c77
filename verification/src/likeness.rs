//! What holds of the groups of images that look alike.

use vstd::prelude::*;

use crate::candidates::{keeper_path, CandidateView, MediaItem};
use crate::exact::GroupView;
use crate::order::{list_of, positions_by_text, positions_hold_text, sorts_texts};
use crate::text;
use crate::visual::{
    average_hashes, distance, hamming_is_a_distance, item_paths, joins, keyed_paths,
    look_alike, match_candidates, matched_from, matched_list, matched_lists, matching, members,
    paths_at, sized_candidate, sorted_by_path, total_distance, visual_groups, widest, KeyedView,
    Matching,
};

verus! {

/// Whether a list of positions and a width make a sound group: there are two positions at least,
/// they rise, all have one average hash, and the width is the largest distance of a later one from
/// the first, which is at most fourteen.
pub open spec fn is_tight(k: Seq<KeyedView>, m: Seq<usize>, width: int) -> bool {
    &&& m.len() >= 2
    &&& forall|x: int, y: int| 0 <= x < y < m.len() ==> #[trigger] m[x] < #[trigger] m[y]
    &&& forall|x: int|
        0 <= x < m.len() ==> #[trigger] m[x] < k.len() && k[m[x] as int].fingerprint.ahash
            == k[m[0] as int].fingerprint.ahash
    &&& forall|x: int|
        1 <= x < m.len() ==> total_distance(
            k[m[0] as int].fingerprint,
            k[#[trigger] m[x] as int].fingerprint,
        ) <= width
    &&& exists|x: int|
        1 <= x < m.len() && total_distance(
            k[m[0] as int].fingerprint,
            k[#[trigger] m[x] as int].fingerprint,
        ) == width
    &&& 0 <= width <= 14
}

/// Whether every group of a matching is sound.
pub open spec fn all_tight(k: Seq<KeyedView>, s: Matching) -> bool {
    forall|g: int|
        0 <= g < s.found.len() ==> is_tight(k, (#[trigger] s.found[g]).0, s.found[g].1)
}

/// Whether a path is that of a member of a group.
pub open spec fn is_grouped(k: Seq<KeyedView>, s: Matching, path: Seq<char>) -> bool {
    exists|g: int, x: int|
        0 <= g < s.found.len() && 0 <= x < s.found[g].0.len()
            && k[#[trigger] s.found[g].0[x] as int].path == path
}

/// Whether a list holds rising positions of one text.
spec fn is_rising(texts: Seq<Seq<char>>, t: Seq<char>, list: Seq<usize>, n: int) -> bool {
    &&& forall|x: int|
        0 <= x < list.len() ==> #[trigger] list[x] < n && texts[list[x] as int] == t
    &&& forall|x: int, y: int| 0 <= x < y < list.len() ==> #[trigger] list[x] < #[trigger] list[y]
}

/// Whether a position is in the list of its text.
spec fn is_listed(lists: Seq<(Seq<char>, Seq<usize>)>, t: Seq<char>, p: usize) -> bool {
    exists|q: int| 0 <= q < lists.len() && (#[trigger] lists[q]).0 == t && lists[q].1.contains(p)
}

/// Whether lists sort the first `n` positions by their texts.
spec fn are_lists(
    texts: Seq<Seq<char>>,
    lists: Seq<(Seq<char>, Seq<usize>)>,
    n: int,
) -> bool {
    &&& forall|q: int, r: int|
        0 <= q < r < lists.len() ==> (#[trigger] lists[q]).0 != (#[trigger] lists[r]).0
    &&& forall|q: int|
        0 <= q < lists.len() ==> is_rising(texts, (#[trigger] lists[q]).0, lists[q].1, n)
    &&& forall|p: usize| p < n ==> is_listed(lists, #[trigger] texts[p as int], p)
}

proof fn lemma_list_of(g: Seq<(Seq<char>, Seq<usize>)>, t: Seq<char>, i: nat)
    requires
        i <= g.len(),
    ensures
        i <= list_of(g, t, i) <= g.len(),
        list_of(g, t, i) < g.len() ==> g[list_of(g, t, i)].0 == t,
        list_of(g, t, i) == g.len() ==> forall|j: int|
            i <= j < g.len() ==> (#[trigger] g[j]).0 != t,
    decreases g.len() - i,
{
    if i < g.len() && g[i as int].0 != t {
        lemma_list_of(g, t, i + 1);
    }
}

proof fn lemma_lists(texts: Seq<Seq<char>>, n: nat)
    requires
        n <= texts.len(),
        texts.len() <= usize::MAX,
    ensures
        are_lists(texts, positions_by_text(texts, n), n as int),
    decreases n,
{
    if n > 0 {
        let m = (n - 1) as nat;
        lemma_lists(texts, m);
        let before = positions_by_text(texts, m);
        let after = positions_by_text(texts, n);
        let t = texts[m as int];
        let at = list_of(before, t, 0);
        lemma_list_of(before, t, 0);
        assert(after[at].0 == t);
        assert(after[at].1.last() == m as usize);
        assert forall|q: int| 0 <= q < after.len() implies is_rising(
            texts,
            (#[trigger] after[q]).0,
            after[q].1,
            n as int,
        ) by {
            if q < before.len() {
                assert(is_rising(texts, before[q].0, before[q].1, m as int));
            }
        }
        assert forall|p: usize| p < n implies is_listed(after, #[trigger] texts[p as int], p) by {
            if p < m {
                assert(is_listed(before, texts[p as int], p));
                let q = choose|q: int|
                    0 <= q < before.len() && (#[trigger] before[q]).0 == texts[p as int]
                        && before[q].1.contains(p);
                let x = choose|x: int| 0 <= x < before[q].1.len() && before[q].1[x] == p;
                assert(after[q].1[x] == p);
                assert(after[q].0 == texts[p as int]);
            } else {
                assert(after[at].1.contains(p));
            }
        }
    }
}

proof fn lemma_distances(a: Seq<char>, b: Seq<char>)
    ensures
        distance(a, b) >= 0,
        distance(a, a) <= 10 ==> distance(a, a) == 0,
{
    if text::parsed_hex(a) is Some && text::parsed_hex(b) is Some {
        hamming_is_a_distance(a, b, b);
    }
    if text::parsed_hex(a) is Some {
        hamming_is_a_distance(a, a, a);
    }
}

proof fn lemma_members_are_tight(
    k: Seq<KeyedView>,
    used: Set<Seq<char>>,
    list: Seq<usize>,
    i: usize,
    t: nat,
    h: Seq<char>,
)
    requires
        t <= list.len(),
        is_rising(average_hashes(k), h, list, k.len() as int),
        i < k.len(),
        k[i as int].fingerprint.ahash == h,
    ensures
        ({
            let m = members(k, used, list, i, t);
            let w = widest(k, used, list, i, t);
            &&& m.len() >= 1
            &&& m[0] == i
            &&& m.len() == 1 ==> w == 0
            &&& m.len() >= 2 ==> is_tight(k, m, w)
            &&& forall|x: int, u: int|
                1 <= x < m.len() && t <= u < list.len() ==> #[trigger] m[x] < #[trigger] list[u]
        }),
    decreases t,
{
    if t > 0 {
        lemma_members_are_tight(k, used, list, i, (t - 1) as nat, h);
        let j = list[t - 1];
        let rest = members(k, used, list, i, (t - 1) as nat);
        let before = widest(k, used, list, i, (t - 1) as nat);
        let m = members(k, used, list, i, t);
        let w = widest(k, used, list, i, t);
        if joins(k, used, i, j) {
            let (a, b) = (k[i as int].fingerprint, k[j as int].fingerprint);
            assert(average_hashes(k)[j as int] == h);
            assert(b.ahash == h);
            lemma_distances(a.phash, b.phash);
            lemma_distances(a.dhash, b.dhash);
            lemma_distances(a.ahash, b.ahash);
            assert(0 <= total_distance(a, b) <= 14);
            assert(m[rest.len() as int] == j);
            assert forall|x: int, y: int| 0 <= x < y < m.len() implies #[trigger] m[x]
                < #[trigger] m[y] by {
                if y < rest.len() {
                    assert(rest[x] < rest[y]);
                } else if x > 0 {
                    assert(rest[x] < list[t - 1]);
                }
            }
            assert forall|x: int| 0 <= x < m.len() implies #[trigger] m[x] < k.len()
                && k[m[x] as int].fingerprint.ahash == k[m[0] as int].fingerprint.ahash by {
                if x < rest.len() && rest.len() >= 2 {
                    assert(rest[x] < k.len());
                }
            }
            assert forall|x: int| 1 <= x < m.len() implies total_distance(
                k[m[0] as int].fingerprint,
                k[#[trigger] m[x] as int].fingerprint,
            ) <= w by {
                if x < rest.len() {
                    assert(total_distance(a, k[rest[x] as int].fingerprint) <= before);
                }
            }
            if rest.len() >= 2 && before >= total_distance(a, b) {
                let x = choose|x: int|
                    1 <= x < rest.len() && total_distance(
                        k[rest[0] as int].fingerprint,
                        k[#[trigger] rest[x] as int].fingerprint,
                    ) == before;
                assert(m[x] == rest[x]);
            } else {
                assert(total_distance(
                    k[m[0] as int].fingerprint,
                    k[m[rest.len() as int] as int].fingerprint,
                ) == w);
            }
        }
    }
}

/// What holds of a matching throughout: its groups are sound, and the paths in use are those of
/// their members.
spec fn is_orderly(k: Seq<KeyedView>, s: Matching) -> bool {
    &&& all_tight(k, s)
    &&& forall|p: Seq<char>| #[trigger] s.used.contains(p) ==> is_grouped(k, s, p)
}

proof fn lemma_from(k: Seq<KeyedView>, s: Matching, list: Seq<usize>, i: usize, h: Seq<char>)
    requires
        is_orderly(k, s),
        is_rising(average_hashes(k), h, list, k.len() as int),
        i < k.len(),
        k[i as int].fingerprint.ahash == h,
    ensures
        is_orderly(k, matched_from(k, s, list, i)),
        s.used.subset_of(matched_from(k, s, list, i).used),
{
    let r = matched_from(k, s, list, i);
    let m = members(k, s.used, list, i, list.len());
    lemma_members_are_tight(k, s.used, list, i, list.len(), h);
    if !s.used.contains(k[i as int].path) && m.len() >= 2 {
        let last = s.found.len() as int;
        assert forall|g: int| 0 <= g < r.found.len() implies is_tight(
            k,
            (#[trigger] r.found[g]).0,
            r.found[g].1,
        ) by {
            if g < last {
                assert(r.found[g] == s.found[g]);
            }
        }
        assert forall|p: Seq<char>| #[trigger] r.used.contains(p) implies is_grouped(k, r, p) by {
            if s.used.contains(p) {
                let (g, x) = choose|g: int, x: int|
                    0 <= g < s.found.len() && 0 <= x < s.found[g].0.len()
                        && k[#[trigger] s.found[g].0[x] as int].path == p;
                assert(r.found[g].0[x] == s.found[g].0[x]);
            } else {
                let x = choose|x: int| 0 <= x < m.len() && k[#[trigger] m[x] as int].path == p;
                assert(r.found[last].0[x] == m[x]);
            }
        }
    }
}

proof fn lemma_list(k: Seq<KeyedView>, s: Matching, list: Seq<usize>, n: nat, h: Seq<char>)
    requires
        is_orderly(k, s),
        is_rising(average_hashes(k), h, list, k.len() as int),
        n <= list.len(),
    ensures
        is_orderly(k, matched_list(k, s, list, n)),
        s.used.subset_of(matched_list(k, s, list, n).used),
    decreases n,
{
    if n > 0 {
        lemma_list(k, s, list, (n - 1) as nat, h);
        let i = list[n - 1];
        assert(average_hashes(k)[i as int] == h);
        lemma_from(k, matched_list(k, s, list, (n - 1) as nat), list, i, h);
    }
}

proof fn lemma_all_lists(k: Seq<KeyedView>, lists: Seq<(Seq<char>, Seq<usize>)>, n: nat)
    requires
        are_lists(average_hashes(k), lists, k.len() as int),
        n <= lists.len(),
    ensures
        is_orderly(k, matched_lists(k, lists, n)),
    decreases n,
{
    if n > 0 {
        lemma_all_lists(k, lists, (n - 1) as nat);
        let (h, list) = lists[n - 1];
        assert(is_rising(average_hashes(k), lists[n - 1].0, lists[n - 1].1, k.len() as int));
        lemma_list(k, matched_lists(k, lists, (n - 1) as nat), list, list.len(), h);
    }
}

/// Groups of images that look alike are sound: the members of a group have one average hash and
/// stand in rising order, and the width of the group is the largest distance of a later member
/// from the first, which is at most fourteen.
pub proof fn groups_are_tight(k: Seq<KeyedView>)
    requires
        k.len() <= usize::MAX,
    ensures
        all_tight(k, matching(k)),
{
    let lists = positions_by_text(average_hashes(k), k.len());
    lemma_lists(average_hashes(k), k.len());
    lemma_all_lists(k, lists, lists.len());
}

proof fn lemma_joined(
    k: Seq<KeyedView>,
    used: Set<Seq<char>>,
    list: Seq<usize>,
    i: usize,
    t: nat,
    b: int,
)
    requires
        0 <= b < t <= list.len(),
        joins(k, used, i, list[b]),
    ensures
        members(k, used, list, i, t).len() >= 2,
        members(k, used, list, i, t)[0] == i,
    decreases t,
{
    lemma_first(k, used, list, i, (t - 1) as nat);
    if b < t - 1 {
        lemma_joined(k, used, list, i, (t - 1) as nat, b);
    }
}

proof fn lemma_first(k: Seq<KeyedView>, used: Set<Seq<char>>, list: Seq<usize>, i: usize, t: nat)
    ensures
        members(k, used, list, i, t).len() >= 1,
        members(k, used, list, i, t)[0] == i,
    decreases t,
{
    if t > 0 {
        lemma_first(k, used, list, i, (t - 1) as nat);
    }
}

proof fn lemma_pair_in_list(
    k: Seq<KeyedView>,
    s: Matching,
    list: Seq<usize>,
    n: nat,
    h: Seq<char>,
    a: int,
    b: int,
)
    requires
        is_orderly(k, s),
        is_rising(average_hashes(k), h, list, k.len() as int),
        0 <= a < b < list.len(),
        a < n <= list.len(),
        look_alike(k[list[a] as int].fingerprint, k[list[b] as int].fingerprint),
    ensures
        matched_list(k, s, list, n).used.contains(k[list[a] as int].path) || matched_list(
            k,
            s,
            list,
            n,
        ).used.contains(k[list[b] as int].path),
    decreases n,
{
    let m = (n - 1) as nat;
    let before = matched_list(k, s, list, m);
    lemma_list(k, s, list, m, h);
    let i = list[n - 1];
    assert(average_hashes(k)[i as int] == h);
    lemma_from(k, before, list, i, h);
    if a < m {
        lemma_pair_in_list(k, s, list, m, h, a, b);
    } else {
        assert(list[a] < list[b]);
        if !before.used.contains(k[i as int].path) && !before.used.contains(
            k[list[b] as int].path,
        ) {
            lemma_joined(k, before.used, list, i, list.len(), b);
            let group = members(k, before.used, list, i, list.len());
            assert(k[group[0] as int].path == k[i as int].path);
            assert(paths_at(k, group).contains(k[i as int].path));
        }
    }
}

proof fn lemma_pair_in_lists(
    k: Seq<KeyedView>,
    lists: Seq<(Seq<char>, Seq<usize>)>,
    n: nat,
    q: int,
    a: int,
    b: int,
)
    requires
        are_lists(average_hashes(k), lists, k.len() as int),
        0 <= q < n <= lists.len(),
        0 <= a < b < lists[q].1.len(),
        look_alike(k[lists[q].1[a] as int].fingerprint, k[lists[q].1[b] as int].fingerprint),
    ensures
        matched_lists(k, lists, n).used.contains(k[lists[q].1[a] as int].path) || matched_lists(
            k,
            lists,
            n,
        ).used.contains(k[lists[q].1[b] as int].path),
    decreases n,
{
    let m = (n - 1) as nat;
    let (h, list) = lists[m as int];
    let before = matched_lists(k, lists, m);
    lemma_all_lists(k, lists, m);
    assert(is_rising(average_hashes(k), lists[m as int].0, lists[m as int].1, k.len() as int));
    lemma_list(k, before, list, list.len(), h);
    if q < m {
        lemma_pair_in_lists(k, lists, m, q, a, b);
    } else {
        lemma_pair_in_list(k, before, list, list.len(), h, a, b);
    }
}

/// No pair that matches is left out altogether: of two images with one average hash that look
/// alike, one at least is in a group.
pub proof fn no_matching_pair_is_left_out(k: Seq<KeyedView>, i: int, j: int)
    requires
        k.len() <= usize::MAX,
        0 <= i < j < k.len(),
        k[i].fingerprint.ahash == k[j].fingerprint.ahash,
        look_alike(k[i].fingerprint, k[j].fingerprint),
    ensures
        is_grouped(k, matching(k), k[i].path) || is_grouped(k, matching(k), k[j].path),
{
    let hashes = average_hashes(k);
    let lists = positions_by_text(hashes, k.len());
    lemma_lists(hashes, k.len());
    lemma_all_lists(k, lists, lists.len());
    assert(is_listed(lists, hashes[i as usize as int], i as usize));
    assert(is_listed(lists, hashes[j as usize as int], j as usize));
    let q = choose|q: int|
        0 <= q < lists.len() && (#[trigger] lists[q]).0 == hashes[i] && lists[q].1.contains(
            i as usize,
        );
    let r = choose|r: int|
        0 <= r < lists.len() && (#[trigger] lists[r]).0 == hashes[j] && lists[r].1.contains(
            j as usize,
        );
    assert(q == r);
    let list = lists[q].1;
    assert(is_rising(hashes, lists[q].0, lists[q].1, k.len() as int));
    let a = choose|a: int| 0 <= a < list.len() && list[a] == i as usize;
    let b = choose|b: int| 0 <= b < list.len() && list[b] == j as usize;
    assert(a < b) by {
        if b < a {
            assert(list[b] < list[a]);
        }
    }
    lemma_pair_in_lists(k, lists, lists.len(), q, a, b);
}

/// Whether one text does not stand behind another in text order.
pub open spec fn is_not_behind(a: Seq<char>, b: Seq<char>) -> bool {
    a == b || text::text_less(a, b)
}

proof fn lemma_sorted(list: Seq<KeyedView>, k: Seq<KeyedView>, x: int, y: int)
    requires
        sorted_by_path(list, k),
        0 <= x < y < k.len(),
    ensures
        is_not_behind(k[x].path, k[y].path),
{
    let order = choose|order: Seq<usize>| #[trigger]
        sorts_texts(keyed_paths(list), order) && k == order.map_values(|i: usize| list[i as int]);
    assert(k[x] == list[order[x] as int]);
    assert(k[y] == list[order[y] as int]);
    assert(keyed_paths(list)[order[x] as int] == k[x].path);
    assert(keyed_paths(list)[order[y] as int] == k[y].path);
}

proof fn lemma_candidates_in_order(
    items: Seq<MediaItem>,
    list: Seq<KeyedView>,
    k: Seq<KeyedView>,
    m: Seq<usize>,
    n: nat,
)
    requires
        items.len() <= usize::MAX,
        sorted_by_path(list, k),
        n <= m.len(),
        forall|x: int| 0 <= x < m.len() ==> #[trigger] m[x] < k.len(),
        forall|x: int, y: int| 0 <= x < y < m.len() ==> #[trigger] m[x] < #[trigger] m[y],
    ensures
        ({
            let c = match_candidates(items, k, m, n);
            &&& forall|x: int, y: int|
                0 <= x < y < c.len() ==> is_not_behind(
                    (#[trigger] c[x]).path,
                    (#[trigger] c[y]).path,
                )
            &&& forall|x: int, u: int|
                0 <= x < c.len() && n <= u < m.len() ==> is_not_behind(
                    (#[trigger] c[x]).path,
                    k[#[trigger] m[u] as int].path,
                )
        }),
    decreases n,
{
    if n > 0 {
        let rest = match_candidates(items, k, m, (n - 1) as nat);
        let c = match_candidates(items, k, m, n);
        let path = k[m[n - 1] as int].path;
        lemma_candidates_in_order(items, list, k, m, (n - 1) as nat);
        positions_hold_text(item_paths(items), path);
        if let Some(added) = sized_candidate(items, k, path) {
            assert(added.path == path);
            assert forall|x: int, y: int| 0 <= x < y < c.len() implies is_not_behind(
                (#[trigger] c[x]).path,
                (#[trigger] c[y]).path,
            ) by {
                if y == rest.len() {
                    assert(is_not_behind(rest[x].path, k[m[n - 1] as int].path));
                } else {
                    assert(is_not_behind(rest[x].path, rest[y].path));
                }
            }
            assert forall|x: int, u: int| 0 <= x < c.len() && n <= u < m.len() implies is_not_behind(
                (#[trigger] c[x]).path,
                k[#[trigger] m[u] as int].path,
            ) by {
                if x == rest.len() {
                    assert(m[n - 1] < m[u]);
                    lemma_sorted(list, k, m[n - 1] as int, m[u] as int);
                } else {
                    assert(is_not_behind(rest[x].path, k[m[u] as int].path));
                }
            }
        }
    }
}

/// Whether the files of a group stand in rising order of their paths, and its score is at most
/// fourteen.
pub open spec fn is_neat(g: GroupView) -> bool {
    &&& forall|x: int, y: int|
        0 <= x < y < g.candidates.len() ==> is_not_behind(
            (#[trigger] g.candidates[x]).path,
            (#[trigger] g.candidates[y]).path,
        )
    &&& g.score matches Some(s) && 0 <= s <= 14
}

/// The files of a group of images that look alike stand in rising order of their paths, and the
/// group's score is at most fourteen.
pub proof fn visual_groups_are_neat(
    items: Seq<MediaItem>,
    list: Seq<KeyedView>,
    k: Seq<KeyedView>,
    n: nat,
)
    requires
        items.len() <= usize::MAX,
        k.len() <= usize::MAX,
        sorted_by_path(list, k),
        n <= matching(k).found.len(),
    ensures
        forall|g: int|
            0 <= g < visual_groups(items, k, matching(k).found, n).len() ==> is_neat(
                #[trigger] visual_groups(items, k, matching(k).found, n)[g],
            ),
    decreases n,
{
    if n > 0 {
        let found = matching(k).found;
        visual_groups_are_neat(items, list, k, (n - 1) as nat);
        groups_are_tight(k);
        let (m, width) = found[n - 1];
        assert(is_tight(k, found[n - 1].0, found[n - 1].1));
        lemma_candidates_in_order(items, list, k, m, m.len());
        let rest = visual_groups(items, k, found, (n - 1) as nat);
        let all = visual_groups(items, k, found, n);
        assert forall|g: int| 0 <= g < all.len() implies is_neat(#[trigger] all[g]) by {
            if g < rest.len() {
                assert(all[g] == rest[g]);
            }
        }
    }
}

/// Whether one of some files has the given path.
pub open spec fn has_path(c: Seq<CandidateView>, path: Seq<char>) -> bool {
    exists|x: int| 0 <= x < c.len() && (#[trigger] c[x]).path == path
}

/// Whether one of the groups holds a file with the given path.
pub open spec fn is_reported(groups: Seq<GroupView>, path: Seq<char>) -> bool {
    exists|g: int| 0 <= g < groups.len() && has_path((#[trigger] groups[g]).candidates, path)
}

proof fn lemma_member_is_candidate(
    items: Seq<MediaItem>,
    k: Seq<KeyedView>,
    m: Seq<usize>,
    n: nat,
    x: int,
)
    requires
        items.len() <= usize::MAX,
        0 <= x < n <= m.len(),
        item_paths(items).contains(k[m[x] as int].path),
    ensures
        has_path(match_candidates(items, k, m, n), k[m[x] as int].path),
    decreases n,
{
    let path = k[m[x] as int].path;
    let rest = match_candidates(items, k, m, (n - 1) as nat);
    let c = match_candidates(items, k, m, n);
    if x < n - 1 {
        lemma_member_is_candidate(items, k, m, (n - 1) as nat, x);
        let y = choose|y: int| 0 <= y < rest.len() && (#[trigger] rest[y]).path == path;
        assert(c[y].path == path);
    } else {
        positions_hold_text(item_paths(items), path);
        assert(c.last().path == path);
    }
}

proof fn lemma_match_is_reported(
    items: Seq<MediaItem>,
    k: Seq<KeyedView>,
    found: Seq<(Seq<usize>, int)>,
    n: nat,
    g: int,
    path: Seq<char>,
)
    requires
        0 <= g < n <= found.len(),
        has_path(match_candidates(items, k, found[g].0, found[g].0.len()), path),
    ensures
        is_reported(visual_groups(items, k, found, n), path),
    decreases n,
{
    let rest = visual_groups(items, k, found, (n - 1) as nat);
    let all = visual_groups(items, k, found, n);
    if g < n - 1 {
        lemma_match_is_reported(items, k, found, (n - 1) as nat, g, path);
        let h = choose|h: int|
            0 <= h < rest.len() && has_path((#[trigger] rest[h]).candidates, path);
        assert(all[h] == rest[h]);
    } else {
        let c = match_candidates(items, k, found[g].0, found[g].0.len());
        assert(keeper_path(c) is Some);
        assert(has_path(all.last().candidates, path));
    }
}

/// Of two images with one average hash that look alike, one at least is reported in a group.
pub proof fn matching_pair_is_reported(items: Seq<MediaItem>, k: Seq<KeyedView>, i: int, j: int)
    requires
        items.len() <= usize::MAX,
        k.len() <= usize::MAX,
        0 <= i < j < k.len(),
        item_paths(items).contains(k[i].path),
        item_paths(items).contains(k[j].path),
        k[i].fingerprint.ahash == k[j].fingerprint.ahash,
        look_alike(k[i].fingerprint, k[j].fingerprint),
    ensures
        ({
            let groups = visual_groups(items, k, matching(k).found, matching(k).found.len());
            is_reported(groups, k[i].path) || is_reported(groups, k[j].path)
        }),
{
    no_matching_pair_is_left_out(k, i, j);
    let found = matching(k).found;
    let path = if is_grouped(k, matching(k), k[i].path) {
        k[i].path
    } else {
        k[j].path
    };
    let (g, x) = choose|g: int, x: int|
        0 <= g < found.len() && 0 <= x < found[g].0.len() && k[#[trigger] found[g].0[x] as int].path
            == path;
    lemma_member_is_candidate(items, k, found[g].0, found[g].0.len(), x);
    lemma_match_is_reported(items, k, found, found.len(), g, path);
}

} // verus!
