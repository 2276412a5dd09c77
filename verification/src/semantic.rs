//! Semantic search: which of the scored vectors are shown, and in what order.

use vstd::prelude::*;

use crate::selection::positions;

verus! {

/// The bits of a 64-bit number without its sign.
pub open spec fn magnitude(bits: u64) -> int {
    if bits < 0x8000_0000_0000_0000 {
        bits as int
    } else {
        bits - 0x8000_0000_0000_0000
    }
}

/// The rank of a score by the bit pattern of its 64-bit number: numbers compare as their ranks
/// do, and what is not a number has none.
pub open spec fn score_rank(bits: u64) -> Option<int> {
    if magnitude(bits) > 0x7ff0_0000_0000_0000 {
        None
    } else if bits < 0x8000_0000_0000_0000 {
        Some(magnitude(bits))
    } else {
        Some(-magnitude(bits))
    }
}

/// See [`score_rank`].
pub fn score_key(bits: u64) -> (key: Option<i64>)
    ensures
        match key {
            Some(k) => score_rank(bits) == Some(k as int),
            None => score_rank(bits) is None,
        },
{
    let size: u64 = if bits < 0x8000_0000_0000_0000 {
        bits
    } else {
        bits - 0x8000_0000_0000_0000
    };
    if size > 0x7ff0_0000_0000_0000 {
        None
    } else if bits < 0x8000_0000_0000_0000 {
        Some(size as i64)
    } else {
        Some(-(size as i64))
    }
}

/// A media item with the score of its vector, by the bit pattern of the score.
#[derive(Clone, Copy)]
pub struct SemanticCandidate {
    pub score_bits: u64,
    pub media_id: i64,
}

/// The rank of a candidate's score.
pub open spec fn rank(c: SemanticCandidate) -> Option<int> {
    score_rank(c.score_bits)
}

/// Whether a candidate scores more than another; a score that is no number is neither more nor
/// less than any other.
pub open spec fn exceeds(a: SemanticCandidate, b: SemanticCandidate) -> bool {
    match (rank(a), rank(b)) {
        (Some(x), Some(y)) => x > y,
        _ => false,
    }
}

/// Whether a candidate stands below another in a sorted list: it scores less, or its score is no
/// number and the other's is one.
pub open spec fn below(a: SemanticCandidate, b: SemanticCandidate) -> bool {
    match (rank(a), rank(b)) {
        (Some(x), Some(y)) => x < y,
        (None, Some(_)) => true,
        _ => false,
    }
}

/// Whether `a` goes before `b` in a list that ascends, or descends.
pub open spec fn goes_first(a: SemanticCandidate, b: SemanticCandidate, up: bool) -> bool {
    if up {
        below(a, b)
    } else {
        below(b, a)
    }
}

fn does_exceed(a: &SemanticCandidate, b: &SemanticCandidate) -> (yes: bool)
    ensures
        yes == exceeds(*a, *b),
{
    match (score_key(a.score_bits), score_key(b.score_bits)) {
        (Some(x), Some(y)) => x > y,
        _ => false,
    }
}

fn does_go_first(a: &SemanticCandidate, b: &SemanticCandidate, up: bool) -> (yes: bool)
    ensures
        yes == goes_first(*a, *b, up),
{
    let (low, high) = if up {
        (score_key(a.score_bits), score_key(b.score_bits))
    } else {
        (score_key(b.score_bits), score_key(a.score_bits))
    };
    match (low, high) {
        (Some(x), Some(y)) => x < y,
        (None, Some(_)) => true,
        _ => false,
    }
}

/// Where a candidate goes in a sorted list: behind all that it does not go before.
pub open spec fn slot(s: Seq<SemanticCandidate>, c: SemanticCandidate, up: bool) -> nat
    decreases s.len(),
{
    if s.len() == 0 {
        0
    } else if goes_first(c, s.last(), up) {
        slot(s.drop_last(), c, up)
    } else {
        s.len()
    }
}

/// A list sorted by score, equal scores in the order in which they stood.
pub open spec fn sorted(s: Seq<SemanticCandidate>, up: bool) -> Seq<SemanticCandidate>
    decreases s.len(),
{
    if s.len() == 0 {
        Seq::empty()
    } else {
        let rest = sorted(s.drop_last(), up);
        rest.insert(slot(rest, s.last(), up) as int, s.last())
    }
}

proof fn lemma_slot(s: Seq<SemanticCandidate>, c: SemanticCandidate, up: bool)
    ensures
        slot(s, c, up) <= s.len(),
        forall|i: int| slot(s, c, up) <= i < s.len() ==> goes_first(c, #[trigger] s[i], up),
        slot(s, c, up) > 0 ==> !goes_first(c, s[slot(s, c, up) - 1], up),
    decreases s.len(),
{
    if s.len() > 0 && goes_first(c, s.last(), up) {
        lemma_slot(s.drop_last(), c, up);
        assert forall|i: int| slot(s, c, up) <= i < s.len() implies goes_first(
            c,
            #[trigger] s[i],
            up,
        ) by {
            if i < s.len() - 1 {
                assert(s[i] == s.drop_last()[i]);
            }
        }
    }
}

proof fn lemma_sorted_len(s: Seq<SemanticCandidate>, up: bool)
    ensures
        sorted(s, up).len() == s.len(),
    decreases s.len(),
{
    if s.len() > 0 {
        lemma_sorted_len(s.drop_last(), up);
        lemma_slot(sorted(s.drop_last(), up), s.last(), up);
    }
}

fn sort_candidates(list: &Vec<SemanticCandidate>, up: bool) -> (out: Vec<SemanticCandidate>)
    ensures
        out@ == sorted(list@, up),
        out.len() == list.len(),
{
    let mut out: Vec<SemanticCandidate> = Vec::new();
    let mut i: usize = 0;
    assert(list@.take(0) =~= Seq::empty());
    while i < list.len()
        invariant
            i <= list.len(),
            out.len() == i,
            out@ == sorted(list@.take(i as int), up),
        decreases list.len() - i,
    {
        let c: SemanticCandidate = list[i];
        let mut at: usize = out.len();
        assert(out@.take(at as int) =~= out@);
        while at > 0 && does_go_first(&c, &out[at - 1], up)
            invariant
                at <= out.len(),
                slot(out@.take(at as int), c, up) == slot(out@, c, up),
            decreases at,
        {
            assert(out@.take(at as int).last() == out[at - 1]);
            assert(out@.take(at as int).drop_last() =~= out@.take(at - 1));
            at = at - 1;
        }
        assert(slot(out@, c, up) == at) by {
            if at > 0 {
                assert(out@.take(at as int).last() == out[at - 1]);
            }
        }
        out.insert(at, c);
        i = i + 1;
        assert(list@.take(i as int).drop_last() =~= list@.take(i - 1));
        assert(list@.take(i as int).last() == c);
    }
    assert(list@.take(i as int) =~= list@);
    out
}

/// The candidates that are kept and those that are left out.
#[verifier::ext_equal]
pub struct Shortlist {
    pub kept: Seq<SemanticCandidate>,
    pub left_out: Seq<SemanticCandidate>,
}

/// The candidates that a shortlist of at most `max` keeps after an offer: while there is room the
/// candidate is kept; a full list ascends, and its first candidate gives way to one that scores
/// more.
pub open spec fn kept_after(
    kept: Seq<SemanticCandidate>,
    max: nat,
    c: SemanticCandidate,
) -> Seq<SemanticCandidate> {
    if kept.len() < max {
        let longer = kept.push(c);
        if longer.len() == max {
            sorted(longer, true)
        } else {
            longer
        }
    } else if exceeds(c, kept[0]) {
        sorted(kept.update(0, c), true)
    } else {
        kept
    }
}

/// What an offer makes of a shortlist of at most `max`. See [`kept_after`].
pub open spec fn offered(s: Shortlist, max: nat, c: SemanticCandidate) -> Shortlist {
    Shortlist {
        kept: kept_after(s.kept, max, c),
        left_out: if s.kept.len() < max {
            s.left_out
        } else if exceeds(c, s.kept[0]) {
            s.left_out.push(s.kept[0])
        } else {
            s.left_out.push(c)
        },
    }
}

/// The shortlist of at most `max` after the first `n` offers.
pub open spec fn shortlist(all: Seq<SemanticCandidate>, max: nat, n: nat) -> Shortlist
    decreases n,
{
    if n == 0 {
        Shortlist { kept: Seq::empty(), left_out: Seq::empty() }
    } else {
        offered(shortlist(all, max, (n - 1) as nat), max, all[n - 1])
    }
}

/// The number of hits that a search shows: fifty where nothing is asked, between one and two
/// hundred in any case.
pub open spec fn hit_limit(limit: Option<i64>) -> int {
    let n: int = match limit {
        Some(l) => l as int,
        None => 50,
    };
    if n < 1 {
        1
    } else if n > 200 {
        200
    } else {
        n
    }
}

/// See [`hit_limit`].
pub fn max_hits(limit: Option<i64>) -> (n: usize)
    ensures
        n == hit_limit(limit),
        1 <= n <= 200,
{
    let n: i64 = match limit {
        Some(l) => l,
        None => 50,
    };
    if n < 1 {
        1
    } else if n > 200 {
        200
    } else {
        n as usize
    }
}

/// The best hits of a search that is under way.
pub struct TopHits {
    max: usize,
    list: Vec<SemanticCandidate>,
}

impl TopHits {
    /// The candidates that are kept.
    pub closed spec fn kept(self) -> Seq<SemanticCandidate> {
        self.list@
    }

    /// How many are kept at most.
    pub closed spec fn max(self) -> nat {
        self.max as nat
    }

    /// Whether the list keeps to its length.
    pub closed spec fn wf(self) -> bool {
        1 <= self.max && self.list.len() <= self.max
    }

    /// Nothing kept yet.
    pub fn new(limit: Option<i64>) -> (t: Self)
        ensures
            t.wf(),
            t.max() == hit_limit(limit),
            t.kept() == Seq::<SemanticCandidate>::empty(),
    {
        TopHits { max: max_hits(limit), list: Vec::new() }
    }

    /// Offers a candidate. See [`kept_after`].
    pub fn offer(&mut self, c: SemanticCandidate)
        requires
            old(self).wf(),
        ensures
            final(self).wf(),
            final(self).max() == old(self).max(),
            final(self).kept() == kept_after(old(self).kept(), old(self).max(), c),
    {
        if self.list.len() < self.max {
            self.list.push(c);
            if self.list.len() == self.max {
                self.list = sort_candidates(&self.list, true);
            }
        } else if does_exceed(&c, &self.list[0]) {
            self.list.set(0, c);
            self.list = sort_candidates(&self.list, true);
        }
    }

    /// The candidates that are kept, the best first.
    pub fn finish(self) -> (hits: Vec<SemanticCandidate>)
        ensures
            hits@ == sorted(self.kept(), false),
    {
        sort_candidates(&self.list, false)
    }
}

/// The hits of a search over scored candidates, the best first.
pub fn search_hits(all: &Vec<SemanticCandidate>, limit: Option<i64>) -> (hits: Vec<SemanticCandidate>)
    ensures
        hits@ == sorted(
            shortlist(all@, hit_limit(limit) as nat, all@.len()).kept,
            false,
        ),
{
    let mut top = TopHits::new(limit);
    let mut i: usize = 0;
    let ghost max = top.max();
    while i < all.len()
        invariant
            i <= all.len(),
            top.wf(),
            top.max() == max,
            top.kept() == shortlist(all@, max, i as nat).kept,
        decreases all.len() - i,
    {
        top.offer(all[i]);
        i = i + 1;
    }
    top.finish()
}

/// The last of the first `n` rows with an id, if there is one.
pub open spec fn row_of(rows: Seq<i64>, id: i64, n: nat) -> Option<usize>
    decreases n,
{
    if n == 0 {
        None
    } else if rows[n - 1] == id {
        Some((n - 1) as usize)
    } else {
        row_of(rows, id, (n - 1) as nat)
    }
}

/// The first `n` hits whose media item was found, each with its row.
pub open spec fn found_hits(hits: Seq<SemanticCandidate>, rows: Seq<i64>, n: nat) -> Seq<
    (SemanticCandidate, usize),
>
    decreases n,
{
    if n == 0 {
        Seq::empty()
    } else {
        let rest = found_hits(hits, rows, (n - 1) as nat);
        match row_of(rows, hits[n - 1].media_id, rows.len()) {
            Some(r) => rest.push((hits[n - 1], r)),
            None => rest,
        }
    }
}

fn find_row(rows: &Vec<i64>, id: i64) -> (r: Option<usize>)
    ensures
        r == row_of(rows@, id, rows@.len()),
{
    let mut n: usize = rows.len();
    while n > 0
        invariant
            n <= rows.len(),
            row_of(rows@, id, rows@.len()) == row_of(rows@, id, n as nat),
        decreases n,
    {
        if rows[n - 1] == id {
            return Some(n - 1);
        }
        n = n - 1;
    }
    None
}

/// Joins hits with the catalog rows that were found for them, in the order of the hits; `rows`
/// holds the media id of each row.
pub fn join_hits(hits: &Vec<SemanticCandidate>, rows: &Vec<i64>) -> (found: Vec<
    (SemanticCandidate, usize),
>)
    ensures
        found@ == found_hits(hits@, rows@, hits@.len()),
{
    let mut out: Vec<(SemanticCandidate, usize)> = Vec::new();
    let mut i: usize = 0;
    while i < hits.len()
        invariant
            i <= hits.len(),
            out@ == found_hits(hits@, rows@, i as nat),
        decreases hits.len() - i,
    {
        if let Some(r) = find_row(rows, hits[i].media_id) {
            out.push((hits[i], r));
        }
        i = i + 1;
    }
    out
}

/// The ids of candidates.
pub fn media_ids(hits: &Vec<SemanticCandidate>) -> (ids: Vec<i64>)
    ensures
        ids@ == hits@.map_values(|c: SemanticCandidate| c.media_id),
{
    let mut out: Vec<i64> = Vec::new();
    let mut i: usize = 0;
    while i < hits.len()
        invariant
            i <= hits.len(),
            out.len() == i,
            forall|j: int| 0 <= j < i ==> #[trigger] out[j] == hits[j].media_id,
        decreases hits.len() - i,
    {
        out.push(hits[i].media_id);
        i = i + 1;
    }
    assert(out@ =~= hits@.map_values(|c: SemanticCandidate| c.media_id));
    out
}

proof fn lemma_insert_multiset(s: Seq<SemanticCandidate>, i: int, c: SemanticCandidate)
    requires
        0 <= i <= s.len(),
    ensures
        s.insert(i, c).to_multiset() =~= s.to_multiset().insert(c),
{
    let t = s.insert(i, c);
    vstd::seq_lib::to_multiset_remove(t, i);
    assert(t.remove(i) =~= s);
    assert(t[i] == c);
    assert(t.contains(c));
    t.to_multiset_ensures();
    assert(t.to_multiset().remove(c).insert(c) =~= t.to_multiset());
}

proof fn lemma_update_multiset(s: Seq<SemanticCandidate>, c: SemanticCandidate)
    requires
        s.len() > 0,
    ensures
        s.update(0, c).to_multiset().insert(s[0]) =~= s.to_multiset().insert(c),
{
    let rest = s.remove(0);
    assert(s.update(0, c) =~= rest.insert(0, c));
    assert(s =~= rest.insert(0, s[0]));
    lemma_insert_multiset(rest, 0, c);
    lemma_insert_multiset(rest, 0, s[0]);
}

/// Sorting keeps every candidate and adds none, and leaves the list in order.
pub proof fn sorting_keeps_candidates(s: Seq<SemanticCandidate>, up: bool)
    ensures
        sorted(s, up).len() == s.len(),
        sorted(s, up).to_multiset() == s.to_multiset(),
        forall|i: int, j: int|
            0 <= i < j < s.len() ==> !goes_first(
                #[trigger] sorted(s, up)[j],
                #[trigger] sorted(s, up)[i],
                up,
            ),
    decreases s.len(),
{
    lemma_sorted_len(s, up);
    if s.len() > 0 {
        let rest = sorted(s.drop_last(), up);
        let c = s.last();
        let p = slot(rest, c, up) as int;
        let t = rest.insert(p, c);
        sorting_keeps_candidates(s.drop_last(), up);
        lemma_slot(rest, c, up);
        lemma_insert_multiset(rest, p, c);
        assert(s =~= s.drop_last().push(c));
        vstd::seq_lib::to_multiset_build(s.drop_last(), c);
        assert forall|i: int, j: int| 0 <= i < j < t.len() implies !goes_first(
            #[trigger] t[j],
            #[trigger] t[i],
            up,
        ) by {
            let (a, b) = (
                if i < p {
                    rest[i]
                } else if i == p {
                    c
                } else {
                    rest[i - 1]
                },
                if j < p {
                    rest[j]
                } else if j == p {
                    c
                } else {
                    rest[j - 1]
                },
            );
            assert(t[i] == a && t[j] == b);
            if j == p {
                assert(!goes_first(c, rest[p - 1], up));
                if i < p - 1 {
                    assert(!goes_first(rest[p - 1], rest[i], up));
                }
            } else if i == p {
                assert(goes_first(c, rest[j - 1], up));
            } else if i < p && j > p {
                assert(!goes_first(rest[j - 1], rest[i], up));
            }
        }
    } else {
        assert(s =~= Seq::empty());
    }
}

/// Whether every score is a number.
pub open spec fn all_numbers(s: Seq<SemanticCandidate>) -> bool {
    forall|i: int| 0 <= i < s.len() ==> rank(#[trigger] s[i]) is Some
}

proof fn lemma_same_members(s: Seq<SemanticCandidate>, t: Seq<SemanticCandidate>)
    requires
        s.to_multiset() == t.to_multiset(),
    ensures
        forall|i: int| 0 <= i < s.len() ==> t.contains(#[trigger] s[i]),
{
    s.to_multiset_ensures();
    t.to_multiset_ensures();
    assert forall|i: int| 0 <= i < s.len() implies t.contains(#[trigger] s[i]) by {
        assert(s.contains(s[i]));
        assert(s.to_multiset().count(s[i]) > 0);
    }
}

/// A shortlist keeps the best: of the first `n` candidates it keeps as many as it may, every
/// candidate is either kept or left out, and no candidate that is left out scores more than one
/// that is kept. Scores are numbers.
pub proof fn shortlist_keeps_the_best(all: Seq<SemanticCandidate>, max: nat, n: nat)
    requires
        1 <= max,
        n <= all.len(),
        all_numbers(all),
    ensures
        shortlist(all, max, n).kept.len() == if n < max {
            n
        } else {
            max
        },
        shortlist(all, max, n).kept.to_multiset().add(shortlist(all, max, n).left_out.to_multiset())
            == all.take(n as int).to_multiset(),
        forall|i: int, j: int|
            0 <= i < shortlist(all, max, n).kept.len() && 0 <= j < shortlist(
                all,
                max,
                n,
            ).left_out.len() ==> !exceeds(
                #[trigger] shortlist(all, max, n).left_out[j],
                #[trigger] shortlist(all, max, n).kept[i],
            ),
    decreases n,
{
    lemma_shortlist(all, max, n);
}

spec fn shortlist_inv(all: Seq<SemanticCandidate>, max: nat, n: nat) -> bool {
    let s = shortlist(all, max, n);
    &&& s.kept.len() == if n < max {
        n
    } else {
        max
    }
    &&& s.kept.to_multiset().add(s.left_out.to_multiset()) =~= all.take(n as int).to_multiset()
    &&& forall|i: int, j: int|
        0 <= i < s.kept.len() && 0 <= j < s.left_out.len() ==> !exceeds(
            #[trigger] s.left_out[j],
            #[trigger] s.kept[i],
        )
    &&& all_numbers(s.kept)
    &&& all_numbers(s.left_out)
    &&& n < max ==> s.left_out.len() == 0
    &&& n >= max ==> forall|i: int| 0 < i < s.kept.len() ==> !below(#[trigger] s.kept[i], s.kept[0])
}

proof fn lemma_shortlist(all: Seq<SemanticCandidate>, max: nat, n: nat)
    requires
        1 <= max,
        n <= all.len(),
        all_numbers(all),
    ensures
        shortlist_inv(all, max, n),
    decreases n,
{
    if n == 0 {
        assert(all.take(0) =~= Seq::empty());
        let e = Seq::<SemanticCandidate>::empty();
        e.to_multiset_ensures();
        assert(e.to_multiset().add(e.to_multiset()) =~= e.to_multiset());
    } else {
        let m = (n - 1) as nat;
        lemma_shortlist(all, max, m);
        let s = shortlist(all, max, m);
        let t = shortlist(all, max, n);
        let c = all[m as int];
        assert(rank(c) is Some);
        assert(all.take(n as int) =~= all.take(m as int).push(c));
        vstd::seq_lib::to_multiset_build(all.take(m as int), c);
        if m < max {
            let k = s.kept.push(c);
            vstd::seq_lib::to_multiset_build(s.kept, c);
            if k.len() == max {
                sorting_keeps_candidates(k, true);
                lemma_same_members(t.kept, k);
                assert(all_numbers(k));
                assert forall|i: int| 0 <= i < t.kept.len() implies rank(#[trigger] t.kept[i]) is Some by {
                    let w = choose|w: int| 0 <= w < k.len() && k[w] == t.kept[i];
                    assert(rank(k[w]) is Some);
                }
            }
        } else if exceeds(c, s.kept[0]) {
            let k = s.kept.update(0, c);
            lemma_update_multiset(s.kept, c);
            vstd::seq_lib::to_multiset_build(s.left_out, s.kept[0]);
            sorting_keeps_candidates(k, true);
            lemma_same_members(t.kept, k);
            assert(all_numbers(k));
            assert(t.kept.to_multiset().add(t.left_out.to_multiset()) =~= s.kept.to_multiset().insert(
                c,
            ).add(s.left_out.to_multiset())) by {
                assert(k.to_multiset().add(s.left_out.to_multiset().insert(s.kept[0]))
                    =~= k.to_multiset().insert(s.kept[0]).add(s.left_out.to_multiset()));
            }
            assert forall|i: int, j: int|
                0 <= i < t.kept.len() && 0 <= j < t.left_out.len() implies !exceeds(
                #[trigger] t.left_out[j],
                #[trigger] t.kept[i],
            ) by {
                let w = choose|w: int| 0 <= w < k.len() && k[w] == t.kept[i];
                if j < s.left_out.len() {
                    assert(t.left_out[j] == s.left_out[j]);
                    assert(!exceeds(s.left_out[j], s.kept[0]));
                    if w > 0 {
                        assert(!exceeds(s.left_out[j], s.kept[w]));
                    }
                } else {
                    assert(t.left_out[j] == s.kept[0]);
                    if w > 0 {
                        assert(!below(s.kept[w], s.kept[0]));
                        assert(rank(s.kept[w]) is Some);
                    }
                }
            }
            assert forall|i: int| 0 <= i < t.kept.len() implies rank(#[trigger] t.kept[i]) is Some by {
                let w = choose|w: int| 0 <= w < k.len() && k[w] == t.kept[i];
                assert(rank(k[w]) is Some);
            }
        } else {
            vstd::seq_lib::to_multiset_build(s.left_out, c);
            assert(s.kept.to_multiset().add(s.left_out.to_multiset().insert(c))
                =~= s.kept.to_multiset().add(s.left_out.to_multiset()).insert(c));
            assert forall|i: int, j: int|
                0 <= i < t.kept.len() && 0 <= j < t.left_out.len() implies !exceeds(
                #[trigger] t.left_out[j],
                #[trigger] t.kept[i],
            ) by {
                if j < s.left_out.len() {
                    assert(t.left_out[j] == s.left_out[j]);
                } else {
                    assert(rank(s.kept[0]) is Some);
                    if i > 0 {
                        assert(!below(s.kept[i], s.kept[0]));
                        assert(rank(s.kept[i]) is Some);
                    }
                }
            }
        }
    }
}

/// Scores are ordered as the numbers that their bits write: without the sign bit by the bits, with
/// it the other way round and below all others but zero, which both signs write; bits behind those
/// of infinity write no number.
pub proof fn scores_are_ordered_as_numbers(a: u64, b: u64)
    requires
        a < 0x8000_0000_0000_0000,
        b < 0x8000_0000_0000_0000,
    ensures
        score_rank(a) is Some <==> a <= 0x7ff0_0000_0000_0000,
        score_rank((a + 0x8000_0000_0000_0000) as u64) is Some <==> a <= 0x7ff0_0000_0000_0000,
        score_rank(0) == score_rank(0x8000_0000_0000_0000),
        score_rank(a) is Some && score_rank(b) is Some ==> {
            let (x, y) = (score_rank(a)->0, score_rank(b)->0);
            let minus_x = score_rank((a + 0x8000_0000_0000_0000) as u64)->0;
            let minus_y = score_rank((b + 0x8000_0000_0000_0000) as u64)->0;
            &&& x < y <==> a < b
            &&& minus_x < minus_y <==> b < a
            &&& minus_x < y <==> a > 0 || b > 0
        },
{
}

/// Whether `n` is the most hits that a search with this limit gives: fifty unless asked otherwise,
/// at least one and at most two hundred.
pub open spec fn is_hit_limit(limit: Option<i64>, n: int) -> bool {
    &&& limit is None ==> n == 50
    &&& limit matches Some(x) ==> {
        &&& x < 1 ==> n == 1
        &&& 1 <= x <= 200 ==> n == x
        &&& 200 < x ==> n == 200
    }
}

/// The hits of a search are the best candidates, the best first: as many as asked for, or all where
/// there are fewer; each is one of the candidates; none scores more than one before it; and no
/// candidate that is not among them scores more than any of them. Scores are numbers.
pub proof fn hits_are_the_best_in_order(all: Seq<SemanticCandidate>, limit: Option<i64>)
    requires
        all_numbers(all),
    ensures
        ({
            let hits = sorted(
                shortlist(all, hit_limit(limit) as nat, all.len()).kept,
                false,
            );
            &&& exists|n: int|
                #[trigger] is_hit_limit(limit, n) && hits.len() == if all.len() < n {
                    all.len() as int
                } else {
                    n
                }
            &&& hits.to_multiset().subset_of(all.to_multiset())
            &&& forall|i: int, j: int|
                0 <= i < j < hits.len() ==> score_rank((#[trigger] hits[i]).score_bits)->0
                    >= score_rank((#[trigger] hits[j]).score_bits)->0
            &&& forall|i: int, c: SemanticCandidate|
                0 <= i < hits.len() && hits.to_multiset().count(c) < #[trigger] all.to_multiset().count(c)
                    ==> score_rank((#[trigger] hits[i]).score_bits)->0 >= score_rank(
                    c.score_bits,
                )->0
        }),
{
    let max = hit_limit(limit) as nat;
    let s = shortlist(all, max, all.len());
    let hits = sorted(s.kept, false);
    lemma_shortlist(all, max, all.len());
    shortlist_keeps_the_best(all, max, all.len());
    sorting_keeps_candidates(s.kept, false);
    lemma_same_members(hits, s.kept);
    assert(all.take(all.len() as int) =~= all);
    assert(is_hit_limit(limit, max as int));
    assert forall|i: int| 0 <= i < hits.len() implies rank(#[trigger] hits[i]) is Some by {
        let w = choose|w: int| 0 <= w < s.kept.len() && s.kept[w] == hits[i];
        assert(rank(s.kept[w]) is Some);
    }
    assert forall|i: int, j: int| 0 <= i < j < hits.len() implies score_rank(
        (#[trigger] hits[i]).score_bits,
    )->0 >= score_rank((#[trigger] hits[j]).score_bits)->0 by {
        assert(!goes_first(hits[j], hits[i], false));
        assert(rank(hits[i]) is Some && rank(hits[j]) is Some);
    }
    assert(hits.to_multiset().subset_of(all.to_multiset())) by {
        assert(s.kept.to_multiset().add(s.left_out.to_multiset()) =~= all.to_multiset());
    }
    assert forall|i: int, c: SemanticCandidate|
        0 <= i < hits.len() && hits.to_multiset().count(c) < #[trigger] all.to_multiset().count(
            c,
        ) implies score_rank((#[trigger] hits[i]).score_bits)->0 >= score_rank(c.score_bits)->0 by {
        assert(s.kept.to_multiset().add(s.left_out.to_multiset()).count(c)
            == s.kept.to_multiset().count(c) + s.left_out.to_multiset().count(c));
        assert(s.left_out.to_multiset().count(c) > 0);
        s.left_out.to_multiset_ensures();
        assert(s.left_out.contains(c));
        let j = choose|j: int| 0 <= j < s.left_out.len() && s.left_out[j] == c;
        let w = choose|w: int| 0 <= w < s.kept.len() && s.kept[w] == hits[i];
        assert(!exceeds(s.left_out[j], s.kept[w]));
        assert(rank(s.left_out[j]) is Some);
        assert(rank(s.kept[w]) is Some);
    }
}

/// A candidate displaces the lowest one that is kept only where it scores more: one that scores as
/// much, or whose score is no number, leaves a full list as it is.
pub proof fn equal_score_displaces_nothing(
    kept: Seq<SemanticCandidate>,
    max: nat,
    c: SemanticCandidate,
)
    requires
        1 <= max,
        kept.len() == max,
    ensures
        score_rank(c.score_bits) is None || score_rank(kept[0].score_bits) is None || score_rank(
            c.score_bits,
        )->0 <= score_rank(kept[0].score_bits)->0 ==> kept_after(kept, max, c) == kept,
{
}

/// Sorting leaves candidates of one score in the order in which they stood.
pub proof fn sorting_is_stable(s: Seq<SemanticCandidate>, up: bool, r: int)
    requires
        all_numbers(s),
    ensures
        sorted(s, up).filter(|c: SemanticCandidate| score_rank(c.score_bits) == Some(r))
            == s.filter(|c: SemanticCandidate| score_rank(c.score_bits) == Some(r)),
    decreases s.len(),
{
    let same = |c: SemanticCandidate| score_rank(c.score_bits) == Some(r);
    if s.len() == 0 {
        assert(sorted(s, up) =~= s);
    } else {
        let rest = s.drop_last();
        let c = s.last();
        assert(all_numbers(rest)) by {
            assert forall|i: int| 0 <= i < rest.len() implies rank(#[trigger] rest[i]) is Some by {
                assert(rest[i] == s[i]);
            }
        }
        sorting_is_stable(rest, up, r);
        let t = sorted(rest, up);
        let p = slot(t, c, up) as int;
        lemma_slot(t, c, up);
        let front = t.take(p);
        let back = t.skip(p);
        let one = Seq::<SemanticCandidate>::empty().push(c);
        assert(s[s.len() - 1] == c);
        assert(rank(c) is Some);
        assert(t.insert(p, c) =~= (front + one) + back);
        assert(t =~= front + back);
        Seq::filter_distributes_over_add(front + one, back, same);
        Seq::filter_distributes_over_add(front, one, same);
        Seq::filter_distributes_over_add(front, back, same);
        assert(s =~= rest + one);
        Seq::filter_distributes_over_add(rest, one, same);
        assert(one.drop_last() =~= Seq::empty());
        if same(c) {
            assert forall|i: int| 0 <= i < back.len() implies !same(#[trigger] back[i]) by {
                assert(back[i] == t[p + i]);
                assert(goes_first(c, t[p + i], up));
            }
            back.lemma_all_neg_filter_empty(same);
            assert(sorted(s, up).filter(same) =~= s.filter(same));
        } else {
            reveal_with_fuel(Seq::filter, 2);
            assert(one.filter(same) =~= Seq::empty());
            assert(sorted(s, up).filter(same) =~= s.filter(same));
        }
    }
}

/// Whether a row is the last one with the id.
pub open spec fn is_last_row(rows: Seq<i64>, id: i64, r: int) -> bool {
    &&& 0 <= r < rows.len() && rows[r] == id
    &&& forall|j: int| r < j < rows.len() ==> #[trigger] rows[j] != id
}

proof fn lemma_row_of(rows: Seq<i64>, id: i64, n: nat)
    requires
        n <= rows.len() <= usize::MAX,
    ensures
        match row_of(rows, id, n) {
            Some(r) => r < n && rows[r as int] == id && forall|j: int|
                r < j < n ==> #[trigger] rows[j] != id,
            None => forall|j: int| 0 <= j < n ==> #[trigger] rows[j] != id,
        },
    decreases n,
{
    if n > 0 && rows[n - 1] != id {
        lemma_row_of(rows, id, (n - 1) as nat);
    }
}

/// No hit whose media item was found is dropped: the hits are joined in their order, each with the
/// last row of its id.
pub proof fn every_found_hit_is_joined(hits: Seq<SemanticCandidate>, rows: Seq<i64>, n: nat)
    requires
        rows.len() <= usize::MAX,
    ensures
        ({
            let found = positions(n, |i: int| rows.contains(hits[i].media_id));
            let out = found_hits(hits, rows, n);
            &&& out.len() == found.len()
            &&& forall|m: int|
                0 <= m < out.len() ==> (#[trigger] out[m]).0 == hits[found[m]] && is_last_row(
                    rows,
                    hits[found[m]].media_id,
                    out[m].1 as int,
                )
        }),
    decreases n,
{
    if n > 0 {
        every_found_hit_is_joined(hits, rows, (n - 1) as nat);
        let id = hits[n - 1].media_id;
        lemma_row_of(rows, id, rows.len());
        if let Some(r) = row_of(rows, id, rows.len()) {
            assert(rows[r as int] == id);
            assert(rows.contains(id));
        } else {
            assert(!rows.contains(id));
        }
    }
}

} // verus!
