//! Stable ordering of positions by a key.

use vstd::prelude::*;

use crate::collections::TextMap;
use crate::paths::texts_view;
use crate::text;

verus! {

/// A key whose values form a strict weak order.
pub trait Ranked: Sized {
    /// Whether `self` comes strictly in front of `other`.
    spec fn before(&self, other: &Self) -> bool;

    /// See [`Ranked::before`].
    fn is_before(&self, other: &Self) -> (yes: bool)
        ensures
            yes == self.before(other),
    ;

    /// No two keys are in front of each other.
    proof fn before_asymmetric(a: &Self, b: &Self)
        requires
            a.before(b),
        ensures
            !b.before(a),
    ;

    /// Not being in front is transitive.
    proof fn not_before_transitive(a: &Self, b: &Self, c: &Self)
        requires
            !a.before(b),
            !b.before(c),
        ensures
            !a.before(c),
    ;
}

/// Whether position `a` comes in front of position `b`: by key, and by position where neither
/// key is in front.
pub open spec fn ranks<K: Ranked>(keys: Seq<K>, a: int, b: int) -> bool {
    keys[a].before(&keys[b]) || (!keys[b].before(&keys[a]) && a < b)
}

/// Whether `order` lists every position of `keys` once, each in front of the next ones.
pub open spec fn stable_order<K: Ranked>(keys: Seq<K>, order: Seq<usize>) -> bool {
    &&& order.len() == keys.len()
    &&& ordered_range(keys, order, 0, keys.len() as int)
}

/// Whether `order` lists the positions `from..to` of `keys`, each in front of the next ones.
pub open spec fn ordered_range<K: Ranked>(
    keys: Seq<K>,
    order: Seq<usize>,
    from: int,
    to: int,
) -> bool {
    &&& forall|i: int| 0 <= i < order.len() ==> from <= #[trigger] order[i] < to
    &&& forall|p: usize| from <= p < to ==> #[trigger] order.contains(p)
    &&& forall|i: int, j: int|
        0 <= i < j < order.len() ==> ranks(keys, #[trigger] order[i] as int, #[trigger] order[j] as int)
}

proof fn lemma_ranks_transitive<K: Ranked>(keys: Seq<K>, a: int, b: int, c: int)
    requires
        ranks(keys, a, b),
        ranks(keys, b, c),
    ensures
        ranks(keys, a, c),
{
    let (x, y, z) = (keys[a], keys[b], keys[c]);
    if !x.before(&z) {
        if x.before(&y) {
            K::before_asymmetric(&x, &y);
            if y.before(&z) {
                K::before_asymmetric(&y, &z);
            }
            if !z.before(&y) {
                K::not_before_transitive(&x, &z, &y);
            } else {
                K::before_asymmetric(&z, &y);
            }
        }
        if !y.before(&x) {
            if y.before(&z) {
                K::not_before_transitive(&y, &x, &z);
            }
        }
        K::not_before_transitive(&z, &y, &x);
    }
}

fn merge<K: Ranked>(keys: &Vec<K>, left: &Vec<usize>, right: &Vec<usize>, Ghost(from): Ghost<int>, Ghost(mid): Ghost<int>, Ghost(to): Ghost<int>) -> (out: Vec<usize>)
    requires
        0 <= from <= mid <= to <= keys.len(),
        ordered_range(keys@, left@, from, mid),
        ordered_range(keys@, right@, mid, to),
    ensures
        ordered_range(keys@, out@, from, to),
        out.len() == left.len() + right.len(),
{
    let mut out: Vec<usize> = Vec::new();
    let mut i: usize = 0;
    let mut j: usize = 0;
    while i < left.len() || j < right.len()
        invariant
            0 <= from <= mid <= to <= keys.len(),
            ordered_range(keys@, left@, from, mid),
            ordered_range(keys@, right@, mid, to),
            i <= left.len(),
            j <= right.len(),
            out.len() == i + j,
            forall|k: int| 0 <= k < out.len() ==> from <= #[trigger] out[k] < to,
            forall|k: int, l: int|
                0 <= k < l < out.len() ==> ranks(
                    keys@,
                    #[trigger] out[k] as int,
                    #[trigger] out[l] as int,
                ),
            forall|k: int, l: int|
                0 <= k < out.len() && i <= l < left.len() ==> ranks(
                    keys@,
                    #[trigger] out[k] as int,
                    #[trigger] left[l] as int,
                ),
            forall|k: int, l: int|
                0 <= k < out.len() && j <= l < right.len() ==> ranks(
                    keys@,
                    #[trigger] out[k] as int,
                    #[trigger] right[l] as int,
                ),
            forall|l: int| 0 <= l < i ==> out@.contains(#[trigger] left[l]),
            forall|l: int| 0 <= l < j ==> out@.contains(#[trigger] right[l]),
        decreases left.len() - i + right.len() - j,
    {
        let take_left = if i == left.len() {
            false
        } else if j == right.len() {
            true
        } else {
            let a = left[i];
            let b = right[j];
            !keys[b].is_before(&keys[a])
        };
        let ghost before = out@;
        if take_left {
            let p = left[i];
            proof {
                if j < right.len() {
                    let b = right@[j as int];
                    if keys@[p as int].before(&keys@[b as int]) {
                    } else {
                        assert(p < b);
                    }
                    assert(ranks(keys@, p as int, b as int));
                    assert forall|l: int| j <= l < right.len() implies ranks(
                        keys@,
                        p as int,
                        #[trigger] right[l] as int,
                    ) by {
                        if l > j {
                            lemma_ranks_transitive(keys@, p as int, b as int, right[l] as int);
                        }
                    }
                }
            }
            out.push(p);
            i = i + 1;
        } else {
            let p = right[j];
            proof {
                if i < left.len() {
                    let a = left@[i as int];
                    assert(ranks(keys@, p as int, a as int));
                    assert forall|l: int| i <= l < left.len() implies ranks(
                        keys@,
                        p as int,
                        #[trigger] left[l] as int,
                    ) by {
                        if l > i {
                            lemma_ranks_transitive(keys@, p as int, a as int, left[l] as int);
                        }
                    }
                }
            }
            out.push(p);
            j = j + 1;
        }
        proof {
            assert(out@.last() == out@[before.len() as int]);
            assert forall|q: usize| before.contains(q) implies out@.contains(q) by {
                let k = choose|k: int| 0 <= k < before.len() && before[k] == q;
                assert(out@[k] == q);
            }
        }
    }
    assert forall|p: usize| from <= p < to implies #[trigger] out@.contains(p) by {
        if p < mid {
            assert(left@.contains(p));
            let l = choose|l: int| 0 <= l < left@.len() && left@[l] == p;
            assert(out@.contains(left[l]));
        } else {
            assert(right@.contains(p));
            let l = choose|l: int| 0 <= l < right@.len() && right@[l] == p;
            assert(out@.contains(right[l]));
        }
    }
    out
}

fn sorted_range<K: Ranked>(keys: &Vec<K>, from: usize, to: usize) -> (out: Vec<usize>)
    requires
        from <= to <= keys.len(),
    ensures
        ordered_range(keys@, out@, from as int, to as int),
        out.len() == to - from,
    decreases to - from,
{
    if from == to {
        Vec::new()
    } else if to - from == 1 {
        let mut out: Vec<usize> = Vec::new();
        out.push(from);
        assert(out@[0] == from);
        out
    } else {
        let mid: usize = from + (to - from) / 2;
        let left = sorted_range(keys, from, mid);
        let right = sorted_range(keys, mid, to);
        merge(keys, &left, &right, Ghost(from as int), Ghost(mid as int), Ghost(to as int))
    }
}

/// The positions of `keys` in stable order.
pub fn sort_positions<K: Ranked>(keys: &Vec<K>) -> (order: Vec<usize>)
    ensures
        stable_order(keys@, order@),
{
    sorted_range(keys, 0, keys.len())
}

/// At most one listing of the positions is in stable order.
pub proof fn stable_order_is_unique<K: Ranked>(keys: Seq<K>, a: Seq<usize>, b: Seq<usize>)
    requires
        stable_order(keys, a),
        stable_order(keys, b),
    ensures
        a == b,
{
    assert forall|i: int| 0 <= i < a.len() implies a[i] == b[i] by {
        lemma_same_at(keys, a, b, i);
    }
    assert(a =~= b);
}

proof fn lemma_same_at<K: Ranked>(keys: Seq<K>, a: Seq<usize>, b: Seq<usize>, i: int)
    requires
        stable_order(keys, a),
        stable_order(keys, b),
        0 <= i < a.len(),
    ensures
        a[i] == b[i],
    decreases i,
{
    assert forall|k: int| 0 <= k < i implies a[k] == b[k] by {
        lemma_same_at(keys, a, b, k);
    }
    if a[i] != b[i] {
        assert(b.contains(a[i]));
        let m = choose|m: int| 0 <= m < b.len() && b[m] == a[i];
        assert(a.contains(b[i]));
        let n = choose|n: int| 0 <= n < a.len() && a[n] == b[i];
        if m < i {
            assert(a[m] == a[i]);
            assert(ranks(keys, a[m] as int, a[i] as int));
            if keys[a[i] as int].before(&keys[a[i] as int]) {
                K::before_asymmetric(&keys[a[i] as int], &keys[a[i] as int]);
            }
        } else if n < i {
            assert(b[n] == b[i]);
            assert(ranks(keys, b[n] as int, b[i] as int));
            if keys[b[i] as int].before(&keys[b[i] as int]) {
                K::before_asymmetric(&keys[b[i] as int], &keys[b[i] as int]);
            }
        } else {
            assert(ranks(keys, a[i] as int, a[n] as int));
            assert(ranks(keys, b[i] as int, b[m] as int));
            let (x, y) = (keys[a[i] as int], keys[b[i] as int]);
            if x.before(&y) {
                K::before_asymmetric(&x, &y);
            }
            if y.before(&x) {
                K::before_asymmetric(&y, &x);
            }
        }
    }
}

/// A text, in front of the texts behind it in text order.
pub struct TextKey(pub String);

impl Ranked for TextKey {
    open spec fn before(&self, other: &Self) -> bool {
        text::text_less(self.0@, other.0@)
    }

    fn is_before(&self, other: &Self) -> (yes: bool) {
        text::is_text_less(self.0.as_str(), other.0.as_str())
    }

    proof fn before_asymmetric(a: &Self, b: &Self) {
        if b.before(a) {
            text::text_less_transitive(a.0@, b.0@, a.0@);
            text::text_less_irreflexive(a.0@);
        }
    }

    proof fn not_before_transitive(a: &Self, b: &Self, c: &Self) {
        if a.before(c) {
            if a.0@ != b.0@ {
                text::text_less_total(a.0@, b.0@);
                text::text_less_transitive(b.0@, a.0@, c.0@);
            }
        }
    }
}

/// A depth, the deepest in front.
pub struct DepthKey(pub usize);

impl Ranked for DepthKey {
    open spec fn before(&self, other: &Self) -> bool {
        self.0 > other.0
    }

    fn is_before(&self, other: &Self) -> (yes: bool) {
        self.0 > other.0
    }

    proof fn before_asymmetric(a: &Self, b: &Self) {
    }

    proof fn not_before_transitive(a: &Self, b: &Self, c: &Self) {
    }
}

/// Whether `order` lists every position of `texts` once, in the order of the texts, and in the
/// order of positions where texts are the same.
pub open spec fn sorts_texts(texts: Seq<Seq<char>>, order: Seq<usize>) -> bool {
    &&& order.len() == texts.len()
    &&& forall|i: int| 0 <= i < order.len() ==> 0 <= #[trigger] order[i] < texts.len()
    &&& forall|p: usize| 0 <= p < texts.len() ==> #[trigger] order.contains(p)
    &&& forall|i: int, j: int|
        0 <= i < j < order.len() ==> text::text_less(
            texts[#[trigger] order[i] as int],
            texts[#[trigger] order[j] as int],
        ) || (texts[order[i] as int] == texts[order[j] as int] && order[i] < order[j])
}

/// See [`sorts_texts`].
pub fn sort_texts(texts: &Vec<String>) -> (order: Vec<usize>)
    ensures
        sorts_texts(texts_view(texts@), order@),
{
    let mut keys: Vec<TextKey> = Vec::new();
    let mut i: usize = 0;
    while i < texts.len()
        invariant
            i <= texts.len(),
            keys.len() == i,
            forall|j: int| 0 <= j < i ==> (#[trigger] keys[j]).0@ == texts[j]@,
        decreases texts.len() - i,
    {
        keys.push(TextKey(texts[i].clone()));
        i = i + 1;
    }
    let order = sort_positions(&keys);
    let ghost views = texts_view(texts@);
    assert forall|i: int, j: int| 0 <= i < j < order@.len() implies text::text_less(
        views[#[trigger] order@[i] as int],
        views[#[trigger] order@[j] as int],
    ) || (views[order@[i] as int] == views[order@[j] as int] && order@[i] < order@[j]) by {
        let (a, b) = (order@[i] as int, order@[j] as int);
        assert(ranks(keys@, a, b));
        assert(keys[a].0@ == views[a] && keys[b].0@ == views[b]);
        if views[a] != views[b] {
            text::text_less_total(views[a], views[b]);
        } else {
            text::text_less_irreflexive(views[a]);
        }
    }
    order
}

/// The last position of `t` in `texts`.
pub open spec fn last_position(texts: Seq<Seq<char>>, t: Seq<char>) -> Option<usize>
    decreases texts.len(),
{
    if texts.len() == 0 {
        None
    } else if texts.last() == t {
        Some((texts.len() - 1) as usize)
    } else {
        last_position(texts.drop_last(), t)
    }
}

/// The first position of `t` in `texts`.
pub open spec fn first_position(texts: Seq<Seq<char>>, t: Seq<char>) -> Option<usize>
    decreases texts.len(),
{
    if texts.len() == 0 {
        None
    } else {
        match first_position(texts.drop_last(), t) {
            Some(i) => Some(i),
            None => if texts.last() == t {
                Some((texts.len() - 1) as usize)
            } else {
                None
            },
        }
    }
}

/// A position found is in range and holds the text; none is found only where no position does.
pub proof fn positions_hold_text(texts: Seq<Seq<char>>, t: Seq<char>)
    requires
        texts.len() <= usize::MAX,
    ensures
        last_position(texts, t) matches Some(i) ==> i < texts.len() && texts[i as int] == t,
        first_position(texts, t) matches Some(i) ==> i < texts.len() && texts[i as int] == t,
        last_position(texts, t) is Some <==> texts.contains(t),
        first_position(texts, t) is Some <==> texts.contains(t),
    decreases texts.len(),
{
    if texts.len() > 0 {
        positions_hold_text(texts.drop_last(), t);
        if texts.drop_last().contains(t) {
            let k = choose|k: int| 0 <= k < texts.drop_last().len() && texts.drop_last()[k] == t;
            assert(texts[k] == t);
        }
        if texts.contains(t) && texts.last() != t {
            let k = choose|k: int| 0 <= k < texts.len() && texts[k] == t;
            assert(texts.drop_last()[k] == t);
        }
        if texts.last() == t {
            assert(texts[texts.len() - 1] == t);
        }
    }
}

/// Positions by text: for each text of a list, where it stands.
pub open spec fn looks_up(m: Map<Seq<char>, usize>, t: Seq<char>) -> Option<usize> {
    if m.contains_key(t) {
        Some(m[t])
    } else {
        None
    }
}

/// For each text its last position.
pub fn last_positions(texts: &Vec<String>) -> (m: TextMap<usize>)
    ensures
        forall|t: Seq<char>| #[trigger] looks_up(m@, t) == last_position(texts_view(texts@), t),
{
    let ghost views = texts_view(texts@);
    let mut m: TextMap<usize> = TextMap::new();
    let mut i: usize = 0;
    while i < texts.len()
        invariant
            i <= texts.len(),
            views == texts_view(texts@),
            forall|t: Seq<char>| #[trigger] looks_up(m@, t) == last_position(views.take(i as int), t),
        decreases texts.len() - i,
    {
        let ghost before = m@;
        m.insert(texts[i].clone(), i);
        assert(views.take(i + 1).drop_last() =~= views.take(i as int));
        assert forall|t: Seq<char>| #[trigger] looks_up(m@, t) == last_position(
            views.take(i + 1),
            t,
        ) by {
            assert(looks_up(before, t) == last_position(views.take(i as int), t));
        }
        i = i + 1;
    }
    assert(views.take(views.len() as int) =~= views);
    m
}

/// For each text its first position.
pub fn first_positions(texts: &Vec<String>) -> (m: TextMap<usize>)
    ensures
        forall|t: Seq<char>| #[trigger] looks_up(m@, t) == first_position(texts_view(texts@), t),
{
    let ghost views = texts_view(texts@);
    let mut m: TextMap<usize> = TextMap::new();
    let mut i: usize = 0;
    while i < texts.len()
        invariant
            i <= texts.len(),
            views == texts_view(texts@),
            forall|t: Seq<char>| #[trigger] looks_up(m@, t) == first_position(views.take(i as int), t),
        decreases texts.len() - i,
    {
        let ghost before = m@;
        if !m.contains_key(texts[i].as_str()) {
            m.insert(texts[i].clone(), i);
        }
        assert(views.take(i + 1).drop_last() =~= views.take(i as int));
        assert forall|t: Seq<char>| #[trigger] looks_up(m@, t) == first_position(
            views.take(i + 1),
            t,
        ) by {
            assert(looks_up(before, t) == first_position(views.take(i as int), t));
            assert(looks_up(before, views[i as int]) == first_position(
                views.take(i as int),
                views[i as int],
            ));
        }
        i = i + 1;
    }
    assert(views.take(views.len() as int) =~= views);
    m
}

/// The position that a map gives a text.
pub fn look_up(m: &TextMap<usize>, t: &str) -> (i: Option<usize>)
    ensures
        i == looks_up(m@, t@),
{
    match m.get(t) {
        Some(i) => Some(*i),
        None => None,
    }
}

/// The first position from `i` on whose text is `t`, or the length.
pub open spec fn list_of(g: Seq<(Seq<char>, Seq<usize>)>, t: Seq<char>, i: nat) -> int
    decreases g.len() - i,
{
    if i >= g.len() {
        g.len() as int
    } else if g[i as int].0 == t {
        i as int
    } else {
        list_of(g, t, i + 1)
    }
}

/// The first `n` positions of `texts` grouped by text; groups in the order in which their texts
/// come, positions rising.
pub open spec fn positions_by_text(texts: Seq<Seq<char>>, n: nat) -> Seq<(Seq<char>, Seq<usize>)>
    decreases n,
{
    if n == 0 {
        Seq::empty()
    } else {
        let g = positions_by_text(texts, (n - 1) as nat);
        let t = texts[n - 1];
        let i = list_of(g, t, 0);
        if i < g.len() {
            g.update(i, (t, g[i].1.push((n - 1) as usize)))
        } else {
            g.push((t, seq![(n - 1) as usize]))
        }
    }
}

proof fn lemma_list_of(g: Seq<(Seq<char>, Seq<usize>)>, t: Seq<char>, i: nat, p: int)
    requires
        i <= p <= g.len(),
        p < g.len() ==> g[p].0 == t,
        forall|j: int| i <= j < p ==> (#[trigger] g[j]).0 != t,
    ensures
        list_of(g, t, i) == p,
    decreases p - i,
{
    if i < p {
        lemma_list_of(g, t, i + 1, p);
    }
}

/// The positions of each text, texts in the order in which they come.
pub fn group_positions(texts: &Vec<String>) -> (lists: Vec<Vec<usize>>)
    ensures
        lists.len() == positions_by_text(texts_view(texts@), texts@.len()).len(),
        forall|q: int|
            0 <= q < lists.len() ==> (#[trigger] lists[q])@ == positions_by_text(
                texts_view(texts@),
                texts@.len(),
            )[q].1,
        forall|q: int, k: int|
            0 <= q < lists.len() && 0 <= k < lists[q].len() ==> #[trigger] lists[q][k] < texts.len(),
{
    let ghost views = texts_view(texts@);
    let mut index: TextMap<usize> = TextMap::new();
    let mut lists: Vec<Vec<usize>> = Vec::new();
    let mut i: usize = 0;
    while i < texts.len()
        invariant
            i <= texts.len(),
            views == texts_view(texts@),
            lists.len() == positions_by_text(views, i as nat).len(),
            lists.len() <= i,
            forall|q: int|
                0 <= q < lists.len() ==> (#[trigger] lists[q])@ == positions_by_text(
                    views,
                    i as nat,
                )[q].1,
            forall|q: int, k: int|
                0 <= q < lists.len() && 0 <= k < lists[q].len() ==> #[trigger] lists[q][k] < i,
            forall|t: Seq<char>| #[trigger]
                index@.contains_key(t) ==> index@[t] < lists.len() && positions_by_text(
                    views,
                    i as nat,
                )[index@[t] as int].0 == t,
            forall|q: int|
                0 <= q < lists.len() ==> index@.contains_key(
                    (#[trigger] positions_by_text(views, i as nat)[q]).0,
                ) && index@[positions_by_text(views, i as nat)[q].0] == q,
        decreases texts.len() - i,
    {
        let ghost g = positions_by_text(views, i as nat);
        let ghost t = views[i as int];
        assert(t == texts[i as int]@);
        match look_up(&index, texts[i].as_str()) {
            Some(q) => {
                proof {
                    assert(index@.contains_key(t));
                    assert forall|j: int| 0 <= j < q implies (#[trigger] g[j]).0 != t by {
                        assert(index@[g[j].0] == j);
                    }
                    lemma_list_of(g, t, 0, q as int);
                }
                lists[q].push(i);
                let ghost next = positions_by_text(views, (i + 1) as nat);
                assert(next == g.update(q as int, (t, g[q as int].1.push(i))));
                assert forall|r: int| 0 <= r < lists.len() implies index@.contains_key(
                    (#[trigger] next[r]).0,
                ) && index@[next[r].0] == r by {
                    assert(g[r].0 == next[r].0);
                }
            },
            None => {
                proof {
                    assert forall|j: int| 0 <= j < g.len() implies (#[trigger] g[j]).0 != t by {
                        assert(index@.contains_key(g[j].0));
                    }
                    lemma_list_of(g, t, 0, g.len() as int);
                }
                let n: usize = lists.len();
                let mut one: Vec<usize> = Vec::new();
                one.push(i);
                assert(one@ =~= seq![i]);
                lists.push(one);
                index.insert(texts[i].clone(), n);
                let ghost next = positions_by_text(views, (i + 1) as nat);
                assert(next == g.push((t, seq![i])));
                assert forall|r: int| 0 <= r < lists.len() implies index@.contains_key(
                    (#[trigger] next[r]).0,
                ) && index@[next[r].0] == r by {
                    if r < g.len() {
                        assert(g[r].0 == next[r].0);
                    }
                }
            },
        }
        i = i + 1;
    }
    lists
}

} // verus!
