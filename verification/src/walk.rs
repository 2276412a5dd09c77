//! Whole searches of an unchanged tree of folders, by any number of workers.

use vstd::prelude::*;

use crate::cleanup::EntryKind;
use crate::discovery::{
    after_entries, after_entry, after_folder, after_start, files_to_take, indexable, limit_reached,
    started, takes_only_media, DiscoveryView, Found, Listed,
};
use crate::paths::excluded_path;

verus! {

/// A tree of folders that does not change: what reading a folder gives, and the folder as text.
#[verifier::reject_recursive_types(P)]
pub struct Tree<P> {
    pub listing: spec_fn(P) -> Result<Vec<Listed<P>>, String>,
    pub text: spec_fn(P) -> Seq<char>,
}

/// The entries of a folder; there are none where it cannot be read.
pub open spec fn entries_of<P>(t: Tree<P>, folder: P) -> Seq<Listed<P>> {
    match (t.listing)(folder) {
        Ok(entries) => entries@,
        Err(_) => Seq::empty(),
    }
}

/// Whether a path stands at a position of a folder.
pub open spec fn listed_at<P>(t: Tree<P>, folder: P, i: int, path: P) -> bool {
    &&& 0 <= i < entries_of(t, folder).len()
    &&& entries_of(t, folder)[i] matches Listed::Entry(f, _)
    &&& f.path == path
}

/// Whether a folder to search stands at a position of a folder.
pub open spec fn folder_at<P>(t: Tree<P>, folder: P, i: int, path: P) -> bool {
    &&& 0 <= i < entries_of(t, folder).len()
    &&& entries_of(t, folder)[i] matches Listed::Entry(f, EntryKind::Directory)
    &&& f.path == path
    &&& !excluded_path(f.parts)
}

/// Whether a file of the catalog stands at a position of a folder.
pub open spec fn file_at<P>(t: Tree<P>, folder: P, i: int, file: Found<P>) -> bool {
    &&& 0 <= i < entries_of(t, folder).len()
    &&& entries_of(t, folder)[i] == Listed::Entry(file, EntryKind::File)
    &&& indexable(file.parts)
}

/// Whether the folders form a tree below a root: every path stands at one place at most, and the
/// root stands nowhere.
pub open spec fn is_tree<P>(t: Tree<P>, root: P) -> bool {
    &&& forall|p: P, i: int, q: P, j: int, x: P| #[trigger]
        listed_at(t, p, i, x) && #[trigger] listed_at(t, q, j, x) ==> p == q && i == j
    &&& forall|p: P, i: int| !#[trigger] listed_at(t, p, i, root)
}

/// A step of a search: a worker starts to read the next folder, or hands over what it read.
pub enum WalkStep<P> {
    Start,
    Finish(P),
}

/// A search, with the folders that are being read and those that were.
#[verifier::reject_recursive_types(P)]
pub struct Walk<P> {
    pub search: DiscoveryView<P>,
    pub reading: Set<P>,
    pub read: Set<P>,
}

/// A search that has yet to read its root.
pub open spec fn walk_start<P>(root: P, text: Seq<char>, limit: Option<usize>) -> Walk<P> {
    Walk { search: started(root, text, limit), reading: Set::empty(), read: Set::empty() }
}

/// Whether a step can be taken.
pub open spec fn can_step<P>(w: Walk<P>, step: WalkStep<P>) -> bool {
    match step {
        WalkStep::Start => !limit_reached(w.search) && w.search.queue.len() > 0,
        WalkStep::Finish(p) => w.reading.contains(p),
    }
}

/// A search after a step.
pub open spec fn after_step<P>(t: Tree<P>, w: Walk<P>, step: WalkStep<P>) -> Walk<P> {
    match step {
        WalkStep::Start => Walk {
            search: after_start(w.search),
            reading: w.reading.insert(w.search.queue[0]),
            read: w.read,
        },
        WalkStep::Finish(p) => Walk {
            search: after_folder(w.search, (t.text)(p), (t.listing)(p)),
            reading: w.reading.remove(p),
            read: w.read.insert(p),
        },
    }
}

/// A search after the first `n` of some steps.
pub open spec fn after_steps<P>(t: Tree<P>, w: Walk<P>, steps: Seq<WalkStep<P>>, n: nat) -> Walk<P>
    decreases n,
{
    if n == 0 {
        w
    } else {
        after_step(t, after_steps(t, w, steps, (n - 1) as nat), steps[n - 1])
    }
}

/// Whether steps can be taken one after the other.
pub open spec fn can_take<P>(t: Tree<P>, w: Walk<P>, steps: Seq<WalkStep<P>>) -> bool {
    forall|n: int|
        0 <= n < steps.len() ==> can_step(after_steps(t, w, steps, n as nat), #[trigger] steps[n])
}

/// Whether every worker has stopped: none is reading, and none has anything left to read.
pub open spec fn is_over<P>(w: Walk<P>) -> bool {
    &&& w.reading == Set::<P>::empty()
    &&& limit_reached(w.search) || w.search.queue.len() == 0
}

/// Whether steps lead a search from its start to its end.
pub open spec fn is_search<P>(
    t: Tree<P>,
    root: P,
    text: Seq<char>,
    limit: Option<usize>,
    steps: Seq<WalkStep<P>>,
) -> bool {
    &&& can_take(t, walk_start(root, text, limit), steps)
    &&& is_over(after_steps(t, walk_start(root, text, limit), steps, steps.len()))
}

/// The files that a search takes in some steps.
pub open spec fn files_after<P>(
    t: Tree<P>,
    root: P,
    text: Seq<char>,
    limit: Option<usize>,
    steps: Seq<WalkStep<P>>,
) -> Seq<Found<P>> {
    after_steps(t, walk_start(root, text, limit), steps, steps.len()).search.files
}

/// Whether a search has passed over a file for its limit.
pub open spec fn past_limit<P>(d: DiscoveryView<P>) -> bool {
    d.limit matches Some(l) && d.found > l
}

/// Whether a folder is to be read, is being read or was read.
pub open spec fn is_met<P>(w: Walk<P>, x: P) -> bool {
    w.search.queue.contains(x) || w.reading.contains(x) || w.read.contains(x)
}

/// Whether a position was dealt with: it is one of a folder that was read, or one of the first
/// `n` of the folder `p`.
spec fn is_done<P>(w: Walk<P>, p: P, n: int, q: P, i: int) -> bool {
    w.read.contains(q) || (q == p && i < n)
}

/// Whether a file stands at a position that was dealt with.
spec fn has_place<P>(t: Tree<P>, w: Walk<P>, p: P, n: int, f: Found<P>) -> bool {
    exists|q: P, i: int| is_done(w, p, n, q, i) && #[trigger] file_at(t, q, i, f)
}

/// What holds of a search in the course of the folder `p`, of which `n` entries were taken.
spec fn is_sound<P>(t: Tree<P>, root: P, w: Walk<P>, p: P, n: int) -> bool {
    let d = w.search;
    &&& takes_only_media(d)
    &&& d.queue.no_duplicates()
    &&& forall|x: P| #[trigger]
        d.queue.contains(x) ==> !w.reading.contains(x) && !w.read.contains(x)
    &&& forall|x: P| #[trigger] w.reading.contains(x) ==> !w.read.contains(x)
    &&& is_met(w, root)
    &&& forall|x: P| #[trigger]
        is_met(w, x) ==> x == root || exists|q: P, i: int|
            is_done(w, p, n, q, i) && #[trigger] folder_at(t, q, i, x)
    &&& forall|k: int|
        0 <= k < d.files.len() ==> has_place(t, w, p, n, #[trigger] d.files[k])
    &&& forall|k: int, l: int|
        0 <= k < l < d.files.len() ==> (#[trigger] d.files[k]).path != (#[trigger] d.files[l]).path
    &&& !past_limit(d) ==> {
        &&& forall|q: P, i: int, x: P|
            is_done(w, p, n, q, i) && #[trigger] folder_at(t, q, i, x) ==> is_met(w, x)
        &&& forall|q: P, i: int, f: Found<P>|
            is_done(w, p, n, q, i) && #[trigger] file_at(t, q, i, f) ==> d.files.contains(f)
    }
}

proof fn lemma_passed_over<P>(t: Tree<P>, root: P, w: Walk<P>, p: P, n: int)
    requires
        is_sound(t, root, w, p, n),
        past_limit(w.search),
    ensures
        is_sound(t, root, w, p, n + 1),
{
    assert forall|x: P| #[trigger] is_met(w, x) && x != root implies exists|q: P, i: int|
        is_done(w, p, n + 1, q, i) && #[trigger] folder_at(t, q, i, x) by {
        let (q, i) = choose|q: P, i: int|
            is_done(w, p, n, q, i) && #[trigger] folder_at(t, q, i, x);
        assert(is_done(w, p, n + 1, q, i));
    }
    assert forall|k: int| 0 <= k < w.search.files.len() implies has_place(
        t,
        w,
        p,
        n + 1,
        #[trigger] w.search.files[k],
    ) by {
        let f = w.search.files[k];
        let (q, i) = choose|q: P, i: int| is_done(w, p, n, q, i) && #[trigger] file_at(t, q, i, f);
        assert(is_done(w, p, n + 1, q, i));
    }
}

proof fn lemma_new_path<P>(t: Tree<P>, root: P, w: Walk<P>, p: P, n: int, x: P)
    requires
        is_tree(t, root),
        is_sound(t, root, w, p, n),
        w.reading.contains(p),
        listed_at(t, p, n, x),
    ensures
        !is_met(w, x),
        forall|k: int| 0 <= k < w.search.files.len() ==> (#[trigger] w.search.files[k]).path != x,
{
    if is_met(w, x) {
        let (q, i) = choose|q: P, i: int|
            is_done(w, p, n, q, i) && #[trigger] folder_at(t, q, i, x);
        assert(listed_at(t, q, i, x));
    }
    assert forall|k: int| 0 <= k < w.search.files.len() implies (
    #[trigger] w.search.files[k]).path != x by {
        let f = w.search.files[k];
        let (q, i) = choose|q: P, i: int| is_done(w, p, n, q, i) && #[trigger] file_at(t, q, i, f);
        assert(listed_at(t, q, i, f.path));
    }
}

proof fn lemma_entry_is_sound<P>(t: Tree<P>, root: P, w: Walk<P>, p: P, n: int)
    requires
        is_tree(t, root),
        is_sound(t, root, w, p, n),
        w.reading.contains(p),
        0 <= n < entries_of(t, p).len(),
    ensures
        is_sound(
            t,
            root,
            Walk { search: after_entry(w.search, entries_of(t, p)[n]).0, ..w },
            p,
            n + 1,
        ),
        after_entry(w.search, entries_of(t, p)[n]).1 ==> past_limit(
            after_entry(w.search, entries_of(t, p)[n]).0,
        ),
{
    let e = entries_of(t, p)[n];
    let d = w.search;
    let v = Walk { search: after_entry(d, e).0, ..w };
    let (qs, fs) = (v.search.queue, v.search.files);
    if let Listed::Entry(f, _) = e {
        assert(listed_at(t, p, n, f.path));
        lemma_new_path(t, root, w, p, n, f.path);
    }
    assert forall|x: P| #[trigger] is_met(w, x) implies is_met(v, x) by {
        if d.queue.contains(x) {
            let k = choose|k: int| 0 <= k < d.queue.len() && d.queue[k] == x;
            assert(qs[k] == x);
        }
    }
    assert forall|x: P| #[trigger] is_met(v, x) && !is_met(w, x) implies folder_at(t, p, n, x) by {
        let k = choose|k: int| 0 <= k < qs.len() && qs[k] == x;
        if k < d.queue.len() {
            assert(d.queue[k] == x);
        }
    }
    assert forall|x: P| #[trigger] is_met(v, x) && x != root implies exists|q: P, i: int|
        is_done(v, p, n + 1, q, i) && #[trigger] folder_at(t, q, i, x) by {
        if is_met(w, x) {
            let (q, i) = choose|q: P, i: int|
                is_done(w, p, n, q, i) && #[trigger] folder_at(t, q, i, x);
            assert(is_done(v, p, n + 1, q, i));
        } else {
            assert(is_done(v, p, n + 1, p, n) && folder_at(t, p, n, x));
        }
    }
    assert forall|x: P| #[trigger] qs.contains(x) implies !v.reading.contains(x)
        && !v.read.contains(x) by {
        assert(is_met(v, x));
        if is_met(w, x) {
            let k = choose|k: int| 0 <= k < qs.len() && qs[k] == x;
            if k < d.queue.len() {
                assert(d.queue[k] == x);
                assert(d.queue.contains(x));
            }
        }
    }
    assert(qs.no_duplicates()) by {
        assert forall|k: int, l: int| 0 <= k < qs.len() && 0 <= l < qs.len() && k != l implies qs[k]
            != qs[l] by {
            if k < d.queue.len() {
                assert(d.queue.contains(d.queue[k]));
                assert(is_met(w, d.queue[k]));
            }
            if l < d.queue.len() {
                assert(d.queue.contains(d.queue[l]));
                assert(is_met(w, d.queue[l]));
            }
        }
    }
    assert forall|k: int| 0 <= k < fs.len() implies has_place(t, v, p, n + 1, #[trigger] fs[k]) by {
        let f = fs[k];
        if k < d.files.len() {
            assert(d.files[k] == f);
            let (q, i) = choose|q: P, i: int|
                is_done(w, p, n, q, i) && #[trigger] file_at(t, q, i, f);
            assert(is_done(v, p, n + 1, q, i));
        } else {
            assert(is_done(v, p, n + 1, p, n) && file_at(t, p, n, f));
        }
    }
    if !past_limit(v.search) {
        assert forall|q: P, i: int, x: P|
            is_done(v, p, n + 1, q, i) && #[trigger] folder_at(t, q, i, x) implies is_met(v, x) by {
            if is_done(w, p, n, q, i) {
                assert(is_met(w, x));
            } else {
                assert(qs.last() == x);
                assert(qs.contains(x));
            }
        }
        assert forall|q: P, i: int, f: Found<P>|
            is_done(v, p, n + 1, q, i) && #[trigger] file_at(t, q, i, f) implies fs.contains(f) by {
            if is_done(w, p, n, q, i) {
                let k = choose|k: int| 0 <= k < d.files.len() && d.files[k] == f;
                assert(fs[k] == f);
            } else {
                assert(fs.last() == f);
            }
        }
    }
}

proof fn lemma_entries_are_sound<P>(t: Tree<P>, root: P, w: Walk<P>, p: P, n: nat)
    requires
        is_tree(t, root),
        is_sound(t, root, w, p, 0),
        w.reading.contains(p),
        n <= entries_of(t, p).len(),
    ensures
        is_sound(
            t,
            root,
            Walk { search: after_entries(w.search, entries_of(t, p), n).0, ..w },
            p,
            n as int,
        ),
        after_entries(w.search, entries_of(t, p), n).1 ==> past_limit(
            after_entries(w.search, entries_of(t, p), n).0,
        ),
    decreases n,
{
    if n > 0 {
        let m = (n - 1) as nat;
        lemma_entries_are_sound(t, root, w, p, m);
        let before = after_entries(w.search, entries_of(t, p), m);
        let v = Walk { search: before.0, ..w };
        if before.1 {
            lemma_passed_over(t, root, v, p, m as int);
        } else {
            lemma_entry_is_sound(t, root, v, p, m as int);
        }
    } else {
        assert(Walk { search: w.search, ..w } == w);
    }
}

proof fn lemma_start_is_sound<P>(t: Tree<P>, root: P, w: Walk<P>, p: P)
    requires
        is_sound(t, root, w, p, 0),
        can_step(w, WalkStep::Start),
    ensures
        is_sound(t, root, after_step(t, w, WalkStep::Start), p, 0),
{
    let v = after_step(t, w, WalkStep::Start);
    let (before, after) = (w.search.queue, v.search.queue);
    let first = before[0];
    assert(before.contains(first));
    assert forall|x: P| after.contains(x) == (before.contains(x) && x != first) by {
        if after.contains(x) {
            let k = choose|k: int| 0 <= k < after.len() && after[k] == x;
            assert(before[k + 1] == x);
        }
        if before.contains(x) && x != first {
            let k = choose|k: int| 0 <= k < before.len() && before[k] == x;
            assert(after[k - 1] == x);
        }
    }
    assert forall|x: P| is_met(v, x) == is_met(w, x) by {}
    assert forall|x: P| #[trigger] is_met(v, x) && x != root implies exists|q: P, i: int|
        is_done(v, p, 0, q, i) && #[trigger] folder_at(t, q, i, x) by {
        let (q, i) = choose|q: P, i: int|
            is_done(w, p, 0, q, i) && #[trigger] folder_at(t, q, i, x);
        assert(is_done(v, p, 0, q, i));
    }
    assert forall|k: int| 0 <= k < v.search.files.len() implies has_place(
        t,
        v,
        p,
        0,
        #[trigger] v.search.files[k],
    ) by {
        let f = w.search.files[k];
        let (q, i) = choose|q: P, i: int| is_done(w, p, 0, q, i) && #[trigger] file_at(t, q, i, f);
        assert(is_done(v, p, 0, q, i));
    }
    assert forall|q: P, i: int, x: P|
        !past_limit(v.search) && is_done(v, p, 0, q, i) && #[trigger] folder_at(
            t,
            q,
            i,
            x,
        ) implies is_met(v, x) by {
        assert(is_done(w, p, 0, q, i));
        assert(is_met(w, x));
    }
    assert forall|q: P, i: int, f: Found<P>|
        !past_limit(v.search) && is_done(v, p, 0, q, i) && #[trigger] file_at(
            t,
            q,
            i,
            f,
        ) implies v.search.files.contains(f) by {
        assert(is_done(w, p, 0, q, i));
    }
}

/// Between folders it does not matter which folder stands for the one under way.
proof fn lemma_any_folder<P>(t: Tree<P>, root: P, w: Walk<P>, p: P, other: P)
    requires
        is_sound(t, root, w, p, 0),
    ensures
        is_sound(t, root, w, other, 0),
{
    assert forall|x: P| #[trigger] is_met(w, x) && x != root implies exists|q: P, i: int|
        is_done(w, other, 0, q, i) && #[trigger] folder_at(t, q, i, x) by {
        let (q, i) = choose|q: P, i: int|
            is_done(w, p, 0, q, i) && #[trigger] folder_at(t, q, i, x);
        assert(is_done(w, other, 0, q, i));
    }
    assert forall|k: int| 0 <= k < w.search.files.len() implies has_place(
        t,
        w,
        other,
        0,
        #[trigger] w.search.files[k],
    ) by {
        let f = w.search.files[k];
        let (q, i) = choose|q: P, i: int| is_done(w, p, 0, q, i) && #[trigger] file_at(t, q, i, f);
        assert(is_done(w, other, 0, q, i));
    }
    assert forall|q: P, i: int, x: P|
        !past_limit(w.search) && is_done(w, other, 0, q, i) && #[trigger] folder_at(
            t,
            q,
            i,
            x,
        ) implies is_met(w, x) by {
        assert(is_done(w, p, 0, q, i));
    }
    assert forall|q: P, i: int, f: Found<P>|
        !past_limit(w.search) && is_done(w, other, 0, q, i) && #[trigger] file_at(
            t,
            q,
            i,
            f,
        ) implies w.search.files.contains(f) by {
        assert(is_done(w, p, 0, q, i));
    }
}

proof fn lemma_finish_is_sound<P>(t: Tree<P>, root: P, w: Walk<P>, p: P)
    requires
        is_tree(t, root),
        is_sound(t, root, w, p, 0),
        w.reading.contains(p),
    ensures
        is_sound(t, root, after_step(t, w, WalkStep::Finish(p)), p, 0),
{
    let entries = entries_of(t, p);
    lemma_entries_are_sound(t, root, w, p, entries.len());
    let u = Walk { search: after_entries(w.search, entries, entries.len()).0, ..w };
    let v = after_step(t, w, WalkStep::Finish(p));
    assert(v.search.queue == u.search.queue);
    assert(v.search.files == u.search.files);
    assert(v.search.found == u.search.found);
    assert(v.search.limit == u.search.limit);
    assert forall|x: P| is_met(v, x) == is_met(u, x) by {}
    assert forall|x: P| #[trigger] is_met(v, x) && x != root implies exists|q: P, i: int|
        is_done(v, p, 0, q, i) && #[trigger] folder_at(t, q, i, x) by {
        assert(is_met(u, x));
        let (q, i) = choose|q: P, i: int|
            is_done(u, p, entries.len() as int, q, i) && #[trigger] folder_at(t, q, i, x);
        assert(is_done(v, p, 0, q, i));
    }
    assert forall|k: int| 0 <= k < v.search.files.len() implies has_place(
        t,
        v,
        p,
        0,
        #[trigger] v.search.files[k],
    ) by {
        let f = u.search.files[k];
        let (q, i) = choose|q: P, i: int|
            is_done(u, p, entries.len() as int, q, i) && #[trigger] file_at(t, q, i, f);
        assert(is_done(v, p, 0, q, i));
    }
    assert forall|q: P, i: int, x: P|
        !past_limit(v.search) && is_done(v, p, 0, q, i) && #[trigger] folder_at(
            t,
            q,
            i,
            x,
        ) implies is_met(v, x) by {
        assert(is_done(u, p, entries.len() as int, q, i));
        assert(is_met(u, x));
    }
    assert forall|q: P, i: int, f: Found<P>|
        !past_limit(v.search) && is_done(v, p, 0, q, i) && #[trigger] file_at(
            t,
            q,
            i,
            f,
        ) implies v.search.files.contains(f) by {
        assert(is_done(u, p, entries.len() as int, q, i));
    }
}

/// Every search is sound after each of its steps, and keeps to folders that can be reached.
proof fn lemma_steps_are_sound<P>(
    t: Tree<P>,
    root: P,
    text: Seq<char>,
    limit: Option<usize>,
    steps: Seq<WalkStep<P>>,
    n: nat,
    reachable: Set<P>,
)
    requires
        is_tree(t, root),
        can_take(t, walk_start(root, text, limit), steps),
        n <= steps.len(),
        is_closed(t, root, reachable),
    ensures
        is_sound(t, root, after_steps(t, walk_start(root, text, limit), steps, n), root, 0),
        after_steps(t, walk_start(root, text, limit), steps, n).search.limit == limit,
        forall|x: P| #[trigger]
            is_met(after_steps(t, walk_start(root, text, limit), steps, n), x)
                ==> reachable.contains(x),
    decreases n,
{
    let start = walk_start(root, text, limit);
    let w = after_steps(t, start, steps, n);
    if n == 0 {
        assert(w.search.queue[0] == root);
        assert(w.search.queue.contains(root));
        assert(is_met(w, root));
    } else {
        let m = (n - 1) as nat;
        lemma_steps_are_sound(t, root, text, limit, steps, m, reachable);
        let before = after_steps(t, start, steps, m);
        assert(can_step(before, steps[m as int]));
        match steps[m as int] {
            WalkStep::Start => {
                lemma_start_is_sound(t, root, before, root);
                assert(before.search.queue.contains(before.search.queue[0]));
                assert(is_met(before, before.search.queue[0]));
            },
            WalkStep::Finish(p) => {
                lemma_any_folder(t, root, before, root, p);
                lemma_finish_is_sound(t, root, before, p);
                lemma_any_folder(t, root, w, p, root);
                assert(is_met(before, p));
                if let Ok(entries) = (t.listing)(p) {
                    lemma_keeps_limit(before.search, entries@, entries@.len());
                }
            },
        }
        assert forall|x: P| #[trigger] w.read.contains(x) implies reachable.contains(x) by {
            assert(is_met(before, x));
        }
        assert forall|x: P| #[trigger] is_met(w, x) implies reachable.contains(x) by {
            if x != root {
                let (q, i) = choose|q: P, i: int|
                    is_done(w, root, 0, q, i) && #[trigger] folder_at(t, q, i, x);
                assert(w.read.contains(q));
            }
        }
    }
}

proof fn lemma_keeps_limit<P>(d: DiscoveryView<P>, entries: Seq<Listed<P>>, n: nat)
    ensures
        after_entries(d, entries, n).0.limit == d.limit,
    decreases n,
{
    if n > 0 {
        lemma_keeps_limit(d, entries, (n - 1) as nat);
    }
}

/// Whether a set holds the root and, with a folder, every folder to search in it.
pub open spec fn is_closed<P>(t: Tree<P>, root: P, folders: Set<P>) -> bool {
    &&& folders.contains(root)
    &&& forall|q: P, i: int, x: P|
        folders.contains(q) && #[trigger] folder_at(t, q, i, x) ==> folders.contains(x)
}

/// Whether a folder can be reached from the root over folders to search.
pub open spec fn is_reachable<P>(t: Tree<P>, root: P, x: P) -> bool {
    forall|folders: Set<P>| #[trigger] is_closed(t, root, folders) ==> folders.contains(x)
}

proof fn lemma_read_is_closed<P>(t: Tree<P>, root: P, w: Walk<P>)
    requires
        is_sound(t, root, w, root, 0),
        is_over(w),
        !limit_reached(w.search),
    ensures
        is_closed(t, root, w.read),
        forall|q: P, i: int, f: Found<P>|
            w.read.contains(q) && #[trigger] file_at(t, q, i, f) ==> w.search.files.contains(f),
{
    assert(is_met(w, root));
    assert forall|q: P, i: int, x: P|
        w.read.contains(q) && #[trigger] folder_at(t, q, i, x) implies w.read.contains(x) by {
        assert(is_done(w, root, 0, q, i));
        assert(is_met(w, x));
    }
    assert forall|q: P, i: int, f: Found<P>|
        w.read.contains(q) && #[trigger] file_at(t, q, i, f) implies w.search.files.contains(f) by {
        assert(is_done(w, root, 0, q, i));
    }
}

/// The files that a search takes lie in folders that can be reached, and no two of them have the
/// same path.
proof fn lemma_files_are_reached<P>(
    t: Tree<P>,
    root: P,
    text: Seq<char>,
    limit: Option<usize>,
    steps: Seq<WalkStep<P>>,
    reachable: Set<P>,
)
    requires
        is_tree(t, root),
        is_search(t, root, text, limit, steps),
        is_closed(t, root, reachable),
    ensures
        files_after(t, root, text, limit, steps).no_duplicates(),
        forall|f: Found<P>| #[trigger]
            files_after(t, root, text, limit, steps).contains(f) ==> exists|q: P, i: int|
                reachable.contains(q) && #[trigger] file_at(t, q, i, f),
{
    let w = after_steps(t, walk_start(root, text, limit), steps, steps.len());
    lemma_steps_are_sound(t, root, text, limit, steps, steps.len(), reachable);
    let files = w.search.files;
    assert forall|f: Found<P>| #[trigger] files.contains(f) implies exists|q: P, i: int|
        reachable.contains(q) && #[trigger] file_at(t, q, i, f) by {
        let k = choose|k: int| 0 <= k < files.len() && files[k] == f;
        assert(has_place(t, w, root, 0, files[k]));
        let (q, i) = choose|q: P, i: int|
            is_done(w, root, 0, q, i) && #[trigger] file_at(t, q, i, f);
        assert(is_met(w, q));
    }
}

/// A search without a limit takes exactly the files of the catalog in the folders that can be
/// reached, each once, in whatever order its workers read the folders.
pub proof fn search_finds_every_file<P>(
    t: Tree<P>,
    root: P,
    text: Seq<char>,
    steps: Seq<WalkStep<P>>,
)
    requires
        is_tree(t, root),
        is_search(t, root, text, None, steps),
    ensures
        files_after(t, root, text, None, steps).no_duplicates(),
        forall|f: Found<P>| #[trigger]
            files_after(t, root, text, None, steps).contains(f) <==> exists|q: P, i: int|
                is_reachable(t, root, q) && #[trigger] file_at(t, q, i, f),
{
    let w = after_steps(t, walk_start(root, text, None), steps, steps.len());
    let files = w.search.files;
    lemma_steps_are_sound(t, root, text, None, steps, steps.len(), Set::full());
    lemma_read_is_closed(t, root, w);
    lemma_files_are_reached(t, root, text, None, steps, w.read);
    assert forall|q: P| #[trigger] w.read.contains(q) implies is_reachable(t, root, q) by {
        assert forall|folders: Set<P>| #[trigger]
            is_closed(t, root, folders) implies folders.contains(q) by {
            lemma_steps_are_sound(t, root, text, None, steps, steps.len(), folders);
            assert(is_met(w, q));
        }
    }
    assert forall|f: Found<P>|
        (exists|q: P, i: int|
            is_reachable(t, root, q) && #[trigger] file_at(t, q, i, f))
        implies #[trigger] files.contains(f) by {
        let (q, i) = choose|q: P, i: int|
            is_reachable(t, root, q) && #[trigger] file_at(t, q, i, f);
        assert(w.read.contains(q));
    }
}

/// A search with a limit takes files of the search without one, each once, and exactly as many as
/// the smaller of its limit and the number of those files.
pub proof fn limited_search_takes_a_part<P>(
    t: Tree<P>,
    root: P,
    text: Seq<char>,
    steps: Seq<WalkStep<P>>,
    limit: usize,
    limited_steps: Seq<WalkStep<P>>,
)
    requires
        is_tree(t, root),
        is_search(t, root, text, None, steps),
        is_search(t, root, text, Some(limit), limited_steps),
    ensures
        ({
            let all = files_after(t, root, text, None, steps);
            let part = files_after(t, root, text, Some(limit), limited_steps);
            &&& part.no_duplicates()
            &&& part.to_set().subset_of(all.to_set())
            &&& part.len() == if limit <= all.len() {
                limit as nat
            } else {
                all.len()
            }
        }),
{
    let a = after_steps(t, walk_start(root, text, None), steps, steps.len());
    let b = after_steps(t, walk_start(root, text, Some(limit)), limited_steps, limited_steps.len());
    let (all, part) = (a.search.files, b.search.files);
    lemma_steps_are_sound(t, root, text, None, steps, steps.len(), Set::full());
    lemma_read_is_closed(t, root, a);
    lemma_files_are_reached(t, root, text, None, steps, a.read);
    lemma_files_are_reached(t, root, text, Some(limit), limited_steps, a.read);
    lemma_steps_are_sound(t, root, text, Some(limit), limited_steps, limited_steps.len(), a.read);
    assert(part.to_set().subset_of(all.to_set())) by {
        assert forall|f: Found<P>| #[trigger] part.contains(f) implies all.contains(f) by {
            let (q, i) = choose|q: P, i: int|
                a.read.contains(q) && #[trigger] file_at(t, q, i, f);
        }
    }
    all.unique_seq_to_set();
    part.unique_seq_to_set();
    vstd::set_lib::lemma_len_subset(part.to_set(), all.to_set());
    assert(part.len() == files_to_take(b.search));
    if !limit_reached(b.search) {
        lemma_read_is_closed(t, root, b);
        lemma_files_are_reached(t, root, text, None, steps, b.read);
        assert(all.to_set().subset_of(part.to_set())) by {
            assert forall|f: Found<P>| #[trigger] all.contains(f) implies part.contains(f) by {
                let (q, i) = choose|q: P, i: int|
                    b.read.contains(q) && #[trigger] file_at(t, q, i, f);
            }
        }
        vstd::set_lib::lemma_len_subset(all.to_set(), part.to_set());
    }
}

} // verus!
