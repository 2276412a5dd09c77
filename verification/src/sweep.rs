//! Whole searches for ignored files in an unchanged tree of folders, held against the searches
//! for the files of the catalog.

use vstd::prelude::*;

use crate::cleanup::EntryKind;
use crate::discovery::{cleanup_lists_what_indexing_leaves_out, Found, Listed};
use crate::ignored::{task_of, tasks_from, IgnoredTask};
use crate::paths::{media_type, opt_view};
use crate::walk::{
    entries_of, file_at, files_after, folder_at, is_closed, is_reachable, is_search, is_tree,
    listed_at, search_finds_every_file, Tree, WalkStep,
};

verus! {

/// Whether a folder, to be searched or not, stands at a position of a folder.
pub open spec fn any_folder_at<P>(t: Tree<P>, folder: P, i: int, path: P) -> bool {
    &&& 0 <= i < entries_of(t, folder).len()
    &&& entries_of(t, folder)[i] matches Listed::Entry(f, EntryKind::Directory)
    &&& f.path == path
}

/// Whether a regular file stands at a position of a folder.
pub open spec fn any_file_at<P>(t: Tree<P>, folder: P, i: int, file: Found<P>) -> bool {
    &&& 0 <= i < entries_of(t, folder).len()
    &&& entries_of(t, folder)[i] == Listed::Entry(file, EntryKind::File)
}

/// Whether a set holds a folder and, with a folder, every folder in it.
pub open spec fn is_downward<P>(t: Tree<P>, top: P, folders: Set<P>) -> bool {
    &&& folders.contains(top)
    &&& forall|q: P, i: int, x: P|
        folders.contains(q) && #[trigger] any_folder_at(t, q, i, x) ==> folders.contains(x)
}

/// Whether a folder is another one or lies anywhere below it.
pub open spec fn lies_below<P>(t: Tree<P>, top: P, x: P) -> bool {
    forall|folders: Set<P>| #[trigger] is_downward(t, top, folders) ==> folders.contains(x)
}

/// Whether a list holds exactly the paths of the regular files that lie anywhere below a folder.
pub open spec fn lists_below<P>(t: Tree<P>, top: P, paths: Seq<P>) -> bool {
    forall|x: P| #[trigger]
        paths.contains(x) <==> exists|q: P, i: int, f: Found<P>|
            lies_below(t, top, q) && #[trigger] any_file_at(t, q, i, f) && f.path == x
}

/// A search for ignored files: what is to be done, the paths that were listed, and the folders
/// that were read.
#[verifier::reject_recursive_types(P)]
pub struct Sweep<P> {
    pub tasks: Seq<IgnoredTask<P>>,
    pub listed: Seq<P>,
    pub read: Set<P>,
}

/// The paths that a task lists, where `below` gives the files below a folder.
pub open spec fn listed_by<P>(below: spec_fn(P) -> Seq<P>, task: IgnoredTask<P>) -> Seq<P> {
    match task {
        IgnoredTask::Read(_) => Seq::empty(),
        IgnoredTask::List(p, _) => seq![p],
        IgnoredTask::ListBelow(p) => below(p),
    }
}

/// A search after its next task.
pub open spec fn after_task<P>(t: Tree<P>, below: spec_fn(P) -> Seq<P>, s: Sweep<P>) -> Sweep<P> {
    if s.tasks.len() == 0 {
        s
    } else {
        let rest = s.tasks.drop_first();
        match s.tasks[0] {
            IgnoredTask::Read(p) => Sweep {
                tasks: tasks_from(entries_of(t, p), 0) + rest,
                listed: s.listed,
                read: s.read.insert(p),
            },
            task => Sweep {
                tasks: rest,
                listed: s.listed + listed_by(below, task),
                read: s.read,
            },
        }
    }
}

/// A search below a root after its first `n` tasks.
pub open spec fn after_tasks<P>(
    t: Tree<P>,
    below: spec_fn(P) -> Seq<P>,
    root: P,
    n: nat,
) -> Sweep<P>
    decreases n,
{
    if n == 0 {
        Sweep { tasks: seq![IgnoredTask::Read(root)], listed: Seq::empty(), read: Set::empty() }
    } else {
        after_task(t, below, after_tasks(t, below, root, (n - 1) as nat))
    }
}

/// Whether a position of a folder gives a task.
spec fn task_at<P>(t: Tree<P>, folder: P, i: int, task: IgnoredTask<P>) -> bool {
    0 <= i < entries_of(t, folder).len() && task_of(entries_of(t, folder)[i]) == Some(task)
}

/// Whether a task comes from a folder that was read.
spec fn comes_from<P>(t: Tree<P>, read: Set<P>, task: IgnoredTask<P>) -> bool {
    exists|q: P, i: int| read.contains(q) && #[trigger] task_at(t, q, i, task)
}

/// Whether a path was listed by a task that comes from a folder that was read.
spec fn is_accounted<P>(t: Tree<P>, below: spec_fn(P) -> Seq<P>, read: Set<P>, x: P) -> bool {
    exists|task: IgnoredTask<P>| #[trigger]
        comes_from(t, read, task) && listed_by(below, task).contains(x)
}

/// Whether a task was done.
spec fn is_finished<P>(below: spec_fn(P) -> Seq<P>, s: Sweep<P>, task: IgnoredTask<P>) -> bool {
    match task {
        IgnoredTask::Read(p) => s.read.contains(p),
        _ => forall|x: P| #[trigger]
            listed_by(below, task).contains(x) ==> s.listed.contains(x),
    }
}

/// What holds of a search for ignored files after each of its tasks.
spec fn is_tidy<P>(t: Tree<P>, below: spec_fn(P) -> Seq<P>, root: P, s: Sweep<P>) -> bool {
    &&& s.tasks.contains(IgnoredTask::Read(root)) || s.read.contains(root)
    &&& forall|task: IgnoredTask<P>| #[trigger]
        s.tasks.contains(task) ==> task == IgnoredTask::Read(root) || comes_from(t, s.read, task)
    &&& forall|x: P| #[trigger] s.listed.contains(x) ==> is_accounted(t, below, s.read, x)
    &&& forall|task: IgnoredTask<P>| #[trigger]
        comes_from(t, s.read, task) ==> s.tasks.contains(task) || is_finished(below, s, task)
}

proof fn lemma_tasks_from<P>(entries: Seq<Listed<P>>, i: nat)
    ensures
        forall|task: IgnoredTask<P>| #[trigger]
            tasks_from(entries, i).contains(task) <==> exists|j: int|
                i <= j < entries.len() && #[trigger] task_of(entries[j]) == Some(task),
    decreases entries.len() - i,
{
    if i < entries.len() {
        lemma_tasks_from(entries, i + 1);
        let all = tasks_from(entries, i);
        let rest = tasks_from(entries, i + 1);
        assert forall|task: IgnoredTask<P>| #[trigger]
            all.contains(task) <==> exists|j: int|
                i <= j < entries.len() && #[trigger] task_of(entries[j]) == Some(task) by {
            match task_of(entries[i as int]) {
                Some(first) => {
                    assert(all == seq![first] + rest);
                    if all.contains(task) {
                        let k = choose|k: int| 0 <= k < all.len() && all[k] == task;
                        if k > 0 {
                            assert(rest[k - 1] == task);
                        } else {
                            assert(task_of(entries[i as int]) == Some(task));
                        }
                    }
                    if task == first {
                        assert(all[0] == task);
                    }
                    if rest.contains(task) {
                        let k = choose|k: int| 0 <= k < rest.len() && rest[k] == task;
                        assert(all[k + 1] == task);
                    }
                },
                None => {},
            }
        }
    }
}

proof fn lemma_more_read<P>(t: Tree<P>, below: spec_fn(P) -> Seq<P>, a: Set<P>, b: Set<P>)
    requires
        a.subset_of(b),
    ensures
        forall|task: IgnoredTask<P>| #[trigger]
            comes_from(t, a, task) ==> comes_from(t, b, task),
        forall|x: P| #[trigger] is_accounted(t, below, a, x) ==> is_accounted(t, below, b, x),
{
    assert forall|task: IgnoredTask<P>| #[trigger] comes_from(t, a, task) implies comes_from(
        t,
        b,
        task,
    ) by {
        let (q, i) = choose|q: P, i: int| a.contains(q) && #[trigger] task_at(t, q, i, task);
        assert(b.contains(q));
    }
}

proof fn lemma_task_is_tidy<P>(t: Tree<P>, below: spec_fn(P) -> Seq<P>, root: P, s: Sweep<P>)
    requires
        is_tidy(t, below, root, s),
    ensures
        is_tidy(t, below, root, after_task(t, below, s)),
{
    if s.tasks.len() > 0 {
        let next = after_task(t, below, s);
        let first = s.tasks[0];
        let rest = s.tasks.drop_first();
        assert(s.tasks.contains(first));
        assert forall|task: IgnoredTask<P>| #[trigger]
            s.tasks.contains(task) implies task == first || rest.contains(task) by {
            let k = choose|k: int| 0 <= k < s.tasks.len() && s.tasks[k] == task;
            if k > 0 {
                assert(rest[k - 1] == task);
            }
        }
        assert forall|task: IgnoredTask<P>| #[trigger] rest.contains(task) implies s.tasks.contains(
            task,
        ) by {
            let k = choose|k: int| 0 <= k < rest.len() && rest[k] == task;
            assert(s.tasks[k + 1] == task);
        }
        match first {
            IgnoredTask::Read(p) => {
                let entries = entries_of(t, p);
                let more = tasks_from(entries, 0);
                lemma_tasks_from(entries, 0);
                lemma_more_read(t, below, s.read, next.read);
                assert forall|task: IgnoredTask<P>|
                    next.tasks.contains(task) == (more.contains(task) || rest.contains(task)) by {
                    if more.contains(task) {
                        let k = choose|k: int| 0 <= k < more.len() && more[k] == task;
                        assert(next.tasks[k] == task);
                    }
                    if rest.contains(task) {
                        let k = choose|k: int| 0 <= k < rest.len() && rest[k] == task;
                        assert(next.tasks[more.len() + k] == task);
                    }
                    if next.tasks.contains(task) {
                        let k = choose|k: int| 0 <= k < next.tasks.len() && next.tasks[k] == task;
                        if k < more.len() {
                            assert(more[k] == task);
                        } else {
                            assert(rest[k - more.len()] == task);
                        }
                    }
                }
                assert forall|task: IgnoredTask<P>| #[trigger] next.tasks.contains(task) && task
                    != IgnoredTask::Read(root) implies comes_from(t, next.read, task) by {
                    if more.contains(task) {
                        let j = choose|j: int|
                            0 <= j < entries.len() && #[trigger] task_of(entries[j]) == Some(task);
                        assert(task_at(t, p, j, task));
                    } else {
                        assert(s.tasks.contains(task));
                    }
                }
                assert forall|task: IgnoredTask<P>| #[trigger]
                    comes_from(t, next.read, task) implies next.tasks.contains(task) || is_finished(
                    below,
                    next,
                    task,
                ) by {
                    let (q, i) = choose|q: P, i: int|
                        next.read.contains(q) && #[trigger] task_at(t, q, i, task);
                    if q == p {
                        assert(task_of(entries[i]) == Some(task));
                        assert(more.contains(task));
                    } else {
                        assert(s.read.contains(q));
                        assert(comes_from(t, s.read, task));
                    }
                }
            },
            _ => {
                let new = listed_by(below, first);
                assert forall|x: P|
                    next.listed.contains(x) == (s.listed.contains(x) || new.contains(x)) by {
                    if s.listed.contains(x) {
                        let k = choose|k: int| 0 <= k < s.listed.len() && s.listed[k] == x;
                        assert(next.listed[k] == x);
                    }
                    if new.contains(x) {
                        let k = choose|k: int| 0 <= k < new.len() && new[k] == x;
                        assert(next.listed[s.listed.len() + k] == x);
                    }
                    if next.listed.contains(x) {
                        let k = choose|k: int| 0 <= k < next.listed.len() && next.listed[k] == x;
                        if k < s.listed.len() {
                            assert(s.listed[k] == x);
                        } else {
                            assert(new[k - s.listed.len()] == x);
                        }
                    }
                }
                assert(comes_from(t, s.read, first));
            },
        }
    }
}

/// A search for ignored files stays tidy, and reads only folders that can be reached.
proof fn lemma_tasks_are_tidy<P>(
    t: Tree<P>,
    below: spec_fn(P) -> Seq<P>,
    root: P,
    n: nat,
    reachable: Set<P>,
)
    requires
        is_closed(t, root, reachable),
    ensures
        is_tidy(t, below, root, after_tasks(t, below, root, n)),
        after_tasks(t, below, root, n).read.subset_of(reachable),
    decreases n,
{
    let s = after_tasks(t, below, root, n);
    if n == 0 {
        assert(s.tasks[0] == IgnoredTask::Read(root));
    } else {
        let before = after_tasks(t, below, root, (n - 1) as nat);
        lemma_tasks_are_tidy(t, below, root, (n - 1) as nat, reachable);
        lemma_task_is_tidy(t, below, root, before);
        if before.tasks.len() > 0 {
            let first = before.tasks[0];
            assert(before.tasks.contains(first));
            if let IgnoredTask::Read(p) = first {
                if p != root {
                    assert(comes_from(t, before.read, first));
                    let (q, i) = choose|q: P, i: int|
                        before.read.contains(q) && #[trigger] task_at(t, q, i, first);
                    assert(folder_at(t, q, i, p));
                }
            }
        }
    }
}

/// What a search for ignored files has done when it is over: it has read exactly the folders that
/// can be reached, and listed what their entries give to list.
proof fn lemma_sweep_is_over<P>(t: Tree<P>, below: spec_fn(P) -> Seq<P>, root: P, n: nat)
    requires
        after_tasks(t, below, root, n).tasks.len() == 0,
    ensures
        ({
            let s = after_tasks(t, below, root, n);
            &&& is_closed(t, root, s.read)
            &&& forall|q: P| #[trigger] s.read.contains(q) <==> is_reachable(t, root, q)
            &&& forall|x: P| #[trigger]
                s.listed.contains(x) <==> is_accounted(t, below, s.read, x)
        }),
{
    let s = after_tasks(t, below, root, n);
    lemma_tasks_are_tidy(t, below, root, n, Set::full());
    assert forall|q: P, i: int, x: P|
        s.read.contains(q) && #[trigger] folder_at(t, q, i, x) implies s.read.contains(x) by {
        assert(task_at(t, q, i, IgnoredTask::Read(x)));
        assert(comes_from(t, s.read, IgnoredTask::Read(x)));
    }
    assert(is_closed(t, root, s.read));
    assert forall|q: P| #[trigger] s.read.contains(q) implies is_reachable(t, root, q) by {
        assert forall|folders: Set<P>| #[trigger]
            is_closed(t, root, folders) implies folders.contains(q) by {
            lemma_tasks_are_tidy(t, below, root, n, folders);
        }
    }
    assert forall|x: P| is_accounted(t, below, s.read, x) implies #[trigger] s.listed.contains(
        x,
    ) by {
        let task = choose|task: IgnoredTask<P>| #[trigger]
            comes_from(t, s.read, task) && listed_by(below, task).contains(x);
        assert(is_finished(below, s, task));
    }
}

proof fn lemma_below_goes_on<P>(t: Tree<P>, top: P, q: P, i: int, x: P)
    requires
        lies_below(t, top, q),
        any_folder_at(t, q, i, x),
    ensures
        lies_below(t, top, x),
{
    assert forall|folders: Set<P>| #[trigger]
        is_downward(t, top, folders) implies folders.contains(x) by {
        assert(folders.contains(q));
    }
}

proof fn lemma_parent<P>(t: Tree<P>, top: P, x: P)
    requires
        lies_below(t, top, x),
        x != top,
    ensures
        exists|q: P, i: int| lies_below(t, top, q) && #[trigger] any_folder_at(t, q, i, x),
{
    let folders = Set::new(
        |z: P|
            z == top || exists|q: P, i: int|
                lies_below(t, top, q) && #[trigger] any_folder_at(t, q, i, z),
    );
    assert forall|q: P, i: int, z: P|
        folders.contains(q) && #[trigger] any_folder_at(t, q, i, z) implies folders.contains(z) by {
        if q != top {
            let (p, j) = choose|p: P, j: int|
                lies_below(t, top, p) && #[trigger] any_folder_at(t, p, j, q);
            lemma_below_goes_on(t, top, p, j, q);
        }
        assert(lies_below(t, top, q));
    }
    assert(is_downward(t, top, folders));
}

/// Nothing below a folder that is not searched can be reached.
proof fn lemma_nothing_below_is_reached<P>(t: Tree<P>, root: P, q: P, i: int, top: P, x: P)
    requires
        is_tree(t, root),
        any_folder_at(t, q, i, top),
        !folder_at(t, q, i, top),
        lies_below(t, top, x),
    ensures
        !is_reachable(t, root, x),
{
    let outside = Set::new(|z: P| !lies_below(t, top, z));
    assert(listed_at(t, q, i, top));
    assert(!lies_below(t, top, root)) by {
        let others = Set::new(|z: P| z != root);
        assert forall|p: P, j: int, z: P| #[trigger] any_folder_at(t, p, j, z) implies z
            != root by {
            assert(listed_at(t, p, j, z));
        }
        assert(is_downward(t, top, others));
    }
    assert forall|p: P, j: int, z: P|
        outside.contains(p) && #[trigger] folder_at(t, p, j, z) implies outside.contains(z) by {
        assert(listed_at(t, p, j, z));
        if lies_below(t, top, z) {
            if z == top {
                assert(p == q && j == i);
            } else {
                lemma_parent(t, top, z);
                let (o, k) = choose|o: P, k: int|
                    lies_below(t, top, o) && #[trigger] any_folder_at(t, o, k, z);
                assert(listed_at(t, o, k, z));
                assert(o == p);
            }
        }
    }
    assert(is_closed(t, root, outside));
    assert(!outside.contains(x));
}

/// A folder below the root can be reached, or it lies below a folder that stands in one that can
/// be reached and is not searched itself.
proof fn lemma_reached_or_below<P>(t: Tree<P>, root: P, x: P)
    requires
        lies_below(t, root, x),
        !is_reachable(t, root, x),
    ensures
        exists|q: P, i: int, top: P|
            is_reachable(t, root, q) && #[trigger] any_folder_at(t, q, i, top) && !folder_at(
                t,
                q,
                i,
                top,
            ) && lies_below(t, top, x),
{
    let folders = Set::new(
        |z: P|
            is_reachable(t, root, z) || exists|q: P, i: int, top: P|
                is_reachable(t, root, q) && #[trigger] any_folder_at(t, q, i, top) && !folder_at(
                    t,
                    q,
                    i,
                    top,
                ) && lies_below(t, top, z),
    );
    assert forall|p: P, j: int, z: P|
        folders.contains(p) && #[trigger] any_folder_at(t, p, j, z) implies folders.contains(z) by {
        if is_reachable(t, root, p) {
            if folder_at(t, p, j, z) {
                assert forall|c: Set<P>| #[trigger] is_closed(t, root, c) implies c.contains(z) by {
                    assert(c.contains(p));
                }
            } else {
                assert(lies_below(t, z, z));
            }
        } else {
            let (q, i, top) = choose|q: P, i: int, top: P|
                is_reachable(t, root, q) && #[trigger] any_folder_at(t, q, i, top) && !folder_at(
                    t,
                    q,
                    i,
                    top,
                ) && lies_below(t, top, p);
            lemma_below_goes_on(t, top, p, j, z);
        }
    }
    assert(is_reachable(t, root, root));
    assert(is_downward(t, root, folders));
}

/// Of the media files that lie anywhere below a root, each is either taken by the search for files
/// of the catalog or listed by the search for ignored files, and never both.
pub proof fn media_is_indexed_or_listed<P>(
    t: Tree<P>,
    root: P,
    text: Seq<char>,
    steps: Seq<WalkStep<P>>,
    below: spec_fn(P) -> Seq<P>,
    n: nat,
    folder: P,
    i: int,
    file: Found<P>,
)
    requires
        is_tree(t, root),
        is_search(t, root, text, None, steps),
        forall|top: P| lists_below(t, top, #[trigger] below(top)),
        after_tasks(t, below, root, n).tasks.len() == 0,
        lies_below(t, root, folder),
        any_file_at(t, folder, i, file),
        media_type(opt_view(file.parts.extension)) is Some,
    ensures
        files_after(t, root, text, None, steps).contains(file) != after_tasks(
            t,
            below,
            root,
            n,
        ).listed.contains(file.path),
{
    let files = files_after(t, root, text, None, steps);
    let s = after_tasks(t, below, root, n);
    search_finds_every_file(t, root, text, steps);
    lemma_sweep_is_over(t, below, root, n);
    cleanup_lists_what_indexing_leaves_out(file.parts);
    assert(listed_at(t, folder, i, file.path));
    if files.contains(file) {
        let (q, j) = choose|q: P, j: int|
            is_reachable(t, root, q) && #[trigger] file_at(t, q, j, file);
        assert(listed_at(t, q, j, file.path));
        assert(q == folder && j == i);
    }
    let entry = entries_of(t, folder)[i];
    if is_reachable(t, root, folder) {
        match task_of(entry) {
            Some(task) => {
                assert(task_at(t, folder, i, task));
                assert(comes_from(t, s.read, task));
                assert(listed_by(below, task)[0] == file.path);
                assert(is_accounted(t, below, s.read, file.path));
            },
            None => {
                assert(file_at(t, folder, i, file));
                if s.listed.contains(file.path) {
                    let task = choose|task: IgnoredTask<P>| #[trigger]
                        comes_from(t, s.read, task) && listed_by(below, task).contains(file.path);
                    let (q, j) = choose|q: P, j: int|
                        s.read.contains(q) && #[trigger] task_at(t, q, j, task);
                    match task {
                        IgnoredTask::List(p, _) => {
                            assert(listed_at(t, q, j, p));
                            assert(q == folder && j == i);
                        },
                        IgnoredTask::ListBelow(top) => {
                            assert(any_folder_at(t, q, j, top));
                            assert(!folder_at(t, q, j, top));
                            assert(lists_below(t, top, below(top)));
                            let (o, k, f) = choose|o: P, k: int, f: Found<P>|
                                lies_below(t, top, o) && #[trigger] any_file_at(t, o, k, f)
                                    && f.path == file.path;
                            assert(listed_at(t, o, k, file.path));
                            assert(o == folder);
                            lemma_nothing_below_is_reached(t, root, q, j, top, folder);
                        },
                        IgnoredTask::Read(_) => {},
                    }
                }
            },
        }
    } else {
        lemma_reached_or_below(t, root, folder);
        let (q, j, top) = choose|q: P, j: int, top: P|
            is_reachable(t, root, q) && #[trigger] any_folder_at(t, q, j, top) && !folder_at(
                t,
                q,
                j,
                top,
            ) && lies_below(t, top, folder);
        let task = IgnoredTask::ListBelow(top);
        assert(task_at(t, q, j, task));
        assert(s.read.contains(q));
        assert(comes_from(t, s.read, task));
        assert(lists_below(t, top, below(top)));
        assert(below(top).contains(file.path));
        assert(is_accounted(t, below, s.read, file.path));
    }
}

/// No file that the search for files of the catalog takes is listed as an ignored one.
pub proof fn no_indexed_file_is_listed<P>(
    t: Tree<P>,
    root: P,
    text: Seq<char>,
    steps: Seq<WalkStep<P>>,
    below: spec_fn(P) -> Seq<P>,
    n: nat,
    file: Found<P>,
)
    requires
        is_tree(t, root),
        is_search(t, root, text, None, steps),
        forall|top: P| lists_below(t, top, #[trigger] below(top)),
        after_tasks(t, below, root, n).tasks.len() == 0,
        files_after(t, root, text, None, steps).contains(file),
    ensures
        !after_tasks(t, below, root, n).listed.contains(file.path),
{
    search_finds_every_file(t, root, text, steps);
    let (q, i) = choose|q: P, i: int| is_reachable(t, root, q) && #[trigger] file_at(t, q, i, file);
    assert(lies_below(t, root, q)) by {
        assert forall|folders: Set<P>| #[trigger]
            is_downward(t, root, folders) implies folders.contains(q) by {
            assert forall|p: P, j: int, z: P|
                folders.contains(p) && #[trigger] folder_at(t, p, j, z) implies folders.contains(
                z,
            ) by {
                assert(any_folder_at(t, p, j, z));
            }
            assert(is_closed(t, root, folders));
        }
    }
    assert(any_file_at(t, q, i, file));
    media_is_indexed_or_listed(t, root, text, steps, below, n, q, i, file);
}

} // verus!
