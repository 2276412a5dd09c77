//! The search for files that indexing leaves out, folder by folder.

use std::collections::VecDeque;

use vstd::prelude::*;

use crate::cleanup::{
    entries_view, ignored_action, ignored_entry, ignored_entry_action, ignored_reason,
    CleanupEntry, EntryView, IgnoredAction,
};
use crate::discovery::Listed;
use crate::paths::{clean_path, texts_view};
use crate::text;

verus! {

/// A search for ignored files that is under way.
pub struct IgnoredSearch {
    pub entries: Vec<CleanupEntry>,
    pub errors: Vec<String>,
    /// How many folders of the present root were entered.
    pub visited: usize,
}

impl IgnoredSearch {
    /// Nothing found yet.
    pub fn new() -> (s: Self)
        ensures
            s.entries@.len() == 0,
            s.errors@.len() == 0,
            s.visited == 0,
    {
        IgnoredSearch { entries: Vec::new(), errors: Vec::new(), visited: 0 }
    }

    /// Starts on another root.
    pub fn start_root(&mut self)
        ensures
            final(self).entries == old(self).entries,
            final(self).errors == old(self).errors,
            final(self).visited == 0,
    {
        self.visited = 0;
    }

    /// Enters a folder; tells whether progress is shown, which is so at every five hundredth.
    pub fn enter_folder(&mut self) -> (shown: bool)
        requires
            old(self).visited < usize::MAX,
        ensures
            final(self).entries == old(self).entries,
            final(self).errors == old(self).errors,
            final(self).visited == old(self).visited + 1,
            shown == (final(self).visited % 500 == 0),
    {
        self.visited = self.visited + 1;
        self.visited % 500 == 0
    }

    /// Notes a folder that could not be read.
    pub fn note_unreadable(&mut self, folder: &str, e: &str)
        ensures
            final(self).entries == old(self).entries,
            final(self).visited == old(self).visited,
            texts_view(final(self).errors@) == texts_view(old(self).errors@).push(
                "failed to read "@ + folder@ + ": "@ + e@,
            ),
    {
        let mut m = text::concat3("failed to read ", folder, ": ");
        m.append(e);
        let ghost before = texts_view(self.errors@);
        let ghost added = m@;
        self.errors.push(m);
        assert(texts_view(self.errors@) =~= before.push(added));
    }

    /// Lists a file for the reason that an action tells.
    pub fn list(&mut self, path: &str, size_bytes: Option<i64>, action: IgnoredAction)
        requires
            action is ListFile || action is ListBelow || action is ListFaceTile,
        ensures
            final(self).errors == old(self).errors,
            final(self).visited == old(self).visited,
            entries_view(final(self).entries@) == entries_view(old(self).entries@).push(
                (EntryView {
                    path: clean_path(path@),
                    size_bytes,
                    reason: ignored_reason(action),
                }),
            ),
    {
        let e = ignored_entry(path, size_bytes, action);
        let ghost before = entries_view(self.entries@);
        let ghost added = e@;
        self.entries.push(e);
        assert(entries_view(self.entries@) =~= before.push(added));
    }
}

/// Something that the search for ignored files has yet to do.
pub enum IgnoredTask<P> {
    /// Read a folder.
    Read(P),
    /// List a file, for the reason that an action tells.
    List(P, IgnoredAction),
    /// List every file below a folder.
    ListBelow(P),
}

/// What an entry of a folder gives the search to do.
pub open spec fn task_of<P>(e: Listed<P>) -> Option<IgnoredTask<P>> {
    match e {
        Listed::Entry(f, kind) => match ignored_action(f.parts, kind) {
            IgnoredAction::Descend => Some(IgnoredTask::Read(f.path)),
            IgnoredAction::ListFile => Some(IgnoredTask::List(f.path, IgnoredAction::ListFile)),
            IgnoredAction::ListFaceTile => Some(
                IgnoredTask::List(f.path, IgnoredAction::ListFaceTile),
            ),
            IgnoredAction::ListBelow => Some(IgnoredTask::ListBelow(f.path)),
            IgnoredAction::Skip => None,
        },
        _ => None,
    }
}

/// What the entries from `i` on give the search to do, in their order.
pub open spec fn tasks_from<P>(entries: Seq<Listed<P>>, i: nat) -> Seq<IgnoredTask<P>>
    decreases entries.len() - i,
{
    if i >= entries.len() {
        Seq::empty()
    } else {
        match task_of(entries[i as int]) {
            Some(task) => seq![task] + tasks_from(entries, i + 1),
            None => tasks_from(entries, i + 1),
        }
    }
}

fn read_task<P>(e: Listed<P>) -> (task: Option<IgnoredTask<P>>)
    ensures
        task == task_of(e),
{
    match e {
        Listed::Entry(f, kind) => match ignored_entry_action(&f.parts, kind) {
            IgnoredAction::Descend => Some(IgnoredTask::Read(f.path)),
            IgnoredAction::ListFile => Some(IgnoredTask::List(f.path, IgnoredAction::ListFile)),
            IgnoredAction::ListFaceTile => Some(
                IgnoredTask::List(f.path, IgnoredAction::ListFaceTile),
            ),
            IgnoredAction::ListBelow => Some(IgnoredTask::ListBelow(f.path)),
            IgnoredAction::Skip => None,
        },
        _ => None,
    }
}

/// The way of the search for ignored files below a root: what is to be done, in order. A folder is
/// done with, and everything below it, before the entry behind it is.
pub struct IgnoredWalk<P> {
    pub tasks: VecDeque<IgnoredTask<P>>,
}

impl<P> IgnoredWalk<P> {
    /// Starts with the root.
    pub fn new(root: P) -> (w: Self)
        ensures
            w.tasks@ == seq![IgnoredTask::Read(root)],
    {
        let mut tasks: VecDeque<IgnoredTask<P>> = VecDeque::new();
        tasks.push_back(IgnoredTask::Read(root));
        assert(tasks@ =~= seq![IgnoredTask::Read(root)]);
        IgnoredWalk { tasks }
    }

    /// The next thing to do; `None` where everything is done.
    pub fn next(&mut self) -> (task: Option<IgnoredTask<P>>)
        ensures
            match task {
                Some(t) => old(self).tasks@.len() > 0 && t == old(self).tasks@[0]
                    && final(self).tasks@ == old(self).tasks@.drop_first(),
                None => old(self).tasks@.len() == 0 && final(self).tasks@ == old(self).tasks@,
            },
    {
        let ghost before = self.tasks@;
        let task = self.tasks.pop_front();
        proof {
            if task is Some {
                assert(self.tasks@ =~= before.drop_first());
            }
        }
        task
    }

    /// Takes the entries of a folder that was read: what they give to do comes next.
    pub fn take_folder(&mut self, entries: Vec<Listed<P>>)
        ensures
            final(self).tasks@ == tasks_from(entries@, 0) + old(self).tasks@,
    {
        let ghost all = entries@;
        let ghost rest = self.tasks@;
        let mut entries = entries;
        assert(self.tasks@ =~= tasks_from(all, all.len()) + rest);
        while entries.len() > 0
            invariant
                entries@.len() <= all.len(),
                entries@ == all.take(entries@.len() as int),
                self.tasks@ == tasks_from(all, entries@.len()) + rest,
            decreases entries.len(),
        {
            let ghost n = entries@.len();
            assert(entries@[n - 1] == all[n - 1]);
            if let Some(e) = entries.pop() {
                assert(entries@ =~= all.take(n - 1));
                if let Some(task) = read_task(e) {
                    let ghost before = self.tasks@;
                    self.tasks.push_front(task);
                    assert(self.tasks@ =~= tasks_from(all, (n - 1) as nat) + rest);
                }
            }
        }
    }
}

/// Every entry that is to be dealt with is, in order, and no other: a folder that indexing searches
/// is read, a folder that it leaves out is listed with all that is below, and a file is listed where
/// indexing leaves it out.
pub proof fn every_entry_is_dealt_with<P>(entries: Seq<Listed<P>>, i: nat)
    requires
        i <= entries.len(),
    ensures
        i < entries.len() ==> match entries[i as int] {
            Listed::Entry(f, kind) => tasks_from(entries, i) == (match ignored_action(f.parts, kind) {
                IgnoredAction::Descend => seq![IgnoredTask::Read(f.path)],
                IgnoredAction::ListBelow => seq![IgnoredTask::ListBelow(f.path)],
                IgnoredAction::Skip => Seq::empty(),
                action => seq![IgnoredTask::List(f.path, action)],
            }) + tasks_from(entries, i + 1),
            _ => tasks_from(entries, i) == tasks_from(entries, i + 1),
        },
        tasks_from(entries, entries.len()) == Seq::<IgnoredTask<P>>::empty(),
{
    if i < entries.len() {
        let none = Seq::<IgnoredTask<P>>::empty();
        assert(none + tasks_from(entries, i + 1) =~= tasks_from(entries, i + 1));
    }
}

} // verus!
