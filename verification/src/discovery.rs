//! The search for media files below a root folder, one folder at a time.

use std::collections::VecDeque;

use vstd::prelude::*;

use crate::cleanup::{ignored_action, EntryKind, IgnoredAction};
use crate::paths::{
    excluded_path, facetile, is_excluded_path, is_facetile_image_path, media_type,
    media_type_for_ext, opt_str, opt_view, texts_view, PathParts,
};
use crate::text;

verus! {

/// Whether a file belongs to the catalog: its path is not excluded, it is an image or a video,
/// and it is no face tile.
pub open spec fn indexable(parts: PathParts) -> bool {
    !excluded_path(parts) && media_type(opt_view(parts.extension)) is Some && !facetile(parts)
}

/// See [`indexable`].
pub fn is_indexable(parts: &PathParts) -> (yes: bool)
    ensures
        yes == indexable(*parts),
{
    if is_excluded_path(parts) {
        return false;
    }
    media_type_for_ext(opt_str(&parts.extension)).is_some() && !is_facetile_image_path(parts)
}

/// A path that was come across, with its parts.
pub struct Found<P> {
    pub path: P,
    pub parts: PathParts,
}

/// An entry of a folder.
pub enum Listed<P> {
    /// An entry that could not be read, with the message.
    Unreadable(String),
    /// An entry whose kind is not known.
    Unknown,
    /// An entry of a known kind.
    Entry(Found<P>, EntryKind),
}

/// A search for files that is under way.
pub struct Discovery<P> {
    root: String,
    limit: Option<usize>,
    queue: VecDeque<P>,
    files: Vec<Found<P>>,
    errors: Vec<String>,
    active: usize,
    found: usize,
}

/// What a [`Discovery`] stands for.
pub struct DiscoveryView<P> {
    /// The root folder as text.
    pub root: Seq<char>,
    /// The number of files at which the search ends.
    pub limit: Option<usize>,
    /// The folders that are still to be read.
    pub queue: Seq<P>,
    /// The files that were taken.
    pub files: Seq<Found<P>>,
    pub errors: Seq<Seq<char>>,
    /// How many folders are being read.
    pub active: nat,
    /// How many files were come across.
    pub found: nat,
}

impl<P> View for Discovery<P> {
    type V = DiscoveryView<P>;

    closed spec fn view(&self) -> DiscoveryView<P> {
        DiscoveryView {
            root: self.root@,
            limit: self.limit,
            queue: self.queue@,
            files: self.files@,
            errors: texts_view(self.errors@),
            active: self.active as nat,
            found: self.found as nat,
        }
    }
}

/// Whether the search has come across as many files as it may take.
pub open spec fn limit_reached<P>(d: DiscoveryView<P>) -> bool {
    d.limit matches Some(l) && d.found >= l
}

/// A search that has yet to read its root.
pub open spec fn started<P>(root: P, text: Seq<char>, limit: Option<usize>) -> DiscoveryView<P> {
    DiscoveryView {
        root: text,
        limit,
        queue: seq![root],
        files: Seq::empty(),
        errors: Seq::empty(),
        active: 0,
        found: 0,
    }
}

/// A search of which a worker reads the first folder in the queue.
pub open spec fn after_start<P>(d: DiscoveryView<P>) -> DiscoveryView<P> {
    DiscoveryView { queue: d.queue.drop_first(), active: d.active + 1, ..d }
}

/// A search after one entry of a folder, and whether the rest of the folder is passed over.
pub open spec fn after_entry<P>(d: DiscoveryView<P>, e: Listed<P>) -> (DiscoveryView<P>, bool) {
    match e {
        Listed::Unreadable(message) => (
            DiscoveryView {
                errors: d.errors.push("walk error under "@ + d.root + ": "@ + message@),
                ..d
            },
            false,
        ),
        Listed::Unknown => (d, false),
        Listed::Entry(f, kind) => if excluded_path(f.parts) {
            (d, false)
        } else if kind == EntryKind::Directory {
            (DiscoveryView { queue: d.queue.push(f.path), ..d }, false)
        } else if kind == EntryKind::File && indexable(f.parts) {
            if limit_reached(d) {
                (DiscoveryView { found: d.found + 1, ..d }, true)
            } else {
                (DiscoveryView { found: d.found + 1, files: d.files.push(f), ..d }, false)
            }
        } else {
            (d, false)
        },
    }
}

/// A search after the first `n` entries of a folder, and whether the rest is passed over.
pub open spec fn after_entries<P>(d: DiscoveryView<P>, entries: Seq<Listed<P>>, n: nat) -> (
    DiscoveryView<P>,
    bool,
)
    decreases n,
{
    if n == 0 {
        (d, false)
    } else {
        let before = after_entries(d, entries, (n - 1) as nat);
        if before.1 {
            before
        } else {
            after_entry(before.0, entries[n - 1])
        }
    }
}

/// A search after a folder was read, or could not be.
pub open spec fn after_folder<P>(
    d: DiscoveryView<P>,
    folder: Seq<char>,
    listing: Result<Vec<Listed<P>>, String>,
) -> DiscoveryView<P> {
    let read = match listing {
        Ok(entries) => after_entries(d, entries@, entries@.len()).0,
        Err(e) => DiscoveryView {
            errors: d.errors.push(
                "walk error reading "@ + folder + " under "@ + d.root + ": "@ + e@,
            ),
            ..d
        },
    };
    DiscoveryView { active: (read.active - 1) as nat, ..read }
}

/// What a worker does next.
pub enum DiscoveryStep<P> {
    /// Read a folder.
    Read(P),
    /// Wait: folders that are being read may bring more.
    Wait,
    /// Stop.
    Stop,
}

proof fn lemma_after_entries<P>(d: DiscoveryView<P>, entries: Seq<Listed<P>>, n: nat)
    requires
        n <= entries.len(),
    ensures
        after_entries(d, entries, n).0.root == d.root,
        after_entries(d, entries, n).0.limit == d.limit,
        after_entries(d, entries, n).0.active == d.active,
        d.found <= after_entries(d, entries, n).0.found <= d.found + n,
    decreases n,
{
    if n > 0 {
        lemma_after_entries(d, entries, (n - 1) as nat);
    }
}

impl<P> Discovery<P> {
    /// Starts a search below a root, which is the first folder to read. See [`started`].
    pub fn new(root: P, text: String, limit: Option<usize>) -> (d: Self)
        ensures
            d@ == started(root, text@, limit),
    {
        let mut queue: VecDeque<P> = VecDeque::new();
        queue.push_back(root);
        let d = Discovery {
            root: text,
            limit,
            queue,
            files: Vec::new(),
            errors: Vec::new(),
            active: 0,
            found: 0,
        };
        assert(d@.queue =~= seq![root]);
        assert(d@.errors =~= Seq::empty());
        d
    }

    fn is_limit_reached(&self) -> (yes: bool)
        ensures
            yes == limit_reached(self@),
    {
        match self.limit {
            Some(l) => self.found >= l,
            None => false,
        }
    }

    /// Hands a worker its next step: the search stops once it came across as many files as it may
    /// take, or no folder is left and none is being read.
    pub fn next(&mut self) -> (step: DiscoveryStep<P>)
        requires
            old(self)@.active < usize::MAX,
        ensures
            match step {
                DiscoveryStep::Stop => final(self)@ == old(self)@ && (limit_reached(old(self)@) || (
                old(self)@.queue.len() == 0 && old(self)@.active == 0)),
                DiscoveryStep::Wait => final(self)@ == old(self)@ && !limit_reached(old(self)@)
                    && old(self)@.queue.len() == 0 && old(self)@.active > 0,
                DiscoveryStep::Read(p) => !limit_reached(old(self)@) && old(self)@.queue.len() > 0
                    && p == old(self)@.queue[0] && final(self)@ == after_start(old(self)@),
            },
    {
        if self.is_limit_reached() {
            return DiscoveryStep::Stop;
        }
        let ghost before = self.queue@;
        match self.queue.pop_front() {
            Some(p) => {
                self.active = self.active + 1;
                assert(self@.queue =~= before.drop_first());
                DiscoveryStep::Read(p)
            },
            None => if self.active == 0 {
                DiscoveryStep::Stop
            } else {
                DiscoveryStep::Wait
            },
        }
    }

    fn note_error(&mut self, message: String)
        ensures
            final(self)@ == (DiscoveryView {
                errors: old(self)@.errors.push(message@),
                ..old(self)@
            }),
    {
        let ghost before = texts_view(self.errors@);
        let ghost added = message@;
        self.errors.push(message);
        assert(texts_view(self.errors@) =~= before.push(added));
    }

    fn take_entry(&mut self, e: Listed<P>) -> (stop: bool)
        requires
            old(self)@.found < usize::MAX,
        ensures
            (final(self)@, stop) == after_entry(old(self)@, e),
    {
        match e {
            Listed::Unreadable(message) => {
                let mut m = text::concat3("walk error under ", self.root.as_str(), ": ");
                m.append(message.as_str());
                self.note_error(m);
                false
            },
            Listed::Unknown => false,
            Listed::Entry(f, kind) => {
                if is_excluded_path(&f.parts) {
                    return false;
                }
                match kind {
                    EntryKind::Directory => {
                        self.queue.push_back(f.path);
                        false
                    },
                    EntryKind::File => {
                        if !is_indexable(&f.parts) {
                            return false;
                        }
                        let full = self.is_limit_reached();
                        self.found = self.found + 1;
                        if full {
                            true
                        } else {
                            self.files.push(f);
                            false
                        }
                    },
                    EntryKind::Other => false,
                }
            },
        }
    }

    /// Takes what reading a folder gave. See [`after_folder`].
    pub fn take_folder(&mut self, folder: &str, listing: Result<Vec<Listed<P>>, String>)
        requires
            old(self)@.active > 0,
            listing matches Ok(entries) ==> old(self)@.found + entries.len() <= usize::MAX,
        ensures
            final(self)@ == after_folder(old(self)@, folder@, listing),
    {
        let ghost d = self@;
        match listing {
            Ok(entries) => {
                let ghost all = entries@;
                let ghost mut n: nat = 0;
                let mut stopped: bool = false;
                for e in it: entries.into_iter()
                    invariant
                        it.seq() == all,
                        n == it.index(),
                        d.found + all.len() <= usize::MAX,
                        (self@, stopped) == after_entries(d, all, n),
                {
                    proof {
                        lemma_after_entries(d, all, n);
                    }
                    if !stopped {
                        stopped = self.take_entry(e);
                    }
                    proof {
                        n = n + 1;
                    }
                }
                proof {
                    lemma_after_entries(d, all, all.len());
                }
            },
            Err(e) => {
                let mut m = text::concat3("walk error reading ", folder, " under ");
                m.append(self.root.as_str());
                m.append(": ");
                m.append(e.as_str());
                self.note_error(m);
            },
        }
        self.active = self.active - 1;
    }

    /// Notes that a worker died.
    pub fn note_dead_worker(&mut self)
        ensures
            final(self)@ == (DiscoveryView {
                errors: old(self)@.errors.push(
                    "discovery worker thread panicked for root "@ + old(self)@.root,
                ),
                ..old(self)@
            }),
    {
        let m = text::concat2("discovery worker thread panicked for root ", self.root.as_str());
        self.note_error(m);
    }

    /// The files that were taken, and the messages.
    pub fn finish(self) -> (r: (Vec<Found<P>>, Vec<String>))
        ensures
            r.0@ == self@.files,
            texts_view(r.1@) == self@.errors,
    {
        (self.files, self.errors)
    }
}

/// How many of the files that a search came across it may take.
pub open spec fn files_to_take<P>(d: DiscoveryView<P>) -> nat {
    match d.limit {
        Some(l) => if d.found <= l {
            d.found
        } else {
            l as nat
        },
        None => d.found,
    }
}

/// Whether a search holds only files of the catalog, and as many of those it came across as its
/// limit lets it take.
pub open spec fn takes_only_media<P>(d: DiscoveryView<P>) -> bool {
    &&& forall|i: int| 0 <= i < d.files.len() ==> indexable((#[trigger] d.files[i]).parts)
    &&& d.files.len() == files_to_take(d)
}

/// Reading a folder adds only files of the catalog, and the search always holds the smaller of
/// its limit and the number of files that it came across.
pub proof fn folders_bring_only_media<P>(
    d: DiscoveryView<P>,
    folder: Seq<char>,
    listing: Result<Vec<Listed<P>>, String>,
)
    requires
        takes_only_media(d),
    ensures
        takes_only_media(after_folder(d, folder, listing)),
{
    if let Ok(entries) = listing {
        lemma_entries_bring_only_media(d, entries@, entries@.len());
    }
}

proof fn lemma_entries_bring_only_media<P>(d: DiscoveryView<P>, entries: Seq<Listed<P>>, n: nat)
    requires
        takes_only_media(d),
    ensures
        takes_only_media(after_entries(d, entries, n).0),
    decreases n,
{
    if n > 0 {
        lemma_entries_bring_only_media(d, entries, (n - 1) as nat);
    }
}

/// A search without a limit misses nothing: of a folder that was read, every file of the catalog
/// is taken, every folder that is not excluded is queued, and nothing that was there is lost.
pub proof fn unlimited_search_misses_nothing<P>(
    d: DiscoveryView<P>,
    entries: Seq<Listed<P>>,
    n: nat,
    i: int,
)
    requires
        d.limit is None,
        n <= entries.len(),
        0 <= i < n,
    ensures
        d.files.is_prefix_of(after_entries(d, entries, n).0.files),
        d.queue.is_prefix_of(after_entries(d, entries, n).0.queue),
        match entries[i] {
            Listed::Entry(f, EntryKind::File) => indexable(f.parts) ==> after_entries(
                d,
                entries,
                n,
            ).0.files.contains(f),
            Listed::Entry(f, EntryKind::Directory) => !excluded_path(f.parts) ==> after_entries(
                d,
                entries,
                n,
            ).0.queue.contains(f.path),
            _ => true,
        },
    decreases n,
{
    let m = (n - 1) as nat;
    let before = after_entries(d, entries, m);
    let after = after_entries(d, entries, n);
    lemma_no_stop(d, entries, m);
    if m == 0 {
        assert(before.0 == d);
    } else {
        unlimited_search_misses_nothing(
            d,
            entries,
            m,
            if i < m {
                i
            } else {
                0
            },
        );
    }
    if i < m {
        match entries[i] {
            Listed::Entry(f, EntryKind::File) => {
                if indexable(f.parts) {
                    let w = choose|w: int|
                        0 <= w < before.0.files.len() && before.0.files[w] == f;
                    assert(after.0.files[w] == f);
                }
            },
            Listed::Entry(f, EntryKind::Directory) => {
                if !excluded_path(f.parts) {
                    let w = choose|w: int|
                        0 <= w < before.0.queue.len() && before.0.queue[w] == f.path;
                    assert(after.0.queue[w] == f.path);
                }
            },
            _ => {},
        }
    } else {
        match entries[i] {
            Listed::Entry(f, EntryKind::File) => {
                if indexable(f.parts) {
                    assert(after.0.files.last() == f);
                }
            },
            Listed::Entry(f, EntryKind::Directory) => {
                if !excluded_path(f.parts) {
                    assert(after.0.queue.last() == f.path);
                }
            },
            _ => {},
        }
    }
}

proof fn lemma_no_stop<P>(d: DiscoveryView<P>, entries: Seq<Listed<P>>, n: nat)
    requires
        d.limit is None,
    ensures
        !after_entries(d, entries, n).1,
        after_entries(d, entries, n).0.limit is None,
    decreases n,
{
    if n > 0 {
        lemma_no_stop(d, entries, (n - 1) as nat);
    }
}

/// A file of the catalog is never listed for cleanup as an ignored one; a media file that is not
/// in the catalog always is.
pub proof fn cleanup_lists_what_indexing_leaves_out(parts: PathParts)
    ensures
        indexable(parts) ==> ignored_action(parts, EntryKind::File) == IgnoredAction::Skip,
        media_type(opt_view(parts.extension)) is Some && !indexable(parts) ==> ignored_action(
            parts,
            EntryKind::File,
        ) != IgnoredAction::Skip,
{
}

/// A search ends at its limit exactly where it has one and came across that many files; it starts at
/// the root with nothing found; and a folder that is begun leaves the queue and is being read.
pub proof fn search_starts_at_the_root<P>(
    d: DiscoveryView<P>,
    root: P,
    text: Seq<char>,
    limit: Option<usize>,
)
    ensures
        limit_reached(d) <==> d.limit is Some && d.limit->0 <= d.found,
        ({
            let s = started(root, text, limit);
            &&& s.root == text && s.limit == limit
            &&& s.queue.len() == 1 && s.queue[0] == root
            &&& s.files.len() == 0 && s.errors.len() == 0 && s.active == 0 && s.found == 0
        }),
        d.queue.len() > 0 ==> {
            let a = after_start(d);
            &&& d.queue == seq![d.queue[0]] + a.queue
            &&& a.active == d.active + 1
            &&& a.files == d.files && a.errors == d.errors && a.found == d.found
            &&& a.root == d.root && a.limit == d.limit
        },
{
    if d.queue.len() > 0 {
        assert(d.queue =~= seq![d.queue[0]] + after_start(d).queue);
    }
}

/// A folder that could not be read is noted with its message and takes nothing; either way it is
/// read no longer.
pub proof fn folder_is_read_or_noted<P>(
    d: DiscoveryView<P>,
    folder: Seq<char>,
    listing: Result<Vec<Listed<P>>, String>,
)
    requires
        d.active > 0,
    ensures
        ({
            let a = after_folder(d, folder, listing);
            &&& a.active == d.active - 1
            &&& a.root == d.root && a.limit == d.limit
            &&& listing is Err ==> a.errors == d.errors.push(
                "walk error reading "@ + folder + " under "@ + d.root + ": "@ + listing->Err_0@,
            ) && a.files == d.files && a.queue == d.queue && a.found == d.found
        }),
{
    if let Ok(entries) = listing {
        lemma_entries_keep_the_rest(d, entries@, entries@.len());
    }
}

proof fn lemma_entries_keep_the_rest<P>(d: DiscoveryView<P>, entries: Seq<Listed<P>>, n: nat)
    ensures
        after_entries(d, entries, n).0.active == d.active,
        after_entries(d, entries, n).0.root == d.root,
        after_entries(d, entries, n).0.limit == d.limit,
    decreases n,
{
    if n > 0 {
        lemma_entries_keep_the_rest(d, entries, (n - 1) as nat);
    }
}

} // verus!
