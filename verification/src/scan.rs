//! The course of a scan: what is counted, which files are taken up once, and what is shown.

use vstd::prelude::*;

use crate::collections::TextSet;
use crate::paths::texts_view;
use crate::text;

verus! {

/// How many results per indexing thread lie between two reports of progress.
pub const PROGRESS_FILES_PER_INDEXING_THREAD: usize = 20;

/// What a scan has done.
pub struct ScanSummary {
    pub scanned_files: usize,
    pub imported_or_updated: usize,
    pub skipped_files: usize,
    pub missing_marked: usize,
    pub errors: Vec<String>,
}

/// A report of progress.
pub struct ScanProgress {
    pub phase: String,
    pub current_path: Option<String>,
    pub scanned_files: usize,
    pub imported_or_updated: usize,
    pub skipped_files: usize,
    pub missing_marked: usize,
    /// The number of errors.
    pub errors: usize,
    pub discovered_files: usize,
    pub total_files: Option<usize>,
    /// How many images the face pass has dealt with.
    pub faces_done: usize,
    /// How many images the face pass has to deal with.
    pub faces_total: Option<usize>,
    pub done: bool,
}

/// What became of a file.
pub enum IndexOutcome {
    /// It was written to the catalog.
    Stored,
    /// Nothing was to be written.
    Skipped,
    /// It could not be indexed, with the message.
    Failed(String),
}

/// Whether a report of progress tells the given state.
pub open spec fn tells(
    p: ScanProgress,
    s: ScanSummary,
    phase: Seq<char>,
    current_path: Option<String>,
    discovered_files: usize,
    total_files: Option<usize>,
    faces_done: usize,
    faces_total: Option<usize>,
    done: bool,
) -> bool {
    &&& p.phase@ == phase
    &&& p.current_path == current_path
    &&& p.scanned_files == s.scanned_files
    &&& p.imported_or_updated == s.imported_or_updated
    &&& p.skipped_files == s.skipped_files
    &&& p.missing_marked == s.missing_marked
    &&& p.errors == s.errors.len()
    &&& p.discovered_files == discovered_files
    &&& p.total_files == total_files
    &&& p.faces_done == faces_done
    &&& p.faces_total == faces_total
    &&& p.done == done
}

/// Whether two summaries count alike.
pub open spec fn same_counts(a: ScanSummary, b: ScanSummary) -> bool {
    &&& a.scanned_files == b.scanned_files
    &&& a.imported_or_updated == b.imported_or_updated
    &&& a.skipped_files == b.skipped_files
    &&& a.missing_marked == b.missing_marked
}

/// The counts of files that a scan has dealt with.
pub struct ScanCounts {
    pub scanned: nat,
    pub imported: nat,
    pub skipped: nat,
}

/// The counts of a summary.
pub open spec fn counts_of(s: ScanSummary) -> ScanCounts {
    ScanCounts {
        scanned: s.scanned_files as nat,
        imported: s.imported_or_updated as nat,
        skipped: s.skipped_files as nat,
    }
}

/// The counts after one more file.
pub open spec fn counted(c: ScanCounts, outcome: IndexOutcome) -> ScanCounts {
    ScanCounts {
        scanned: c.scanned + 1,
        imported: if outcome is Stored {
            c.imported + 1
        } else {
            c.imported
        },
        skipped: if outcome is Skipped {
            c.skipped + 1
        } else {
            c.skipped
        },
    }
}

/// Results are counted alike in whatever order they come in.
pub proof fn results_count_in_any_order(
    c: ScanCounts,
    a: Seq<IndexOutcome>,
    b: Seq<IndexOutcome>,
)
    requires
        a.to_multiset() == b.to_multiset(),
    ensures
        a.fold_left(c, |x: ScanCounts, o: IndexOutcome| counted(x, o)) == b.fold_left(
            c,
            |x: ScanCounts, o: IndexOutcome| counted(x, o),
        ),
{
    vstd::seq_lib::lemma_fold_left_permutation(
        a,
        b,
        |x: ScanCounts, o: IndexOutcome| counted(x, o),
        c,
    );
}

impl ScanSummary {
    /// Nothing done yet.
    pub fn new() -> (s: Self)
        ensures
            s.scanned_files == 0,
            s.imported_or_updated == 0,
            s.skipped_files == 0,
            s.missing_marked == 0,
            s.errors@ == Seq::<String>::empty(),
    {
        ScanSummary {
            scanned_files: 0,
            imported_or_updated: 0,
            skipped_files: 0,
            missing_marked: 0,
            errors: Vec::new(),
        }
    }

    /// A report of progress. See [`tells`].
    pub fn progress(
        &self,
        phase: &str,
        current_path: Option<String>,
        discovered_files: usize,
        total_files: Option<usize>,
        faces_done: usize,
        faces_total: Option<usize>,
        done: bool,
    ) -> (p: ScanProgress)
        ensures
            tells(
                p,
                *self,
                phase@,
                current_path,
                discovered_files,
                total_files,
                faces_done,
                faces_total,
                done,
            ),
    {
        ScanProgress {
            phase: phase.to_string(),
            current_path,
            scanned_files: self.scanned_files,
            imported_or_updated: self.imported_or_updated,
            skipped_files: self.skipped_files,
            missing_marked: self.missing_marked,
            errors: self.errors.len(),
            discovered_files,
            total_files,
            faces_done,
            faces_total,
            done,
        }
    }

    /// Notes messages, in order.
    pub fn note_errors(&mut self, messages: Vec<String>)
        ensures
            same_counts(*final(self), *old(self)),
            final(self).errors@ == old(self).errors@ + messages@,
    {
        let mut messages = messages;
        self.errors.append(&mut messages);
    }

    /// Counts what became of a file. See [`counted`].
    pub fn count(&mut self, outcome: IndexOutcome)
        requires
            old(self).scanned_files < usize::MAX,
            old(self).imported_or_updated < usize::MAX,
            old(self).skipped_files < usize::MAX,
        ensures
            counts_of(*final(self)) == counted(counts_of(*old(self)), outcome),
            final(self).missing_marked == old(self).missing_marked,
            final(self).errors@ == match outcome {
                IndexOutcome::Failed(e) => old(self).errors@.push(e),
                _ => old(self).errors@,
            },
    {
        self.scanned_files = self.scanned_files + 1;
        match outcome {
            IndexOutcome::Stored => {
                self.imported_or_updated = self.imported_or_updated + 1;
            },
            IndexOutcome::Skipped => {
                self.skipped_files = self.skipped_files + 1;
            },
            IndexOutcome::Failed(e) => {
                self.errors.push(e);
            },
        }
    }
}

/// Whether a root can be scanned, and if not, the message of the error and the phase to show.
pub fn root_problem(root: &str, exists: bool, is_dir: bool) -> (problem: Option<(String, String)>)
    ensures
        match problem {
            Some((message, phase)) => if !exists {
                message@ == "scan root does not exist: "@ + root@ && phase@ == "Folder missing"@
            } else {
                !is_dir && message@ == "scan root is not a directory: "@ + root@ && phase@
                    == "Not a directory"@
            },
            None => exists && is_dir,
        },
{
    if !exists {
        Some(
            (text::concat2("scan root does not exist: ", root), "Folder missing".to_string()),
        )
    } else if !is_dir {
        Some(
            (text::concat2("scan root is not a directory: ", root), "Not a directory".to_string()),
        )
    } else {
        None
    }
}

/// The positions among the first `n` keys at which a key stands that is not in `seen` and did not
/// stand before.
pub open spec fn new_positions(keys: Seq<Seq<char>>, seen: Set<Seq<char>>, n: nat) -> Seq<usize>
    decreases n,
{
    if n == 0 {
        Seq::empty()
    } else {
        let rest = new_positions(keys, seen, (n - 1) as nat);
        if seen.contains(keys[n - 1]) || keys.take(n - 1).contains(keys[n - 1]) {
            rest
        } else {
            rest.push((n - 1) as usize)
        }
    }
}

/// The keys that are seen after the first `n` of a list.
pub open spec fn seen_after(keys: Seq<Seq<char>>, seen: Set<Seq<char>>, n: int) -> Set<Seq<char>> {
    seen.union(keys.take(n).to_set())
}

/// The number of different files after a root that brought some new ones.
pub open spec fn total_after(total: Option<usize>, fresh: nat) -> Option<usize> {
    Some(
        (match total {
            Some(n) => n + fresh,
            None => fresh as int,
        }) as usize,
    )
}

/// The files of a scan over all its roots.
pub struct ScanFiles {
    /// The keys of the files that were taken up.
    pub seen: TextSet,
    /// How many files the roots brought, repeated ones too.
    pub discovered_files: usize,
    /// How many different files there are, once a root was searched.
    pub total_files: Option<usize>,
}

impl ScanFiles {
    /// No files yet.
    pub fn new() -> (f: Self)
        ensures
            f.seen@ == Set::<Seq<char>>::empty(),
            f.discovered_files == 0,
            f.total_files is None,
    {
        ScanFiles { seen: TextSet::new(), discovered_files: 0, total_files: None }
    }

    /// Takes up the files of a root, each by a key that equal paths share. Gives the positions of
    /// the files that were not taken up before.
    pub fn add_root(&mut self, keys: &Vec<String>) -> (fresh: Vec<usize>)
        requires
            old(self).discovered_files + keys.len() <= usize::MAX,
            old(self).total_files matches Some(n) ==> n + keys.len() <= usize::MAX,
        ensures
            fresh@ == new_positions(texts_view(keys@), old(self).seen@, keys@.len()),
            final(self).seen@ == seen_after(
                texts_view(keys@),
                old(self).seen@,
                keys@.len() as int,
            ),
            final(self).discovered_files == old(self).discovered_files + keys.len(),
            final(self).total_files == total_after(old(self).total_files, fresh@.len()),
    {
        let ghost view = texts_view(keys@);
        let ghost seen = self.seen@;
        let mut fresh: Vec<usize> = Vec::new();
        let mut i: usize = 0;
        assert(seen_after(view, seen, 0) =~= seen) by {
            assert(view.take(0) =~= Seq::empty());
        }
        while i < keys.len()
            invariant
                i <= keys.len(),
                view == texts_view(keys@),
                fresh.len() <= i,
                fresh@ == new_positions(view, seen, i as nat),
                self.seen@ == seen_after(view, seen, i as int),
                self.discovered_files == old(self).discovered_files,
                self.total_files == old(self).total_files,
            decreases keys.len() - i,
        {
            assert(view[i as int] == keys[i as int]@);
            let ghost before = self.seen@;
            assert(before.contains(view[i as int]) == (seen.contains(view[i as int]) || view.take(
                i as int,
            ).contains(view[i as int])));
            if self.seen.insert(keys[i].clone()) {
                fresh.push(i);
            }
            i = i + 1;
            proof {
                let t = view.take(i as int);
                let shorter = view.take(i - 1);
                assert(t =~= shorter.push(view[i - 1]));
                assert(seen_after(view, seen, i as int) =~= before.insert(view[i - 1])) by {
                    assert forall|k: Seq<char>|
                        #![auto]
                        seen_after(view, seen, i as int).contains(k) == before.insert(
                            view[i - 1],
                        ).contains(k) by {
                        if shorter.contains(k) {
                            let w = choose|w: int| 0 <= w < shorter.len() && shorter[w] == k;
                            assert(t[w] == k);
                        }
                        if k == view[i - 1] {
                            assert(t[i - 1] == k);
                        }
                        if t.contains(k) {
                            let w = choose|w: int| 0 <= w < t.len() && t[w] == k;
                            if w < i - 1 {
                                assert(shorter[w] == k);
                            }
                        }
                    }
                }
            }
        }
        self.discovered_files = self.discovered_files + keys.len();
        self.total_files = Some(
            match self.total_files {
                Some(n) => n + fresh.len(),
                None => fresh.len(),
            },
        );
        fresh
    }
}

/// Every file is taken up once: a position is given only for a key that was not seen, no two
/// positions hold the same key, and every key that is seen in the end was seen before or is at a
/// position that is given.
pub proof fn files_are_taken_up_once(keys: Seq<Seq<char>>, seen: Set<Seq<char>>, n: nat)
    requires
        n <= keys.len(),
        keys.len() <= usize::MAX,
    ensures
        forall|i: int|
            0 <= i < new_positions(keys, seen, n).len() ==> (#[trigger] new_positions(
                keys,
                seen,
                n,
            )[i]) < n && !seen.contains(keys[new_positions(keys, seen, n)[i] as int]),
        forall|i: int, j: int|
            0 <= i < j < new_positions(keys, seen, n).len() ==> keys[#[trigger] new_positions(
                keys,
                seen,
                n,
            )[i] as int] != keys[#[trigger] new_positions(keys, seen, n)[j] as int],
        forall|k: int|
            0 <= k < n ==> seen.contains(#[trigger] keys[k]) || exists|i: int|
                0 <= i < new_positions(keys, seen, n).len() && keys[#[trigger] new_positions(
                    keys,
                    seen,
                    n,
                )[i] as int] == keys[k],
    decreases n,
{
    if n > 0 {
        let m = (n - 1) as nat;
        files_are_taken_up_once(keys, seen, m);
        let before = new_positions(keys, seen, m);
        let after = new_positions(keys, seen, n);
        let key = keys[m as int];
        if seen.contains(key) {
        } else if keys.take(m as int).contains(key) {
            let earlier = keys.take(m as int);
            let w = choose|w: int| 0 <= w < earlier.len() && earlier[w] == key;
            assert(keys[w] == key);
        } else {
            assert forall|i: int| 0 <= i < before.len() implies keys[#[trigger] before[i] as int]
                != key by {
                let p = before[i] as int;
                assert(keys.take(m as int)[p] == keys[p]);
            }
            assert(after[before.len() as int] == m);
            assert forall|k: int| 0 <= k < n implies seen.contains(#[trigger] keys[k]) || exists|
                i: int,
            |
                0 <= i < after.len() && keys[#[trigger] after[i] as int] == keys[k] by {
                if k < m && !seen.contains(keys[k]) {
                    let i = choose|i: int|
                        0 <= i < before.len() && keys[#[trigger] before[i] as int] == keys[k];
                    assert(after[i] == before[i]);
                }
            }
        }
    }
}

/// A root whose files are all taken up already brings none: no position is given, the files that
/// are seen stay the same, and so does the number of different files.
pub proof fn covered_root_brings_nothing(
    keys: Seq<Seq<char>>,
    seen: Set<Seq<char>>,
    total: Option<usize>,
)
    requires
        forall|i: int| 0 <= i < keys.len() ==> seen.contains(#[trigger] keys[i]),
    ensures
        new_positions(keys, seen, keys.len()) == Seq::<usize>::empty(),
        seen_after(keys, seen, keys.len() as int) == seen,
        total is Some ==> total_after(total, new_positions(keys, seen, keys.len()).len()) == total,
{
    lemma_no_new_positions(keys, seen, keys.len());
    let after = seen_after(keys, seen, keys.len() as int);
    assert(keys.take(keys.len() as int) =~= keys);
    assert(after =~= seen);
}

proof fn lemma_no_new_positions(keys: Seq<Seq<char>>, seen: Set<Seq<char>>, n: nat)
    requires
        n <= keys.len(),
        forall|i: int| 0 <= i < keys.len() ==> seen.contains(#[trigger] keys[i]),
    ensures
        new_positions(keys, seen, n) == Seq::<usize>::empty(),
    decreases n,
{
    if n > 0 {
        lemma_no_new_positions(keys, seen, (n - 1) as nat);
    }
}

/// The number of results between two reports of progress.
pub fn progress_interval(indexing_threads: usize) -> (n: usize)
    requires
        indexing_threads <= usize::MAX / 20,
    ensures
        n == 20 * (if indexing_threads < 1 {
            1
        } else {
            indexing_threads as int
        }),
        n > 0,
{
    let threads: usize = if indexing_threads < 1 {
        1
    } else {
        indexing_threads
    };
    PROGRESS_FILES_PER_INDEXING_THREAD * threads
}

/// Whether progress is shown after a result.
pub open spec fn shows_result(results: int, interval: int) -> bool {
    results % interval == 0
}

/// Whether progress is shown once more when all results are in.
pub open spec fn shows_rest(results: int, interval: int) -> bool {
    results > 0 && results % interval != 0
}

/// See [`shows_result`].
pub fn progress_after_result(results: usize, interval: usize) -> (shown: bool)
    requires
        interval > 0,
    ensures
        shown == shows_result(results as int, interval as int),
{
    results % interval == 0
}

/// See [`shows_rest`].
pub fn progress_at_end(results: usize, interval: usize) -> (shown: bool)
    requires
        interval > 0,
    ensures
        shown == shows_rest(results as int, interval as int),
{
    results > 0 && results % interval != 0
}

/// The last result of a root is always shown, and shown once.
pub proof fn last_result_is_shown_once(results: int, interval: int)
    requires
        results > 0,
        interval > 0,
    ensures
        shows_result(results, interval) != shows_rest(results, interval),
{
}

/// The phase in which a root is searched.
pub fn discovery_phase(discovery_threads: usize, indexing_threads: usize) -> (phase: String)
    ensures
        phase@ == "Discovering files ("@ + text::decimal(discovery_threads as nat)
            + " discovery threads; "@ + text::decimal(indexing_threads as nat)
            + " indexing threads)"@,
{
    let discovery = text::to_decimal(discovery_threads as u128);
    let indexing = text::to_decimal(indexing_threads as u128);
    let mut out = text::concat3("Discovering files (", discovery.as_str(), " discovery threads; ");
    out.append(indexing.as_str());
    out.append(" indexing threads)");
    out
}

/// The phase in which a root's files are about to be indexed.
pub fn indexing_phase(indexing_threads: usize, discovery_threads: usize) -> (phase: String)
    ensures
        phase@ == "Indexing metadata ("@ + text::decimal(indexing_threads as nat)
            + " indexing threads; discovery used "@ + text::decimal(discovery_threads as nat)
            + ")"@,
{
    let discovery = text::to_decimal(discovery_threads as u128);
    let indexing = text::to_decimal(indexing_threads as u128);
    let mut out = text::concat3(
        "Indexing metadata (",
        indexing.as_str(),
        " indexing threads; discovery used ",
    );
    out.append(discovery.as_str());
    out.append(")");
    out
}

/// The phase in which face batches are about to be handed to workers.
pub fn face_start_phase(workers: usize) -> (phase: String)
    ensures
        phase@ == "Face embeddings — "@ + text::decimal(workers as nat) + " parallel workers"@,
{
    let n = text::to_decimal(workers as u128);
    text::concat3("Face embeddings — ", n.as_str(), " parallel workers")
}

/// The phase in which face batches come back from workers.
pub fn face_batch_phase(workers: usize) -> (phase: String)
    ensures
        phase@ == "Face embeddings ("@ + text::decimal(workers as nat) + " workers)"@,
{
    let n = text::to_decimal(workers as u128);
    text::concat3("Face embeddings (", n.as_str(), " workers)")
}

/// The message for an indexing worker that died.
pub fn dead_indexer_message(root: &str) -> (message: String)
    ensures
        message@ == "indexing worker thread panicked for root "@ + root@,
{
    text::concat2("indexing worker thread panicked for root ", root)
}

/// The ids among the first `n` rows whose file is gone.
pub open spec fn missing_ids(rows: Seq<(i64, bool)>, n: nat) -> Seq<i64>
    decreases n,
{
    if n == 0 {
        Seq::empty()
    } else {
        let rest = missing_ids(rows, (n - 1) as nat);
        if rows[n - 1].1 {
            rest
        } else {
            rest.push(rows[n - 1].0)
        }
    }
}

/// The ids of the catalog rows to mark as missing, by whether each row's file exists.
pub fn rows_to_mark_missing(rows: &Vec<(i64, bool)>) -> (ids: Vec<i64>)
    ensures
        ids@ == missing_ids(rows@, rows@.len()),
{
    let mut out: Vec<i64> = Vec::new();
    let mut i: usize = 0;
    while i < rows.len()
        invariant
            i <= rows.len(),
            out@ == missing_ids(rows@, i as nat),
        decreases rows.len() - i,
    {
        if !rows[i].1 {
            out.push(rows[i].0);
        }
        i = i + 1;
    }
    out
}

/// A row is marked as missing once: of the rows that are not marked, none is to be marked again
/// while the same files exist.
pub proof fn missing_rows_are_marked_once(rows: Seq<(i64, bool)>, later: Seq<(i64, bool)>)
    requires
        forall|i: int|
            0 <= i < later.len() ==> rows.contains(#[trigger] later[i]) && !missing_ids(
                rows,
                rows.len(),
            ).contains(later[i].0),
    ensures
        missing_ids(later, later.len()) == Seq::<i64>::empty(),
{
    assert forall|i: int| 0 <= i < later.len() implies (#[trigger] later[i]).1 by {
        let k = choose|k: int| 0 <= k < rows.len() && rows[k] == later[i];
        lemma_missing_id(rows, rows.len(), k);
    }
    lemma_none_missing(later, later.len());
}

proof fn lemma_missing_id(rows: Seq<(i64, bool)>, n: nat, k: int)
    requires
        0 <= k < n <= rows.len(),
    ensures
        !rows[k].1 ==> missing_ids(rows, n).contains(rows[k].0),
    decreases n,
{
    let rest = missing_ids(rows, (n - 1) as nat);
    let ids = missing_ids(rows, n);
    if !rows[k].1 {
        if k < n - 1 {
            lemma_missing_id(rows, (n - 1) as nat, k);
            let w = choose|w: int| 0 <= w < rest.len() && rest[w] == rows[k].0;
            assert(ids[w] == rows[k].0);
        } else {
            assert(ids.last() == rows[k].0);
        }
    }
}

proof fn lemma_none_missing(rows: Seq<(i64, bool)>, n: nat)
    requires
        n <= rows.len(),
        forall|i: int| 0 <= i < rows.len() ==> (#[trigger] rows[i]).1,
    ensures
        missing_ids(rows, n) == Seq::<i64>::empty(),
    decreases n,
{
    if n > 0 {
        lemma_none_missing(rows, (n - 1) as nat);
    }
}

/// What was seen stays seen, and every key of a root that was searched is seen; nothing else is.
pub proof fn seen_keys_are_those_of_the_roots(
    keys: Seq<Seq<char>>,
    seen: Set<Seq<char>>,
    key: Seq<char>,
)
    ensures
        seen_after(keys, seen, keys.len() as int).contains(key) <==> seen.contains(key) || exists|
            i: int,
        |
            0 <= i < keys.len() && #[trigger] keys[i] == key,
{
    let all = keys.take(keys.len() as int);
    assert(all =~= keys);
    if all.to_set().contains(key) {
        let i = choose|i: int| 0 <= i < all.len() && all[i] == key;
        assert(keys[i] == key);
    }
    if exists|i: int| 0 <= i < keys.len() && #[trigger] keys[i] == key {
        let i = choose|i: int| 0 <= i < keys.len() && #[trigger] keys[i] == key;
        assert(all[i] == key);
        assert(all.contains(key));
    }
}

} // verus!
