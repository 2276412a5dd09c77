//! Whole scans of a disk that does not change.

use vstd::prelude::*;

use crate::indexing::{
    indexed_type, state_of, step_of, FileFacts, IndexStep, MediaFingerprint,
};
use crate::paths::{clean_path, PathParts};
use crate::scan::{
    counted, covered_root_brings_nothing, files_are_taken_up_once, new_positions, seen_after,
    IndexOutcome, ScanCounts,
};

verus! {

/// A file that a scan finds: a key that equal paths share, and the parts of its path.
pub struct ScannedFile {
    pub key: Seq<char>,
    pub parts: PathParts,
}

/// The keys of some files.
pub open spec fn keys_of(files: Seq<ScannedFile>) -> Seq<Seq<char>> {
    files.map_values(|f: ScannedFile| f.key)
}

/// A disk: what it tells of the file at a path, or the message for one of which it tells nothing.
pub struct Disk {
    pub facts: spec_fn(Seq<char>) -> Result<FileFacts, String>,
}

/// What becomes of a file of which the catalog knows the given states.
pub open spec fn outcome_of(
    known: Map<Seq<char>, MediaFingerprint>,
    disk: Disk,
    parts: PathParts,
) -> IndexOutcome {
    match (indexed_type(parts), (disk.facts)(clean_path(parts.text@))) {
        (None, _) => IndexOutcome::Skipped,
        (Some(_), Err(e)) => IndexOutcome::Failed(e),
        (Some(kind), Ok(facts)) => match step_of(parts, kind, facts, known) {
            IndexStep::Write { .. } => IndexOutcome::Stored,
            _ => IndexOutcome::Skipped,
        },
    }
}

/// A scan under way: the keys of the files that were taken up, the states that the catalog holds,
/// and the counts.
pub struct ScanCourse {
    pub seen: Set<Seq<char>>,
    pub catalog: Map<Seq<char>, MediaFingerprint>,
    pub counts: ScanCounts,
}

/// A scan that has yet to search a root.
pub open spec fn scan_start(known: Map<Seq<char>, MediaFingerprint>) -> ScanCourse {
    ScanCourse {
        seen: Set::empty(),
        catalog: known,
        counts: ScanCounts { scanned: 0, imported: 0, skipped: 0 },
    }
}

/// A scan after a file was indexed. What becomes of the file goes by the states that the catalog
/// held before the scan.
pub open spec fn after_file(
    c: ScanCourse,
    known: Map<Seq<char>, MediaFingerprint>,
    disk: Disk,
    parts: PathParts,
) -> ScanCourse {
    let outcome = outcome_of(known, disk, parts);
    let path = clean_path(parts.text@);
    ScanCourse {
        seen: c.seen,
        catalog: match (disk.facts)(path) {
            Ok(facts) => if outcome is Stored {
                c.catalog.insert(path, state_of(facts))
            } else {
                c.catalog
            },
            Err(_) => c.catalog,
        },
        counts: counted(c.counts, outcome),
    }
}

/// A scan after the files at the first `n` of some positions were indexed.
pub open spec fn after_files(
    c: ScanCourse,
    known: Map<Seq<char>, MediaFingerprint>,
    disk: Disk,
    files: Seq<ScannedFile>,
    positions: Seq<usize>,
    n: nat,
) -> ScanCourse
    decreases n,
{
    if n == 0 {
        c
    } else {
        after_file(
            after_files(c, known, disk, files, positions, (n - 1) as nat),
            known,
            disk,
            files[positions[n - 1] as int].parts,
        )
    }
}

/// The positions of the files of a root that were not taken up before.
pub open spec fn fresh_of(c: ScanCourse, files: Seq<ScannedFile>) -> Seq<usize> {
    new_positions(keys_of(files), c.seen, files.len())
}

/// A scan after the files of a root were taken up and indexed.
pub open spec fn after_root(
    c: ScanCourse,
    known: Map<Seq<char>, MediaFingerprint>,
    disk: Disk,
    files: Seq<ScannedFile>,
) -> ScanCourse {
    let fresh = fresh_of(c, files);
    ScanCourse {
        seen: seen_after(keys_of(files), c.seen, files.len() as int),
        ..after_files(c, known, disk, files, fresh, fresh.len())
    }
}

/// A scan of the first `n` roots, each by the files that the search below it finds.
pub open spec fn after_roots(
    known: Map<Seq<char>, MediaFingerprint>,
    disk: Disk,
    roots: Seq<Seq<ScannedFile>>,
    n: nat,
) -> ScanCourse
    decreases n,
{
    if n == 0 {
        scan_start(known)
    } else {
        after_root(after_roots(known, disk, roots, (n - 1) as nat), known, disk, roots[n - 1])
    }
}

/// A whole scan.
pub open spec fn scanned(
    known: Map<Seq<char>, MediaFingerprint>,
    disk: Disk,
    roots: Seq<Seq<ScannedFile>>,
) -> ScanCourse {
    after_roots(known, disk, roots, roots.len())
}

proof fn lemma_seen(
    known: Map<Seq<char>, MediaFingerprint>,
    disk: Disk,
    roots: Seq<Seq<ScannedFile>>,
    n: nat,
    r: int,
    i: int,
)
    requires
        0 <= r < n <= roots.len(),
        0 <= i < roots[r].len(),
    ensures
        after_roots(known, disk, roots, n).seen.contains(roots[r][i].key),
    decreases n,
{
    let m = (n - 1) as nat;
    let files = roots[m as int];
    let all = keys_of(files).take(files.len() as int);
    assert(all =~= keys_of(files));
    if r < m {
        lemma_seen(known, disk, roots, m, r, i);
    } else {
        assert(all[i] == roots[r][i].key);
        assert(all.to_set().contains(all[i]));
    }
}

proof fn lemma_same_roots(
    known: Map<Seq<char>, MediaFingerprint>,
    disk: Disk,
    a: Seq<Seq<ScannedFile>>,
    b: Seq<Seq<ScannedFile>>,
    n: nat,
)
    requires
        n <= a.len(),
        n <= b.len(),
        a.take(n as int) == b.take(n as int),
    ensures
        after_roots(known, disk, a, n) == after_roots(known, disk, b, n),
    decreases n,
{
    if n > 0 {
        let m = n - 1;
        assert(a.take(m) =~= a.take(n as int).take(m));
        assert(b.take(m) =~= b.take(n as int).take(m));
        lemma_same_roots(known, disk, a, b, m as nat);
        assert(a[m] == a.take(n as int)[m]);
        assert(b[m] == b.take(n as int)[m]);
    }
}

/// Whether a key is that of a file below one of the roots.
pub open spec fn is_found(roots: Seq<Seq<ScannedFile>>, key: Seq<char>) -> bool {
    exists|r: int, j: int|
        0 <= r < roots.len() && 0 <= j < roots[r].len() && #[trigger] roots[r][j].key == key
}

/// A file that is found again is not indexed again: a scan of some roots and of one more, whose
/// files all lie below the others too, counts and writes what the scan of the others does.
pub proof fn files_found_again_change_nothing(
    known: Map<Seq<char>, MediaFingerprint>,
    disk: Disk,
    roots: Seq<Seq<ScannedFile>>,
    more: Seq<ScannedFile>,
)
    requires
        forall|i: int| 0 <= i < more.len() ==> is_found(roots, (#[trigger] more[i]).key),
    ensures
        scanned(known, disk, roots.push(more)) == scanned(known, disk, roots),
{
    let both = roots.push(more);
    let n = roots.len();
    assert(both.take(n as int) =~= roots.take(n as int));
    lemma_same_roots(known, disk, both, roots, n);
    let c = after_roots(known, disk, roots, n);
    let keys = keys_of(more);
    assert forall|i: int| 0 <= i < keys.len() implies c.seen.contains(#[trigger] keys[i]) by {
        let k = more[i].key;
        assert(is_found(roots, k));
        let (r, j) = choose|r: int, j: int|
            0 <= r < roots.len() && 0 <= j < roots[r].len() && #[trigger] roots[r][j].key == k;
        lemma_seen(known, disk, roots, n, r, j);
    }
    covered_root_brings_nothing(keys, c.seen, None);
    assert(fresh_of(c, more) =~= Seq::empty());
    assert(after_root(c, known, disk, more) == c);
    assert(both[n as int] == more);
}

/// Whether two catalogs hold the same state for a path, or both hold none.
pub open spec fn same_at(
    a: Map<Seq<char>, MediaFingerprint>,
    b: Map<Seq<char>, MediaFingerprint>,
    path: Seq<char>,
) -> bool {
    &&& a.contains_key(path) == b.contains_key(path)
    &&& a.contains_key(path) ==> a[path] == b[path]
}

/// A file that was indexed without an error is passed over from then on.
proof fn lemma_file_is_settled(
    c: ScanCourse,
    known: Map<Seq<char>, MediaFingerprint>,
    disk: Disk,
    parts: PathParts,
)
    requires
        !(outcome_of(known, disk, parts) is Failed),
        same_at(c.catalog, known, clean_path(parts.text@)) || outcome_of(
            c.catalog,
            disk,
            parts,
        ) is Skipped,
    ensures
        outcome_of(after_file(c, known, disk, parts).catalog, disk, parts) is Skipped,
{
}

/// What holds of a file in the course of a scan: the catalog holds the state that it held before
/// the scan, or the file is passed over.
proof fn lemma_file_keeps(
    c: ScanCourse,
    known: Map<Seq<char>, MediaFingerprint>,
    disk: Disk,
    other: PathParts,
    parts: PathParts,
)
    requires
        !(outcome_of(known, disk, parts) is Failed),
    ensures
        outcome_of(c.catalog, disk, parts) is Skipped ==> outcome_of(
            after_file(c, known, disk, other).catalog,
            disk,
            parts,
        ) is Skipped,
        same_at(c.catalog, known, clean_path(parts.text@)) ==> same_at(
            after_file(c, known, disk, other).catalog,
            known,
            clean_path(parts.text@),
        ) || outcome_of(after_file(c, known, disk, other).catalog, disk, parts) is Skipped,
{
}

proof fn lemma_files_keep(
    c: ScanCourse,
    known: Map<Seq<char>, MediaFingerprint>,
    disk: Disk,
    files: Seq<ScannedFile>,
    positions: Seq<usize>,
    n: nat,
    parts: PathParts,
)
    requires
        !(outcome_of(known, disk, parts) is Failed),
        same_at(c.catalog, known, clean_path(parts.text@)) || outcome_of(
            c.catalog,
            disk,
            parts,
        ) is Skipped,
    ensures
        outcome_of(c.catalog, disk, parts) is Skipped ==> outcome_of(
            after_files(c, known, disk, files, positions, n).catalog,
            disk,
            parts,
        ) is Skipped,
        same_at(
            after_files(c, known, disk, files, positions, n).catalog,
            known,
            clean_path(parts.text@),
        ) || outcome_of(
            after_files(c, known, disk, files, positions, n).catalog,
            disk,
            parts,
        ) is Skipped,
    decreases n,
{
    if n > 0 {
        let m = (n - 1) as nat;
        lemma_files_keep(c, known, disk, files, positions, m, parts);
        lemma_file_keeps(
            after_files(c, known, disk, files, positions, m),
            known,
            disk,
            files[positions[m as int] as int].parts,
            parts,
        );
    }
}

proof fn lemma_files_are_settled(
    c: ScanCourse,
    known: Map<Seq<char>, MediaFingerprint>,
    disk: Disk,
    files: Seq<ScannedFile>,
    positions: Seq<usize>,
    n: nat,
    k: int,
)
    requires
        0 <= k < n <= positions.len(),
        ({
            let parts = files[positions[k] as int].parts;
            &&& !(outcome_of(known, disk, parts) is Failed)
            &&& same_at(c.catalog, known, clean_path(parts.text@)) || outcome_of(
                c.catalog,
                disk,
                parts,
            ) is Skipped
        }),
    ensures
        outcome_of(
            after_files(c, known, disk, files, positions, n).catalog,
            disk,
            files[positions[k] as int].parts,
        ) is Skipped,
    decreases n,
{
    let m = (n - 1) as nat;
    let parts = files[positions[k] as int].parts;
    let before = after_files(c, known, disk, files, positions, m);
    if k < m {
        lemma_files_are_settled(c, known, disk, files, positions, m, k);
        lemma_file_keeps(before, known, disk, files[positions[m as int] as int].parts, parts);
    } else {
        lemma_files_keep(c, known, disk, files, positions, m, parts);
        lemma_file_is_settled(before, known, disk, parts);
    }
}

proof fn lemma_roots_keep(
    known: Map<Seq<char>, MediaFingerprint>,
    disk: Disk,
    roots: Seq<Seq<ScannedFile>>,
    n: nat,
    parts: PathParts,
)
    requires
        !(outcome_of(known, disk, parts) is Failed),
    ensures
        same_at(
            after_roots(known, disk, roots, n).catalog,
            known,
            clean_path(parts.text@),
        ) || outcome_of(after_roots(known, disk, roots, n).catalog, disk, parts) is Skipped,
    decreases n,
{
    if n > 0 {
        let m = (n - 1) as nat;
        lemma_roots_keep(known, disk, roots, m, parts);
        let c = after_roots(known, disk, roots, m);
        let files = roots[m as int];
        let fresh = fresh_of(c, files);
        lemma_files_keep(c, known, disk, files, fresh, fresh.len(), parts);
    }
}

proof fn lemma_roots_are_settled(
    known: Map<Seq<char>, MediaFingerprint>,
    disk: Disk,
    roots: Seq<Seq<ScannedFile>>,
    n: nat,
    r: int,
    k: int,
)
    requires
        0 <= r < n <= roots.len(),
        0 <= k < fresh_of(after_roots(known, disk, roots, r as nat), roots[r]).len(),
        !(outcome_of(
            known,
            disk,
            roots[r][fresh_of(
                after_roots(known, disk, roots, r as nat),
                roots[r],
            )[k] as int].parts,
        ) is Failed),
    ensures
        outcome_of(
            after_roots(known, disk, roots, n).catalog,
            disk,
            roots[r][fresh_of(after_roots(known, disk, roots, r as nat), roots[r])[k] as int].parts,
        ) is Skipped,
    decreases n,
{
    let m = (n - 1) as nat;
    let c = after_roots(known, disk, roots, m);
    let files = roots[m as int];
    let fresh = fresh_of(c, files);
    let parts =
        roots[r][fresh_of(after_roots(known, disk, roots, r as nat), roots[r])[k] as int].parts;
    if r < m {
        lemma_roots_are_settled(known, disk, roots, m, r, k);
        lemma_files_keep(c, known, disk, files, fresh, fresh.len(), parts);
    } else {
        lemma_roots_keep(known, disk, roots, m, parts);
        lemma_files_are_settled(c, known, disk, files, fresh, fresh.len(), k);
    }
}

proof fn lemma_skipped_files(
    c: ScanCourse,
    known: Map<Seq<char>, MediaFingerprint>,
    disk: Disk,
    files: Seq<ScannedFile>,
    positions: Seq<usize>,
    n: nat,
)
    requires
        n <= positions.len(),
        forall|k: int|
            0 <= k < n ==> outcome_of(
                known,
                disk,
                files[#[trigger] positions[k] as int].parts,
            ) is Skipped,
    ensures
        ({
            let after = after_files(c, known, disk, files, positions, n);
            &&& after.seen == c.seen
            &&& after.catalog == c.catalog
            &&& after.counts.scanned == c.counts.scanned + n
            &&& after.counts.imported == c.counts.imported
            &&& after.counts.skipped == c.counts.skipped + n
        }),
    decreases n,
{
    if n > 0 {
        lemma_skipped_files(c, known, disk, files, positions, (n - 1) as nat);
        assert(outcome_of(known, disk, files[positions[n - 1] as int].parts) is Skipped);
    }
}

proof fn lemma_scanned_files(
    c: ScanCourse,
    known: Map<Seq<char>, MediaFingerprint>,
    disk: Disk,
    files: Seq<ScannedFile>,
    positions: Seq<usize>,
    n: nat,
)
    ensures
        after_files(c, known, disk, files, positions, n).counts.scanned == c.counts.scanned + n,
    decreases n,
{
    if n > 0 {
        lemma_scanned_files(c, known, disk, files, positions, (n - 1) as nat);
    }
}

proof fn lemma_second_scan(
    known: Map<Seq<char>, MediaFingerprint>,
    disk: Disk,
    roots: Seq<Seq<ScannedFile>>,
    later: Map<Seq<char>, MediaFingerprint>,
    n: nat,
)
    requires
        n <= roots.len(),
        forall|r: int| 0 <= r < roots.len() ==> (#[trigger] roots[r]).len() <= usize::MAX,
        forall|r: int, j: int|
            0 <= r < roots.len() && 0 <= j < roots[r].len() ==> !(outcome_of(
                known,
                disk,
                (#[trigger] roots[r][j]).parts,
            ) is Failed) && same_at(
                scanned(known, disk, roots).catalog,
                later,
                clean_path(roots[r][j].parts.text@),
            ),
    ensures
        ({
            let first = after_roots(known, disk, roots, n);
            let second = after_roots(later, disk, roots, n);
            &&& second.seen == first.seen
            &&& second.catalog == later
            &&& second.counts.scanned == first.counts.scanned
            &&& second.counts.imported == 0
            &&& second.counts.skipped == second.counts.scanned
        }),
    decreases n,
{
    if n > 0 {
        let m = (n - 1) as nat;
        lemma_second_scan(known, disk, roots, later, m);
        let first = after_roots(known, disk, roots, m);
        let second = after_roots(later, disk, roots, m);
        let files = roots[m as int];
        let fresh = fresh_of(first, files);
        files_are_taken_up_once(keys_of(files), first.seen, files.len());
        assert forall|k: int| 0 <= k < fresh.len() implies outcome_of(
            later,
            disk,
            files[#[trigger] fresh[k] as int].parts,
        ) is Skipped by {
            let j = fresh[k] as int;
            assert(j < files.len());
            assert(!(outcome_of(known, disk, roots[m as int][j].parts) is Failed));
            lemma_roots_are_settled(known, disk, roots, roots.len(), m as int, k);
        }
        lemma_skipped_files(second, later, disk, files, fresh, fresh.len());
        lemma_scanned_files(first, known, disk, files, fresh, fresh.len());
        lemma_seen_is_kept(first, known, disk, files, fresh, fresh.len());
    }
}

proof fn lemma_seen_is_kept(
    c: ScanCourse,
    known: Map<Seq<char>, MediaFingerprint>,
    disk: Disk,
    files: Seq<ScannedFile>,
    positions: Seq<usize>,
    n: nat,
)
    ensures
        after_files(c, known, disk, files, positions, n).seen == c.seen,
    decreases n,
{
    if n > 0 {
        lemma_seen_is_kept(c, known, disk, files, positions, (n - 1) as nat);
    }
}

/// A second scan of a disk that did not change writes nothing: where no file failed in the first
/// one and the catalog still holds what it wrote of these files, the second scan comes across as
/// many files, skips them all and leaves the catalog as it is.
pub proof fn second_scan_writes_nothing(
    known: Map<Seq<char>, MediaFingerprint>,
    disk: Disk,
    roots: Seq<Seq<ScannedFile>>,
    later: Map<Seq<char>, MediaFingerprint>,
)
    requires
        forall|r: int| 0 <= r < roots.len() ==> (#[trigger] roots[r]).len() <= usize::MAX,
        forall|r: int, j: int|
            0 <= r < roots.len() && 0 <= j < roots[r].len() ==> !(outcome_of(
                known,
                disk,
                (#[trigger] roots[r][j]).parts,
            ) is Failed) && same_at(
                scanned(known, disk, roots).catalog,
                later,
                clean_path(roots[r][j].parts.text@),
            ),
    ensures
        scanned(later, disk, roots).catalog == later,
        scanned(later, disk, roots).counts == (ScanCounts {
            scanned: scanned(known, disk, roots).counts.scanned,
            imported: 0,
            skipped: scanned(known, disk, roots).counts.scanned,
        }),
{
    lemma_second_scan(known, disk, roots, later, roots.len());
}

} // verus!
