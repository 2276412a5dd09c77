//! What a cleanup plan adds up to, entry by entry and group by group.

use vstd::prelude::*;

use crate::candidates::{value_or, CandidateView};
use crate::cleanup::{
    after_file, after_folder, all_spare_sizes, emptied_group, empty_folders, entries_view,
    entry_sizes, folder_errors, ignored_action, ignored_reason, is_deepest_first,
    is_file_decision, is_folder_decision, lists_file, only_listed_files_are_approved, path_set,
    plan_totals, planned_files, planned_folders, spare_files, spare_sizes, total, totals_fit,
    with_candidates, with_entries, with_groups, CleanupPlan, EntryKind, EntryView, FileDecision,
    FolderDecision, FolderOutcome, IgnoredAction, InspectedFolder, ResultView,
};
use crate::exact::{groups_view, GroupView};
use crate::paths::{clean_path, excluded_path, facetile, texts_view, PathParts};
use crate::selection::positions;

verus! {

/// The number of bytes that a size counts for; none where it is not known.
pub open spec fn counted_bytes(size: Option<i64>) -> int {
    if size is Some {
        size->0 as int
    } else {
        0
    }
}

/// The bytes of the first `n` files whose path is not the one to keep.
pub open spec fn spare_bytes(c: Seq<CandidateView>, keep: Seq<char>, n: nat) -> int
    decreases n,
{
    if n == 0 {
        0
    } else {
        spare_bytes(c, keep, (n - 1) as nat) + (if c[n - 1].path == keep {
            0
        } else {
            counted_bytes(c[n - 1].size_bytes)
        })
    }
}

proof fn lemma_total_push(s: Seq<i64>, x: i64)
    ensures
        total(s.push(x)) == total(s) + x,
{
    assert(s.push(x).drop_last() =~= s);
}

proof fn lemma_total_join(a: Seq<i64>, b: Seq<i64>)
    ensures
        total(a + b) == total(a) + total(b),
    decreases b.len(),
{
    if b.len() == 0 {
        assert(a + b =~= a);
    } else {
        lemma_total_join(a, b.drop_last());
        assert((a + b).drop_last() =~= a + b.drop_last());
    }
}

proof fn lemma_spare_total(c: Seq<CandidateView>, keep: Seq<char>, n: nat)
    ensures
        total(spare_sizes(c, keep, n)) == spare_bytes(c, keep, n),
    decreases n,
{
    if n > 0 {
        lemma_spare_total(c, keep, (n - 1) as nat);
        lemma_total_push(
            spare_sizes(c, keep, (n - 1) as nat),
            value_or(c[n - 1].size_bytes, 0),
        );
    }
}

/// The spare files of a group are those whose path is not the one to keep, in order, each with its
/// own size.
pub proof fn every_other_file_is_spare(c: Seq<CandidateView>, keep: Seq<char>, n: nat)
    ensures
        ({
            let spare = positions(n, |i: int| c[i].path != keep);
            &&& spare_sizes(c, keep, n).len() == spare.len()
            &&& forall|m: int|
                0 <= m < spare.len() ==> #[trigger] spare_sizes(c, keep, n)[m] == counted_bytes(
                    c[spare[m]].size_bytes,
                )
        }),
    decreases n,
{
    if n > 0 {
        every_other_file_is_spare(c, keep, (n - 1) as nat);
    }
}

proof fn lemma_groups_push(groups: Seq<GroupView>, g: GroupView, n: nat)
    requires
        n <= groups.len(),
    ensures
        all_spare_sizes(groups.push(g), n) == all_spare_sizes(groups, n),
        spare_files(groups.push(g), n) == spare_files(groups, n),
    decreases n,
{
    if n > 0 {
        lemma_groups_push(groups, g, (n - 1) as nat);
        assert(groups.push(g)[n - 1] == groups[n - 1]);
    }
}

/// A plan with nothing in it selects nothing.
pub proof fn empty_plan_selects_nothing()
    ensures
        ({
            let t = plan_totals(Seq::empty(), 0, Seq::empty(), 0);
            &&& t.ignored_files == 0 && t.empty_folders == 0 && t.duplicate_groups == 0
            &&& t.duplicate_files == 0 && t.selected_files == 0 && t.selected_folders == 0
            &&& t.selected_bytes == 0 && t.errors == 0
        }),
{
    assert(entry_sizes(Seq::empty()) =~= Seq::empty());
}

/// One more group counts for one group, for all its files but one, and for the bytes of its files
/// that are not kept; nothing else changes.
pub proof fn group_adds_its_spare_files(
    ignored: Seq<EntryView>,
    folders: nat,
    groups: Seq<GroupView>,
    g: GroupView,
    errors: nat,
)
    requires
        totals_fit(ignored, groups),
        totals_fit(ignored, groups.push(g)),
        groups.len() < usize::MAX,
        g.candidates.len() > 0,
    ensures
        ({
            let before = plan_totals(ignored, folders, groups, errors);
            let after = plan_totals(ignored, folders, groups.push(g), errors);
            &&& after.duplicate_groups == before.duplicate_groups + 1
            &&& after.duplicate_files == before.duplicate_files + g.candidates.len() - 1
            &&& after.selected_files == before.selected_files + g.candidates.len() - 1
            &&& after.selected_bytes == before.selected_bytes + spare_bytes(
                g.candidates,
                g.default_keep_path,
                g.candidates.len(),
            )
            &&& after.ignored_files == before.ignored_files
            &&& after.empty_folders == before.empty_folders
            &&& after.selected_folders == before.selected_folders
            &&& after.errors == before.errors
        }),
{
    let more = groups.push(g);
    lemma_groups_push(groups, g, groups.len());
    assert(more[more.len() - 1] == g);
    let s = spare_sizes(g.candidates, g.default_keep_path, g.candidates.len());
    lemma_total_join(all_spare_sizes(groups, groups.len()), s);
    lemma_spare_total(g.candidates, g.default_keep_path, g.candidates.len());
    lemma_spare_files_not_negative(groups, groups.len());
}

proof fn lemma_spare_files_not_negative(groups: Seq<GroupView>, n: nat)
    ensures
        spare_files(groups, n) >= 0,
    decreases n,
{
    if n > 0 {
        lemma_spare_files_not_negative(groups, (n - 1) as nat);
    }
}

/// One more ignored file counts for one file and for its bytes; nothing else changes.
pub proof fn ignored_file_adds_itself(
    ignored: Seq<EntryView>,
    e: EntryView,
    folders: nat,
    groups: Seq<GroupView>,
    errors: nat,
)
    requires
        totals_fit(ignored, groups),
        totals_fit(ignored.push(e), groups),
    ensures
        ({
            let before = plan_totals(ignored, folders, groups, errors);
            let after = plan_totals(ignored.push(e), folders, groups, errors);
            &&& after.ignored_files == before.ignored_files + 1
            &&& after.selected_files == before.selected_files + 1
            &&& after.selected_bytes == before.selected_bytes + counted_bytes(e.size_bytes)
            &&& after.duplicate_groups == before.duplicate_groups
            &&& after.duplicate_files == before.duplicate_files
            &&& after.empty_folders == before.empty_folders
            &&& after.selected_folders == before.selected_folders
            &&& after.errors == before.errors
        }),
{
    assert(entry_sizes(ignored.push(e)) =~= entry_sizes(ignored).push(value_or(e.size_bytes, 0)));
    lemma_total_push(entry_sizes(ignored), value_or(e.size_bytes, 0));
    lemma_spare_files_not_negative(groups, groups.len());
}

/// The totals tell how many folders and errors there are, and every listed folder is selected.
pub proof fn totals_tell_folders_and_errors(
    ignored: Seq<EntryView>,
    folders: usize,
    groups: Seq<GroupView>,
    errors: usize,
)
    ensures
        ({
            let t = plan_totals(ignored, folders as nat, groups, errors as nat);
            &&& t.empty_folders == folders
            &&& t.selected_folders == folders
            &&& t.errors == errors
            &&& ignored.len() <= usize::MAX ==> t.ignored_files == ignored.len()
            &&& groups.len() <= usize::MAX ==> t.duplicate_groups == groups.len()
        }),
{
}

/// The empty folders that are listed are those that hold nothing, without the root, in order, each
/// by its clean path; the messages are those of the folders that could not be read, without the
/// root, in order.
pub proof fn every_empty_folder_is_listed(dirs: Seq<InspectedFolder>, n: nat)
    ensures
        ({
            let found = positions(
                n,
                |i: int|
                    !dirs[i].is_root && dirs[i].contents is Ok && dirs[i].contents->Ok_0,
            );
            let out = empty_folders(dirs, n);
            &&& out.len() == found.len()
            &&& forall|m: int|
                0 <= m < out.len() ==> (#[trigger] out[m]).path == clean_path(dirs[found[m]].path@)
                    && out[m].size_bytes is None && out[m].reason == "Empty folder"@
        }),
        ({
            let failed = positions(n, |i: int| !dirs[i].is_root && dirs[i].contents is Err);
            let out = folder_errors(dirs, n);
            &&& out.len() == failed.len()
            &&& forall|m: int|
                0 <= m < out.len() ==> #[trigger] out[m] == "failed to inspect "@
                    + dirs[failed[m]].path@ + ": "@ + dirs[failed[m]].contents->Err_0@
        }),
    decreases n,
{
    if n > 0 {
        every_empty_folder_is_listed(dirs, (n - 1) as nat);
    }
}

/// Whether every file of a group is asked to go.
pub open spec fn is_all_asked(g: GroupView, removed: Set<Seq<char>>) -> bool {
    forall|k: int| 0 <= k < g.candidates.len() ==> removed.contains((#[trigger] g.candidates[k]).path)
}

/// A request is held against every group: the one that it is refused for is the first of which all
/// files are asked to go, and it is granted exactly where of each group one file stays.
pub proof fn request_is_held_against_every_group(
    groups: Seq<GroupView>,
    removed: Set<Seq<char>>,
    i: nat,
)
    requires
        i <= groups.len(),
    ensures
        match emptied_group(groups, removed, i) {
            Some(g) => i <= g < groups.len() && is_all_asked(groups[g], removed) && forall|h: int|
                i <= h < g ==> !is_all_asked(#[trigger] groups[h], removed),
            None => forall|h: int|
                i <= h < groups.len() ==> !is_all_asked(#[trigger] groups[h], removed),
        },
    decreases groups.len() - i,
{
    if i < groups.len() {
        let g = groups[i as int];
        request_is_held_against_every_group(groups, removed, i + 1);
        assert(crate::cleanup::takes_all(g, removed) <==> is_all_asked(g, removed)) by {
            if is_all_asked(g, removed) {
                assert forall|k: int| 0 <= k < g.candidates.len() implies removed.contains(
                    #[trigger] g.candidates[k].path,
                ) by {
                    assert(removed.contains(g.candidates[k].path));
                }
            }
            if crate::cleanup::takes_all(g, removed) {
                assert forall|k: int| 0 <= k < g.candidates.len() implies removed.contains(
                    (#[trigger] g.candidates[k]).path,
                ) by {
                    assert(removed.contains(g.candidates[k].path));
                }
            }
        }
    }
}

/// Whether `n` is the size that the last of some files with the path has.
pub open spec fn is_last_size(c: Seq<CandidateView>, path: Seq<char>, n: int) -> bool {
    exists|k: int|
        0 <= k < c.len() && (#[trigger] c[k]).path == path && n == counted_bytes(c[k].size_bytes)
            && forall|j: int| k < j < c.len() ==> (#[trigger] c[j]).path != path
}

/// Whether one of some files has the path.
pub open spec fn is_among(c: Seq<CandidateView>, path: Seq<char>) -> bool {
    exists|k: int| 0 <= k < c.len() && (#[trigger] c[k]).path == path
}

/// Whether `n` is the size that the last of the first groups that list the path gives it.
pub open spec fn is_last_group_size(g: Seq<GroupView>, count: nat, path: Seq<char>, n: int) -> bool {
    exists|i: int|
        0 <= i < count && is_last_size((#[trigger] g[i]).candidates, path, n) && forall|j: int|
            i < j < count ==> !is_among((#[trigger] g[j]).candidates, path)
}

/// Whether one of the first groups lists the path.
pub open spec fn is_in_groups(g: Seq<GroupView>, count: nat, path: Seq<char>) -> bool {
    exists|i: int| 0 <= i < count && is_among((#[trigger] g[i]).candidates, path)
}

proof fn lemma_candidate_size(
    files: Map<Seq<char>, i64>,
    c: Seq<CandidateView>,
    n: nat,
    path: Seq<char>,
)
    requires
        n <= c.len(),
    ensures
        is_among(c.take(n as int), path) ==> with_candidates(files, c, n).contains_key(path)
            && is_last_size(c.take(n as int), path, with_candidates(files, c, n)[path] as int),
        !is_among(c.take(n as int), path) ==> (with_candidates(files, c, n).contains_key(path)
            <==> files.contains_key(path)) && (files.contains_key(path) ==> with_candidates(
            files,
            c,
            n,
        )[path] == files[path]),
    decreases n,
{
    if n > 0 {
        let m = (n - 1) as nat;
        lemma_candidate_size(files, c, m, path);
        let before = c.take(m as int);
        let after = c.take(n as int);
        assert(forall|k: int| 0 <= k < m ==> before[k] == #[trigger] after[k]);
        assert(after[m as int] == c[m as int]);
        let now = with_candidates(files, c, n);
        if c[m as int].path == path {
            assert(after[m as int].path == path);
            assert(is_last_size(after, path, now[path] as int));
        } else {
            if is_among(after, path) {
                let k = choose|k: int| 0 <= k < after.len() && (#[trigger] after[k]).path == path;
                assert(before[k].path == path);
                assert(is_among(before, path));
                let size = now[path] as int;
                let w = choose|w: int|
                    0 <= w < before.len() && (#[trigger] before[w]).path == path && size
                        == counted_bytes(before[w].size_bytes) && forall|j: int|
                        w < j < before.len() ==> (#[trigger] before[j]).path != path;
                assert(after[w].path == path);
                assert forall|j: int| w < j < after.len() implies (#[trigger] after[j]).path != path by {
                    if j < m {
                        assert(before[j] == after[j]);
                    }
                }
            }
            if is_among(before, path) {
                let k = choose|k: int| 0 <= k < before.len() && (#[trigger] before[k]).path == path;
                assert(after[k].path == path);
            }
        }
    }
}

proof fn lemma_group_size(files: Map<Seq<char>, i64>, g: Seq<GroupView>, n: nat, path: Seq<char>)
    requires
        n <= g.len(),
    ensures
        is_in_groups(g, n, path) ==> with_groups(files, g, n).contains_key(path)
            && is_last_group_size(g, n, path, with_groups(files, g, n)[path] as int),
        !is_in_groups(g, n, path) ==> (with_groups(files, g, n).contains_key(path)
            <==> files.contains_key(path)) && (files.contains_key(path) ==> with_groups(
            files,
            g,
            n,
        )[path] == files[path]),
    decreases n,
{
    if n > 0 {
        let m = (n - 1) as nat;
        lemma_group_size(files, g, m, path);
        let c = g[m as int].candidates;
        lemma_candidate_size(with_groups(files, g, m), c, c.len(), path);
        assert(c.take(c.len() as int) =~= c);
        let now = with_groups(files, g, n);
        if is_among(c, path) {
            assert(is_last_size(g[m as int].candidates, path, now[path] as int));
            assert(is_in_groups(g, n, path));
        } else {
            assert(is_in_groups(g, n, path) ==> is_in_groups(g, m, path));
            if is_in_groups(g, m, path) {
                let i = choose|i: int| 0 <= i < m && is_among((#[trigger] g[i]).candidates, path);
                assert(is_among(g[i].candidates, path));
                assert(is_in_groups(g, n, path));
                let size = now[path] as int;
                let w = choose|w: int|
                    0 <= w < m && is_last_size((#[trigger] g[w]).candidates, path, size)
                        && forall|j: int|
                        w < j < m ==> !is_among((#[trigger] g[j]).candidates, path);
                assert(is_last_size(g[w].candidates, path, size));
                assert(is_last_group_size(g, n, path, size));
            }
        }
    }
}

/// Whether `n` is the size that the last of the first entries with the path has.
pub open spec fn is_last_entry_size(e: Seq<EntryView>, count: nat, path: Seq<char>, n: int) -> bool {
    exists|i: int|
        0 <= i < count && (#[trigger] e[i]).path == path && n == counted_bytes(e[i].size_bytes)
            && forall|j: int| i < j < count ==> (#[trigger] e[j]).path != path
}

proof fn lemma_entry_size(e: Seq<EntryView>, n: nat, path: Seq<char>)
    requires
        n <= e.len(),
    ensures
        with_entries(Map::empty(), e, n).contains_key(path) ==> is_last_entry_size(
            e,
            n,
            path,
            with_entries(Map::empty(), e, n)[path] as int,
        ),
    decreases n,
{
    if n > 0 {
        let m = (n - 1) as nat;
        lemma_entry_size(e, m, path);
        let now = with_entries(Map::empty(), e, n);
        if e[m as int].path == path {
            assert(is_last_entry_size(e, n, path, now[path] as int));
        } else if now.contains_key(path) {
            let size = now[path] as int;
            let w = choose|w: int|
                0 <= w < m && (#[trigger] e[w]).path == path && size == counted_bytes(
                    e[w].size_bytes,
                ) && forall|j: int| w < j < m ==> (#[trigger] e[j]).path != path;
            assert(e[w].path == path);
        }
    }
}

/// The size that a plan gives a file is the one it lists it with: that of the last group that lists
/// it, or, where no group does, that of the last entry.
pub proof fn planned_size_is_the_listed_one(plan: CleanupPlan, path: Seq<char>)
    requires
        planned_files(plan).contains_key(path),
    ensures
        ({
            let groups = groups_view(plan.duplicate_groups@);
            let entries = entries_view(plan.ignored_files@);
            let size = planned_files(plan)[path] as int;
            if is_in_groups(groups, groups.len(), path) {
                is_last_group_size(groups, groups.len(), path, size)
            } else {
                is_last_entry_size(entries, entries.len(), path, size)
            }
        }),
{
    let groups = groups_view(plan.duplicate_groups@);
    let entries = entries_view(plan.ignored_files@);
    lemma_entry_size(entries, entries.len(), path);
    lemma_group_size(
        with_entries(Map::empty(), entries, entries.len()),
        groups,
        groups.len(),
        path,
    );
}

/// A folder may be deleted exactly where the plan lists it as empty.
pub proof fn only_listed_folders_are_planned(plan: CleanupPlan, path: Seq<char>)
    ensures
        planned_folders(plan).contains(path) <==> exists|i: int|
            0 <= i < plan.empty_folders.len() && (#[trigger] plan.empty_folders[i]).path@ == path,
{
}

/// What is done with an entry of a folder: a file is listed exactly where it is excluded or a face
/// tile; a folder is searched, or, where it is excluded, listed with all that is below; anything
/// else is passed over. The reason tells which.
pub proof fn entry_is_listed_where_indexing_leaves_it_out(parts: PathParts, kind: EntryKind)
    ensures
        ({
            let a = ignored_action(parts, kind);
            &&& kind is File && excluded_path(parts) ==> a is ListFile
            &&& kind is File && !excluded_path(parts) && facetile(parts) ==> a is ListFaceTile
            &&& kind is File && !excluded_path(parts) && !facetile(parts) ==> a is Skip
            &&& kind is Directory && excluded_path(parts) ==> a is ListBelow
            &&& kind is Directory && !excluded_path(parts) ==> a is Descend
            &&& kind is Other ==> a is Skip
        }),
        ignored_reason(IgnoredAction::ListFile) == "Ignored by indexing rules"@,
        ignored_reason(IgnoredAction::ListBelow) == "Inside folder ignored by indexing rules"@,
        ignored_reason(IgnoredAction::ListFaceTile) == "Facetile image ignored by indexing rules"@,
{
}

/// What became of a file is noted once: a deleted file counts for one file and its bytes, a file
/// that could not be deleted for one message, and nothing else changes.
pub proof fn file_is_counted_or_told(
    r: ResultView,
    path: Seq<char>,
    size: int,
    outcome: Result<(), String>,
)
    ensures
        ({
            let after = after_file(r, path, size, outcome);
            &&& after.folders_deleted == r.folders_deleted
            &&& after.rows_marked_missing == r.rows_marked_missing
            &&& outcome is Ok ==> after.files_deleted == r.files_deleted + 1 && after.bytes_deleted
                == r.bytes_deleted + size && after.errors == r.errors
            &&& outcome is Err ==> after.files_deleted == r.files_deleted && after.bytes_deleted
                == r.bytes_deleted && after.errors == r.errors.push(
                "failed to permanently delete "@ + path + ": "@ + outcome->Err_0@,
            )
        }),
{
}

/// What became of a folder is noted once: a deleted folder counts for one, any other for one
/// message that names it, and nothing else changes.
pub proof fn folder_is_counted_or_told(r: ResultView, folder: Seq<char>, outcome: FolderOutcome)
    ensures
        ({
            let after = after_folder(r, folder, outcome);
            &&& after.files_deleted == r.files_deleted
            &&& after.bytes_deleted == r.bytes_deleted
            &&& after.rows_marked_missing == r.rows_marked_missing
            &&& outcome is Deleted ==> after.folders_deleted == r.folders_deleted + 1
                && after.errors == r.errors
            &&& !(outcome is Deleted) ==> after.folders_deleted == r.folders_deleted
                && after.errors.len() == r.errors.len() + 1 && after.errors.drop_last() == r.errors
            &&& outcome matches FolderOutcome::DeleteFailed(e) ==> after.errors.last()
                == "failed to permanently delete folder "@ + folder + ": "@ + e@
            &&& outcome is NotEmpty ==> after.errors.last()
                == "folder not empty after file cleanup: "@ + folder
            &&& outcome matches FolderOutcome::InspectFailed(e) ==> after.errors.last()
                == "failed to inspect folder "@ + folder + ": "@ + e@
        }),
{
    if !(outcome is Deleted) {
        assert(after_folder(r, folder, outcome).errors.drop_last() =~= r.errors);
    }
}

/// A file that was asked to go is deleted exactly where the plan lists it, and else refused by
/// name; a folder likewise, where the plan lists it as empty.
pub proof fn decisions_go_by_the_plan(
    plan: CleanupPlan,
    path: Seq<char>,
    file: FileDecision,
    folder: FolderDecision,
)
    ensures
        is_file_decision(file, plan, path) ==> {
            &&& file.path@ == path
            &&& file.size is Ok <==> lists_file(plan, path)
            &&& file.size is Ok ==> file.size->Ok_0 == planned_files(plan)[path]
            &&& file.size is Err ==> file.size->Err_0@ == "refusing unplanned file deletion: "@
                + path
        },
        is_folder_decision(folder, plan, path) ==> {
            &&& folder.path@ == path
            &&& folder.refusal is None <==> exists|i: int|
                0 <= i < plan.empty_folders.len() && (#[trigger] plan.empty_folders[i]).path@
                    == path
            &&& folder.refusal is Some ==> folder.refusal->0@
                == "refusing unplanned folder deletion: "@ + path
        },
{
    only_listed_files_are_approved(plan, path);
    only_listed_folders_are_planned(plan, path);
}

/// The files that were asked to go are those of the list, and no others.
pub proof fn asked_files_are_those_listed(paths: Seq<String>, path: Seq<char>)
    ensures
        path_set(paths).contains(path) <==> exists|i: int|
            0 <= i < paths.len() && (#[trigger] paths[i])@ == path,
{
    let views = texts_view(paths);
    if path_set(paths).contains(path) {
        assert(views.contains(path));
        let i = choose|i: int| 0 <= i < views.len() && views[i] == path;
        assert(paths[i]@ == path);
    }
    if exists|i: int| 0 <= i < paths.len() && (#[trigger] paths[i])@ == path {
        let i = choose|i: int| 0 <= i < paths.len() && (#[trigger] paths[i])@ == path;
        assert(views[i] == path);
        assert(views.contains(path));
    }
}

/// Folders are dealt with from the deepest up: each once, none before a deeper one, so that what
/// lies in a folder is dealt with before the folder.
pub proof fn deeper_folders_come_first(depths: Seq<usize>, order: Seq<usize>)
    requires
        depths.len() <= usize::MAX,
        is_deepest_first(depths, order),
    ensures
        order.len() == depths.len(),
        order.no_duplicates(),
        forall|p: int| 0 <= p < depths.len() ==> #[trigger] order.contains(p as usize),
        forall|i: int, j: int|
            0 <= i < order.len() && 0 <= j < order.len() && depths[#[trigger] order[i] as int]
                > depths[#[trigger] order[j] as int] ==> i < j,
        forall|i: int, j: int|
            0 <= i < order.len() && 0 <= j < order.len() && depths[#[trigger] order[i] as int]
                == depths[#[trigger] order[j] as int] && order[i] < order[j] ==> i < j,
{
    assert forall|i: int, j: int| 0 <= i < order.len() && 0 <= j < order.len() && i != j implies order[i]
        != order[j] by {
        if i < j {
            assert(order[i] != order[j]);
        } else {
            assert(order[j] != order[i]);
        }
    }
}

proof fn lemma_sums_of_sizes(sizes: Seq<i64>, k: int)
    requires
        0 <= k <= sizes.len(),
        forall|i: int| 0 <= i < sizes.len() ==> #[trigger] sizes[i] >= 0,
    ensures
        0 <= total(sizes.take(k)) <= total(sizes),
    decreases sizes.len(),
{
    if k == sizes.len() {
        assert(sizes.take(k) =~= sizes);
        if sizes.len() > 0 {
            let rest = sizes.drop_last();
            lemma_sums_of_sizes(rest, rest.len() as int);
            assert(rest.take(rest.len() as int) =~= rest);
            assert(sizes[sizes.len() - 1] >= 0);
        }
    } else {
        let rest = sizes.drop_last();
        lemma_sums_of_sizes(rest, k);
        assert(rest.take(k) =~= sizes.take(k));
        assert(sizes[sizes.len() - 1] >= 0);
    }
}

/// Totals are within range wherever no size is negative and the whole is within range: nothing else
/// keeps a plan from being made.
pub proof fn totals_of_sizes_fit(ignored: Seq<EntryView>, groups: Seq<GroupView>)
    requires
        forall|i: int|
            0 <= i < entry_sizes(ignored).len() ==> #[trigger] entry_sizes(ignored)[i] >= 0,
        forall|i: int|
            0 <= i < all_spare_sizes(groups, groups.len()).len() ==> #[trigger] all_spare_sizes(
                groups,
                groups.len(),
            )[i] >= 0,
        total(entry_sizes(ignored)) + total(all_spare_sizes(groups, groups.len())) <= i64::MAX,
        ignored.len() + spare_files(groups, groups.len()) <= usize::MAX,
    ensures
        totals_fit(ignored, groups),
{
    let a = entry_sizes(ignored);
    let b = all_spare_sizes(groups, groups.len());
    lemma_sums_of_sizes(a, 0);
    lemma_sums_of_sizes(b, 0);
    assert forall|k: int| 0 <= k <= a.len() implies i64::MIN <= total(#[trigger] a.take(k))
        <= i64::MAX by {
        lemma_sums_of_sizes(a, k);
    }
    assert forall|k: int| 0 <= k <= b.len() implies i64::MIN <= total(#[trigger] b.take(k))
        <= i64::MAX by {
        lemma_sums_of_sizes(b, k);
    }
}

} // verus!
