//! Cleanup plans: what they list, what they would free, and what may be deleted by them.

use vstd::prelude::*;

use crate::candidates::{number_or, value_or, CandidateView, MediaItem};
use crate::collections::{TextMap, TextSet};
use crate::exact::{
    cache_matches, cache_matches_media, groups_view, CleanupDuplicateGroup, CleanupFileCache,
    GroupView,
};
use crate::order::{sort_positions, stable_order, DepthKey};
use crate::paths::{
    clean_path, clean_path_str, excluded_path, facetile, is_excluded_path, is_facetile_image_path,
    texts_view, PathParts,
};
use crate::text;

verus! {

/// A file or folder that a cleanup lists.
pub struct CleanupEntry {
    pub path: String,
    pub size_bytes: Option<i64>,
    pub reason: String,
}

/// What a [`CleanupEntry`] stands for.
pub struct EntryView {
    pub path: Seq<char>,
    pub size_bytes: Option<i64>,
    pub reason: Seq<char>,
}

impl View for CleanupEntry {
    type V = EntryView;

    open spec fn view(&self) -> EntryView {
        EntryView { path: self.path@, size_bytes: self.size_bytes, reason: self.reason@ }
    }
}

/// What a list of entries stands for.
pub open spec fn entries_view(s: Seq<CleanupEntry>) -> Seq<EntryView> {
    s.map_values(|e: CleanupEntry| e@)
}

/// The roots of a cleanup: those asked for, or the saved library folders where none is.
pub open spec fn chosen_roots(asked: Option<Seq<Seq<char>>>, saved: Seq<Seq<char>>) -> Seq<
    Seq<char>,
> {
    match asked {
        Some(roots) => if roots.len() > 0 {
            roots
        } else {
            saved
        },
        None => saved,
    }
}

/// What a request for roots stands for.
pub open spec fn request_view(paths: Option<Vec<String>>) -> Option<Seq<Seq<char>>> {
    match paths {
        Some(p) => Some(texts_view(p@)),
        None => None,
    }
}

/// The roots asked for, or `None` where the saved library folders are the roots. See
/// [`chosen_roots`].
pub fn requested_roots(paths: Option<Vec<String>>) -> (roots: Option<Vec<String>>)
    ensures
        roots == if paths is Some && paths->0.len() > 0 {
            paths
        } else {
            None
        },
        forall|saved: Seq<Seq<char>>| #[trigger]
            chosen_roots(request_view(paths), saved) == (match roots {
                Some(r) => texts_view(r@),
                None => saved,
            }),
{
    match paths {
        Some(p) => if p.len() > 0 {
            Some(p)
        } else {
            None
        },
        None => None,
    }
}

/// To ask for no roots, for an empty list of roots or for all saved library folders is the same:
/// the roots agree, and so does whatever is made of them.
pub proof fn no_roots_are_the_saved_folders<A>(
    saved: Seq<Seq<char>>,
    made: spec_fn(Seq<Seq<char>>) -> A,
)
    ensures
        chosen_roots(None, saved) == saved,
        chosen_roots(Some(Seq::empty()), saved) == saved,
        chosen_roots(Some(saved), saved) == saved,
        made(chosen_roots(None, saved)) == made(chosen_roots(Some(Seq::empty()), saved)),
        made(chosen_roots(None, saved)) == made(chosen_roots(Some(saved), saved)),
{
}

/// Roots that were asked for are the roots, whatever the saved library folders are.
pub proof fn asked_roots_are_the_roots(asked: Seq<Seq<char>>, saved: Seq<Seq<char>>)
    requires
        asked.len() > 0,
    ensures
        chosen_roots(Some(asked), saved) == asked,
{
}

/// What stands at a path.
#[derive(Clone, Copy, PartialEq, Eq, Structural)]
pub enum EntryKind {
    File,
    Directory,
    Other,
}

/// What the search for ignored files does with an entry of a folder.
#[derive(Clone, Copy, PartialEq, Eq, Structural)]
pub enum IgnoredAction {
    /// List the file: the indexing rules leave it out.
    ListFile,
    /// List every file below: the indexing rules leave the folder out.
    ListBelow,
    /// List the file: it is a face tile.
    ListFaceTile,
    /// Search the folder.
    Descend,
    /// Nothing.
    Skip,
}

/// What is done with an entry. Excluded files and everything in excluded folders is listed;
/// other folders are searched, and of their files the face tiles are listed.
pub open spec fn ignored_action(parts: PathParts, kind: EntryKind) -> IgnoredAction {
    if excluded_path(parts) {
        match kind {
            EntryKind::File => IgnoredAction::ListFile,
            EntryKind::Directory => IgnoredAction::ListBelow,
            EntryKind::Other => IgnoredAction::Skip,
        }
    } else if kind == EntryKind::Directory {
        IgnoredAction::Descend
    } else if kind == EntryKind::File && facetile(parts) {
        IgnoredAction::ListFaceTile
    } else {
        IgnoredAction::Skip
    }
}

/// See [`ignored_action`].
pub fn ignored_entry_action(parts: &PathParts, kind: EntryKind) -> (action: IgnoredAction)
    ensures
        action == ignored_action(*parts, kind),
{
    if is_excluded_path(parts) {
        match kind {
            EntryKind::File => IgnoredAction::ListFile,
            EntryKind::Directory => IgnoredAction::ListBelow,
            EntryKind::Other => IgnoredAction::Skip,
        }
    } else {
        match kind {
            EntryKind::Directory => IgnoredAction::Descend,
            EntryKind::File => if is_facetile_image_path(parts) {
                IgnoredAction::ListFaceTile
            } else {
                IgnoredAction::Skip
            },
            EntryKind::Other => IgnoredAction::Skip,
        }
    }
}

/// Why a file is listed.
pub open spec fn ignored_reason(action: IgnoredAction) -> Seq<char> {
    match action {
        IgnoredAction::ListFile => "Ignored by indexing rules"@,
        IgnoredAction::ListBelow => "Inside folder ignored by indexing rules"@,
        IgnoredAction::ListFaceTile => "Facetile image ignored by indexing rules"@,
        _ => ""@,
    }
}

/// The entry of an ignored file, by its path and size.
pub fn ignored_entry(path: &str, size_bytes: Option<i64>, action: IgnoredAction) -> (e: CleanupEntry)
    ensures
        e@ == (EntryView { path: clean_path(path@), size_bytes, reason: ignored_reason(action) }),
{
    let reason = match action {
        IgnoredAction::ListFile => "Ignored by indexing rules",
        IgnoredAction::ListBelow => "Inside folder ignored by indexing rules",
        IgnoredAction::ListFaceTile => "Facetile image ignored by indexing rules",
        _ => "",
    };
    CleanupEntry { path: clean_path_str(path), size_bytes, reason: reason.to_string() }
}

/// A folder of a cleanup root and what was found in it.
pub struct InspectedFolder {
    /// The path as text.
    pub path: String,
    /// Whether it is the root itself.
    pub is_root: bool,
    /// Whether it holds nothing, or the message of the error that kept it from being read.
    pub contents: Result<bool, String>,
}

/// Whether `order` lists every position of `depths` once, the deepest first, and positions of
/// one depth in their order.
pub open spec fn is_deepest_first(depths: Seq<usize>, order: Seq<usize>) -> bool {
    &&& order.len() == depths.len()
    &&& forall|i: int| 0 <= i < order.len() ==> #[trigger] order[i] < depths.len()
    &&& forall|p: usize| p < depths.len() ==> #[trigger] order.contains(p)
    &&& forall|i: int, j: int|
        0 <= i < j < order.len() ==> depths[#[trigger] order[i] as int]
            > depths[#[trigger] order[j] as int] || (depths[order[i] as int]
            == depths[order[j] as int] && order[i] < order[j])
}

/// The order in which folders are inspected and deleted: the deepest first, otherwise as given.
pub fn deepest_first(depths: &Vec<usize>) -> (order: Vec<usize>)
    ensures
        is_deepest_first(depths@, order@),
{
    let mut keys: Vec<DepthKey> = Vec::new();
    let mut i: usize = 0;
    while i < depths.len()
        invariant
            i <= depths.len(),
            keys.len() == i,
            forall|j: int| 0 <= j < i ==> (#[trigger] keys[j]).0 == depths[j],
        decreases depths.len() - i,
    {
        keys.push(DepthKey(depths[i]));
        i = i + 1;
    }
    let order = sort_positions(&keys);
    assert(stable_order(keys@, order@));
    assert forall|i: int, j: int| 0 <= i < j < order.len() implies depths[#[trigger] order[i] as int]
        > depths[#[trigger] order[j] as int] || (depths[order[i] as int] == depths[order[j] as int]
        && order[i] < order[j]) by {
        assert(crate::order::ranks(keys@, order@[i] as int, order@[j] as int));
        assert(keys[order[i] as int].0 == depths[order[i] as int]);
        assert(keys[order[j] as int].0 == depths[order[j] as int]);
    }
    order
}

/// The entry of an empty folder.
pub open spec fn empty_folder_entry(path: Seq<char>) -> EntryView {
    EntryView { path: clean_path(path), size_bytes: None, reason: "Empty folder"@ }
}

/// The empty folders among the first `n`, the root aside.
pub open spec fn empty_folders(dirs: Seq<InspectedFolder>, n: nat) -> Seq<EntryView>
    decreases n,
{
    if n == 0 {
        Seq::empty()
    } else {
        let rest = empty_folders(dirs, (n - 1) as nat);
        let d = dirs[n - 1];
        if !d.is_root && d.contents == Ok::<bool, String>(true) {
            rest.push(empty_folder_entry(d.path@))
        } else {
            rest
        }
    }
}

/// The errors of the first `n` folders, the root aside.
pub open spec fn folder_errors(dirs: Seq<InspectedFolder>, n: nat) -> Seq<Seq<char>>
    decreases n,
{
    if n == 0 {
        Seq::empty()
    } else {
        let rest = folder_errors(dirs, (n - 1) as nat);
        let d = dirs[n - 1];
        match d.contents {
            Err(e) => if d.is_root {
                rest
            } else {
                rest.push("failed to inspect "@ + d.path@ + ": "@ + e@)
            },
            Ok(_) => rest,
        }
    }
}

/// The empty folders of a cleanup root, and the messages for the folders that could not be
/// read, both in the order given.
pub fn find_empty_folders(dirs: &Vec<InspectedFolder>) -> (found: (Vec<CleanupEntry>, Vec<String>))
    ensures
        entries_view(found.0@) == empty_folders(dirs@, dirs@.len()),
        texts_view(found.1@) == folder_errors(dirs@, dirs@.len()),
{
    let mut out: Vec<CleanupEntry> = Vec::new();
    let mut errors: Vec<String> = Vec::new();
    assert(entries_view(out@) =~= Seq::empty());
    assert(texts_view(errors@) =~= Seq::empty());
    let mut i: usize = 0;
    while i < dirs.len()
        invariant
            i <= dirs.len(),
            entries_view(out@) == empty_folders(dirs@, i as nat),
            texts_view(errors@) == folder_errors(dirs@, i as nat),
        decreases dirs.len() - i,
    {
        let d = &dirs[i];
        let ghost entries_before = entries_view(out@);
        let ghost errors_before = texts_view(errors@);
        if !d.is_root {
            match &d.contents {
                Ok(empty) => if *empty {
                    let entry = CleanupEntry {
                        path: clean_path_str(d.path.as_str()),
                        size_bytes: None,
                        reason: "Empty folder".to_string(),
                    };
                    out.push(entry);
                    assert(entries_view(out@) =~= entries_before.push(empty_folder_entry(d.path@)));
                },
                Err(e) => {
                    let mut message = "failed to inspect ".to_string();
                    message.append(d.path.as_str());
                    message.append(": ");
                    message.append(e.as_str());
                    errors.push(message);
                    assert(texts_view(errors@) =~= errors_before.push(
                        "failed to inspect "@ + d.path@ + ": "@ + e@,
                    ));
                },
            }
        }
        i = i + 1;
    }
    (out, errors)
}

/// What a cleanup plan lists and would delete.
pub struct CleanupTotals {
    pub ignored_files: usize,
    pub empty_folders: usize,
    pub duplicate_groups: usize,
    pub duplicate_files: usize,
    pub selected_files: usize,
    pub selected_folders: usize,
    pub selected_bytes: i64,
    pub errors: usize,
}

/// A cleanup that was worked out and waits to be applied.
pub struct CleanupPlan {
    pub plan_id: String,
    pub ignored_files: Vec<CleanupEntry>,
    pub empty_folders: Vec<CleanupEntry>,
    pub duplicate_groups: Vec<CleanupDuplicateGroup>,
    pub totals: CleanupTotals,
    pub errors: Vec<String>,
}

/// The sum of a list of sizes.
pub open spec fn total(sizes: Seq<i64>) -> int
    decreases sizes.len(),
{
    if sizes.len() == 0 {
        0
    } else {
        total(sizes.drop_last()) + sizes.last()
    }
}

/// Whether the sizes can be added up from the left within `i64`.
pub open spec fn sums_fit(sizes: Seq<i64>) -> bool {
    forall|k: int| 0 <= k <= sizes.len() ==> i64::MIN <= total(#[trigger] sizes.take(k)) <= i64::MAX
}

/// The sizes of the listed entries.
pub open spec fn entry_sizes(entries: Seq<EntryView>) -> Seq<i64> {
    entries.map_values(|e: EntryView| value_or(e.size_bytes, 0))
}

/// The sizes of the first `n` candidates that are not to be kept.
pub open spec fn spare_sizes(c: Seq<CandidateView>, keep: Seq<char>, n: nat) -> Seq<i64>
    decreases n,
{
    if n == 0 {
        Seq::empty()
    } else {
        let rest = spare_sizes(c, keep, (n - 1) as nat);
        if c[n - 1].path != keep {
            rest.push(value_or(c[n - 1].size_bytes, 0))
        } else {
            rest
        }
    }
}

/// The sizes of the spare copies in the first `n` groups.
pub open spec fn all_spare_sizes(groups: Seq<GroupView>, n: nat) -> Seq<i64>
    decreases n,
{
    if n == 0 {
        Seq::empty()
    } else {
        let g = groups[n - 1];
        all_spare_sizes(groups, (n - 1) as nat) + spare_sizes(
            g.candidates,
            g.default_keep_path,
            g.candidates.len(),
        )
    }
}

/// The number of files in the first `n` groups, one of each group aside.
pub open spec fn spare_files(groups: Seq<GroupView>, n: nat) -> int
    decreases n,
{
    if n == 0 {
        0
    } else {
        let c = groups[n - 1].candidates;
        spare_files(groups, (n - 1) as nat) + (if c.len() > 0 {
            c.len() - 1
        } else {
            0
        })
    }
}

/// Whether the totals of a plan are within the range of their numbers.
pub open spec fn totals_fit(ignored: Seq<EntryView>, groups: Seq<GroupView>) -> bool {
    &&& sums_fit(entry_sizes(ignored))
    &&& sums_fit(all_spare_sizes(groups, groups.len()))
    &&& i64::MIN <= total(entry_sizes(ignored)) + total(all_spare_sizes(groups, groups.len()))
        <= i64::MAX
    &&& ignored.len() + spare_files(groups, groups.len()) <= usize::MAX
}

proof fn lemma_sum_overflows(sizes: Seq<i64>, k: int)
    requires
        0 <= k <= sizes.len(),
        !(i64::MIN <= total(sizes.take(k)) <= i64::MAX),
    ensures
        !sums_fit(sizes),
{
}

fn add_sizes(sizes: &Vec<i64>) -> (sum: Option<i64>)
    ensures
        sum is Some <==> sums_fit(sizes@),
        sum matches Some(n) ==> n == total(sizes@),
{
    let mut sum: i64 = 0;
    let mut i: usize = 0;
    assert(sizes@.take(0) =~= Seq::empty());
    while i < sizes.len()
        invariant
            i <= sizes.len(),
            sum == total(sizes@.take(i as int)),
            forall|k: int|
                0 <= k <= i ==> i64::MIN <= total(#[trigger] sizes@.take(k)) <= i64::MAX,
        decreases sizes.len() - i,
    {
        assert(sizes@.take(i + 1).drop_last() =~= sizes@.take(i as int));
        match sum.checked_add(sizes[i]) {
            Some(n) => {
                sum = n;
            },
            None => {
                proof {
                    lemma_sum_overflows(sizes@, i + 1);
                }
                return None;
            },
        }
        i = i + 1;
    }
    assert(sizes@.take(sizes@.len() as int) =~= sizes@);
    Some(sum)
}

fn sizes_of_entries(entries: &Vec<CleanupEntry>) -> (sizes: Vec<i64>)
    ensures
        sizes@ == entry_sizes(entries_view(entries@)),
{
    let mut out: Vec<i64> = Vec::new();
    let mut i: usize = 0;
    while i < entries.len()
        invariant
            i <= entries.len(),
            out.len() == i,
            forall|j: int| 0 <= j < i ==> #[trigger] out[j] == value_or(entries[j].size_bytes, 0),
        decreases entries.len() - i,
    {
        out.push(number_or(entries[i].size_bytes, 0));
        i = i + 1;
    }
    assert(out@ =~= entry_sizes(entries_view(entries@)));
    out
}

fn spare_sizes_of(groups: &Vec<CleanupDuplicateGroup>) -> (sizes: Vec<i64>)
    ensures
        sizes@ == all_spare_sizes(groups_view(groups@), groups@.len()),
{
    let ghost views = groups_view(groups@);
    let mut out: Vec<i64> = Vec::new();
    let mut g: usize = 0;
    while g < groups.len()
        invariant
            g <= groups.len(),
            views == groups_view(groups@),
            out@ == all_spare_sizes(views, g as nat),
        decreases groups.len() - g,
    {
        let group = &groups[g];
        let ghost before = out@;
        let ghost c = views[g as int].candidates;
        let ghost keep = views[g as int].default_keep_path;
        let mut k: usize = 0;
        assert(out@ =~= before + spare_sizes(c, keep, 0));
        while k < group.candidates.len()
            invariant
                k <= group.candidates.len(),
                c == crate::candidates::candidates_view(group.candidates@),
                keep == group.default_keep_path@,
                out@ == before + spare_sizes(c, keep, k as nat),
            decreases group.candidates.len() - k,
        {
            let file = &group.candidates[k];
            assert(c[k as int] == file@);
            if !text::text_eq(file.path.as_str(), group.default_keep_path.as_str()) {
                out.push(number_or(file.size_bytes, 0));
                assert(out@ =~= before + spare_sizes(c, keep, (k + 1) as nat));
            }
            k = k + 1;
        }
        g = g + 1;
    }
    out
}

fn count_spare_files(groups: &Vec<CleanupDuplicateGroup>) -> (n: Option<usize>)
    ensures
        n is Some <==> spare_files(groups_view(groups@), groups@.len()) <= usize::MAX,
        n matches Some(k) ==> k == spare_files(groups_view(groups@), groups@.len()),
{
    let ghost views = groups_view(groups@);
    let mut n: usize = 0;
    let mut g: usize = 0;
    while g < groups.len()
        invariant
            g <= groups.len(),
            views == groups_view(groups@),
            n == spare_files(views, g as nat),
        decreases groups.len() - g,
    {
        let c: usize = groups[g].candidates.len();
        assert(views[g as int].candidates.len() == c);
        let spare: usize = if c > 0 {
            c - 1
        } else {
            0
        };
        match n.checked_add(spare) {
            Some(m) => {
                n = m;
            },
            None => {
                proof {
                    lemma_spare_files_grow(views, (g + 1) as nat, views.len());
                }
                return None;
            },
        }
        g = g + 1;
    }
    Some(n)
}

proof fn lemma_spare_files_grow(groups: Seq<GroupView>, m: nat, n: nat)
    requires
        m <= n,
    ensures
        spare_files(groups, m) <= spare_files(groups, n),
    decreases n,
{
    if m < n {
        lemma_spare_files_grow(groups, m, (n - 1) as nat);
    }
}

/// The number of spare copies and the bytes of all files that a plan selects, where both are
/// within range.
pub fn selected_totals(
    ignored: &Vec<CleanupEntry>,
    groups: &Vec<CleanupDuplicateGroup>,
) -> (sums: Option<(usize, i64)>)
    ensures
        sums is Some <==> totals_fit(entries_view(ignored@), groups_view(groups@)),
        sums matches Some(s) ==> {
            &&& s.0 == spare_files(groups_view(groups@), groups@.len())
            &&& s.1 == total(entry_sizes(entries_view(ignored@))) + total(
                all_spare_sizes(groups_view(groups@), groups@.len()),
            )
        },
{
    let ignored_sizes = sizes_of_entries(ignored);
    let spare = spare_sizes_of(groups);
    assert(entries_view(ignored@).len() == ignored.len());
    assert(groups_view(groups@).len() == groups.len());
    match (add_sizes(&ignored_sizes), add_sizes(&spare), count_spare_files(groups)) {
        (Some(a), Some(b), Some(n)) => match (a.checked_add(b), n.checked_add(ignored.len())) {
            (Some(bytes), Some(_)) => Some((n, bytes)),
            _ => None,
        },
        _ => None,
    }
}

/// The totals of a plan.
pub open spec fn plan_totals(
    ignored: Seq<EntryView>,
    folders: nat,
    groups: Seq<GroupView>,
    errors: nat,
) -> CleanupTotals {
    CleanupTotals {
        ignored_files: ignored.len() as usize,
        empty_folders: folders as usize,
        duplicate_groups: groups.len() as usize,
        duplicate_files: spare_files(groups, groups.len()) as usize,
        selected_files: (ignored.len() + spare_files(groups, groups.len())) as usize,
        selected_folders: folders as usize,
        selected_bytes: (total(entry_sizes(ignored)) + total(
            all_spare_sizes(groups, groups.len()),
        )) as i64,
        errors: errors as usize,
    }
}

/// The plan of what was found.
pub fn assemble_plan(
    plan_id: String,
    ignored_files: Vec<CleanupEntry>,
    empty_folders: Vec<CleanupEntry>,
    duplicate_groups: Vec<CleanupDuplicateGroup>,
    errors: Vec<String>,
) -> (plan: CleanupPlan)
    requires
        totals_fit(entries_view(ignored_files@), groups_view(duplicate_groups@)),
    ensures
        plan.plan_id == plan_id,
        plan.ignored_files == ignored_files,
        plan.empty_folders == empty_folders,
        plan.duplicate_groups == duplicate_groups,
        plan.errors == errors,
        plan.totals == plan_totals(
            entries_view(ignored_files@),
            empty_folders@.len(),
            groups_view(duplicate_groups@),
            errors@.len(),
        ),
{
    let (duplicate_files, selected_bytes) = match selected_totals(
        &ignored_files,
        &duplicate_groups,
    ) {
        Some(sums) => sums,
        None => (0, 0),
    };
    let totals = CleanupTotals {
        ignored_files: ignored_files.len(),
        empty_folders: empty_folders.len(),
        duplicate_groups: duplicate_groups.len(),
        duplicate_files,
        selected_files: ignored_files.len() + duplicate_files,
        selected_folders: empty_folders.len(),
        selected_bytes,
        errors: errors.len(),
    };
    CleanupPlan { plan_id, ignored_files, empty_folders, duplicate_groups, totals, errors }
}

/// The id of a plan made at a time in milliseconds.
pub fn cleanup_plan_id(millis: u128) -> (id: String)
    ensures
        id@ == "cleanup-"@ + text::decimal(millis as nat),
{
    let number = text::to_decimal(millis);
    text::concat2("cleanup-", number.as_str())
}

/// The plans that wait to be applied, by id.
pub struct CleanupPlans {
    plans: TextMap<CleanupPlan>,
}

impl View for CleanupPlans {
    type V = Map<Seq<char>, CleanupPlan>;

    closed spec fn view(&self) -> Map<Seq<char>, CleanupPlan> {
        self.plans@
    }
}

impl CleanupPlans {
    /// No plans.
    pub fn new() -> (p: Self)
        ensures
            p@ == Map::<Seq<char>, CleanupPlan>::empty(),
    {
        CleanupPlans { plans: TextMap::new() }
    }

    /// Keeps a plan under its id; an earlier one with that id is replaced.
    pub fn keep(&mut self, plan: CleanupPlan)
        ensures
            final(self)@ == old(self)@.insert(plan.plan_id@, plan),
    {
        let id = plan.plan_id.clone();
        self.plans.insert(id, plan);
    }

    /// Drops the plan with an id, if there is one.
    pub fn cancel_cleanup_plan(&mut self, plan_id: &str)
        ensures
            final(self)@ == old(self)@.remove(plan_id@),
    {
        self.plans.remove(plan_id);
    }

    /// The plan with an id, or the message that there is none any more.
    pub fn find(&self, plan_id: &str) -> (plan: Result<&CleanupPlan, String>)
        ensures
            match plan {
                Ok(p) => self@.contains_key(plan_id@) && *p == self@[plan_id@],
                Err(message) => !self@.contains_key(plan_id@) && message@
                    == "cleanup plan expired; generate a new plan"@,
            },
    {
        match self.plans.get(plan_id) {
            Some(p) => Ok(p),
            None => Err("cleanup plan expired; generate a new plan".to_string()),
        }
    }
}

/// A plan that is kept is found under its id until it is cancelled, and other plans stay as they
/// were.
pub proof fn plan_is_found_until_cancelled(
    plans: Map<Seq<char>, CleanupPlan>,
    plan: CleanupPlan,
    other: Seq<char>,
)
    requires
        other != plan.plan_id@,
    ensures
        ({
            let id = plan.plan_id@;
            let kept = plans.insert(id, plan);
            &&& kept.contains_key(id) && kept[id] == plan
            &&& !kept.remove(id).contains_key(id)
            &&& kept.contains_key(other) == plans.contains_key(other)
            &&& kept.remove(id).contains_key(other) == plans.contains_key(other)
            &&& plans.contains_key(other) ==> kept[other] == plans[other] && kept.remove(id)[other]
                == plans[other]
        }),
{
}

/// Whether a removal takes every file of a group.
pub open spec fn takes_all(g: GroupView, removed: Set<Seq<char>>) -> bool {
    forall|k: int| 0 <= k < g.candidates.len() ==> removed.contains(#[trigger] g.candidates[k].path)
}

/// The first of the groups from `i` on of which a removal takes every file.
pub open spec fn emptied_group(groups: Seq<GroupView>, removed: Set<Seq<char>>, i: nat) -> Option<int>
    decreases groups.len() - i,
{
    if i >= groups.len() {
        None
    } else if takes_all(groups[i as int], removed) {
        Some(i as int)
    } else {
        emptied_group(groups, removed, i + 1)
    }
}

/// The files of the first `n` entries, with their sizes, on top of `files`.
pub open spec fn with_entries(files: Map<Seq<char>, i64>, e: Seq<EntryView>, n: nat) -> Map<
    Seq<char>,
    i64,
>
    decreases n,
{
    if n == 0 {
        files
    } else {
        with_entries(files, e, (n - 1) as nat).insert(e[n - 1].path, value_or(e[n - 1].size_bytes, 0))
    }
}

/// The files of the first `n` candidates, with their sizes, on top of `files`.
pub open spec fn with_candidates(files: Map<Seq<char>, i64>, c: Seq<CandidateView>, n: nat) -> Map<
    Seq<char>,
    i64,
>
    decreases n,
{
    if n == 0 {
        files
    } else {
        with_candidates(files, c, (n - 1) as nat).insert(
            c[n - 1].path,
            value_or(c[n - 1].size_bytes, 0),
        )
    }
}

/// The files of the first `n` groups, with their sizes, on top of `files`.
pub open spec fn with_groups(files: Map<Seq<char>, i64>, g: Seq<GroupView>, n: nat) -> Map<
    Seq<char>,
    i64,
>
    decreases n,
{
    if n == 0 {
        files
    } else {
        with_candidates(
            with_groups(files, g, (n - 1) as nat),
            g[n - 1].candidates,
            g[n - 1].candidates.len(),
        )
    }
}

/// The files that a plan lists, with their sizes.
pub open spec fn planned_files(plan: CleanupPlan) -> Map<Seq<char>, i64> {
    let entries = entries_view(plan.ignored_files@);
    let groups = groups_view(plan.duplicate_groups@);
    with_groups(with_entries(Map::empty(), entries, entries.len()), groups, groups.len())
}

/// The folders that a plan lists.
pub open spec fn planned_folders(plan: CleanupPlan) -> Set<Seq<char>> {
    Set::new(
        |p: Seq<char>|
            exists|i: int|
                0 <= i < plan.empty_folders.len() && (#[trigger] plan.empty_folders[i]).path@ == p,
    )
}

/// What may be deleted.
pub struct ApprovedCleanup {
    files: TextMap<i64>,
    folders: TextSet,
}

impl ApprovedCleanup {
    /// The files that may be deleted, with their sizes.
    pub closed spec fn files(self) -> Map<Seq<char>, i64> {
        self.files@
    }

    /// The folders that may be deleted.
    pub closed spec fn folders(self) -> Set<Seq<char>> {
        self.folders@
    }

    /// The size of a file to delete, or the message of the refusal where no plan lists it.
    pub fn check_file(&self, path: &str) -> (size: Result<i64, String>)
        ensures
            match size {
                Ok(n) => self.files().contains_key(path@) && n == self.files()[path@],
                Err(message) => !self.files().contains_key(path@) && message@
                    == "refusing unplanned file deletion: "@ + path@,
            },
    {
        match self.files.get(path) {
            Some(n) => Ok(*n),
            None => Err(text::concat2("refusing unplanned file deletion: ", path)),
        }
    }

    /// Nothing where a folder may be deleted, else the message of the refusal.
    pub fn check_folder(&self, folder: &str) -> (refusal: Option<String>)
        ensures
            match refusal {
                None => self.folders().contains(folder@),
                Some(message) => !self.folders().contains(folder@) && message@
                    == "refusing unplanned folder deletion: "@ + folder@,
            },
    {
        if self.folders.contains(folder) {
            None
        } else {
            Some(text::concat2("refusing unplanned folder deletion: ", folder))
        }
    }
}

/// The paths of a list, as a set.
pub open spec fn path_set(paths: Seq<String>) -> Set<Seq<char>> {
    texts_view(paths).to_set()
}

fn to_set(paths: &Vec<String>) -> (set: TextSet)
    ensures
        set@ == path_set(paths@),
{
    let ghost views = texts_view(paths@);
    let mut set = TextSet::new();
    let mut i: usize = 0;
    while i < paths.len()
        invariant
            i <= paths.len(),
            views == texts_view(paths@),
            forall|p: Seq<char>| #[trigger]
                set@.contains(p) <==> exists|j: int| 0 <= j < i && #[trigger] views[j] == p,
        decreases paths.len() - i,
    {
        set.insert(paths[i].clone());
        assert(views[i as int] == paths[i as int]@);
        i = i + 1;
    }
    assert forall|p: Seq<char>| set@.contains(p) == path_set(paths@).contains(p) by {
        if set@.contains(p) {
            let j = choose|j: int| 0 <= j < views.len() && #[trigger] views[j] == p;
            assert(views.contains(p));
        }
        if views.contains(p) {
            let j = choose|j: int| 0 <= j < views.len() && views[j] == p;
            assert(set@.contains(views[j]));
        }
    }
    assert(set@ =~= path_set(paths@));
    set
}

fn group_is_emptied(group: &CleanupDuplicateGroup, removed: &TextSet) -> (yes: bool)
    ensures
        yes == takes_all(group@, removed@),
{
    let mut k: usize = 0;
    while k < group.candidates.len()
        invariant
            k <= group.candidates.len(),
            forall|j: int|
                0 <= j < k ==> removed@.contains(#[trigger] group@.candidates[j].path),
        decreases group.candidates.len() - k,
    {
        assert(group@.candidates[k as int].path == group.candidates[k as int].path@);
        if !removed.contains(group.candidates[k].path.as_str()) {
            return false;
        }
        k = k + 1;
    }
    true
}

/// What may be deleted by a plan when `remove_paths` are asked to go. The request is refused
/// where it takes every file of a duplicate group.
pub fn approve_cleanup(plan: &CleanupPlan, remove_paths: &Vec<String>) -> (approved: Result<
    ApprovedCleanup,
    String,
>)
    ensures
        match (
            approved,
            emptied_group(groups_view(plan.duplicate_groups@), path_set(remove_paths@), 0),
        ) {
            (Ok(a), None) => a.files() == planned_files(*plan) && a.folders() == planned_folders(
                *plan,
            ),
            (Err(message), Some(g)) => message@
                == "refusing to delete every file in duplicate group "@
                + plan.duplicate_groups[g].id@,
            _ => false,
        },
{
    let ghost groups = groups_view(plan.duplicate_groups@);
    let removed = to_set(remove_paths);
    let mut g: usize = 0;
    while g < plan.duplicate_groups.len()
        invariant
            g <= plan.duplicate_groups.len(),
            groups == groups_view(plan.duplicate_groups@),
            removed@ == path_set(remove_paths@),
            emptied_group(groups, removed@, 0) == emptied_group(groups, removed@, g as nat),
        decreases plan.duplicate_groups.len() - g,
    {
        let group = &plan.duplicate_groups[g];
        assert(groups[g as int] == group@);
        if group_is_emptied(group, &removed) {
            return Err(
                text::concat2(
                    "refusing to delete every file in duplicate group ",
                    group.id.as_str(),
                ),
            );
        }
        g = g + 1;
    }
    let ghost entries = entries_view(plan.ignored_files@);
    let mut files: TextMap<i64> = TextMap::new();
    let mut i: usize = 0;
    while i < plan.ignored_files.len()
        invariant
            i <= plan.ignored_files.len(),
            entries == entries_view(plan.ignored_files@),
            files@ == with_entries(Map::empty(), entries, i as nat),
        decreases plan.ignored_files.len() - i,
    {
        let e = &plan.ignored_files[i];
        assert(entries[i as int] == e@);
        files.insert(e.path.clone(), number_or(e.size_bytes, 0));
        i = i + 1;
    }
    let ghost base = files@;
    let mut g: usize = 0;
    while g < plan.duplicate_groups.len()
        invariant
            g <= plan.duplicate_groups.len(),
            groups == groups_view(plan.duplicate_groups@),
            files@ == with_groups(base, groups, g as nat),
        decreases plan.duplicate_groups.len() - g,
    {
        let group = &plan.duplicate_groups[g];
        assert(groups[g as int] == group@);
        let ghost before = files@;
        let ghost c = group@.candidates;
        let mut k: usize = 0;
        while k < group.candidates.len()
            invariant
                k <= group.candidates.len(),
                c == crate::candidates::candidates_view(group.candidates@),
                files@ == with_candidates(before, c, k as nat),
            decreases group.candidates.len() - k,
        {
            let file = &group.candidates[k];
            assert(c[k as int] == file@);
            files.insert(file.path.clone(), number_or(file.size_bytes, 0));
            k = k + 1;
        }
        g = g + 1;
    }
    let mut folders = TextSet::new();
    let mut i: usize = 0;
    while i < plan.empty_folders.len()
        invariant
            i <= plan.empty_folders.len(),
            forall|p: Seq<char>| #[trigger]
                folders@.contains(p) <==> exists|j: int|
                    0 <= j < i && (#[trigger] plan.empty_folders[j]).path@ == p,
        decreases plan.empty_folders.len() - i,
    {
        folders.insert(plan.empty_folders[i].path.clone());
        i = i + 1;
    }
    assert(folders@ =~= planned_folders(*plan));
    Ok(ApprovedCleanup { files, folders })
}

/// What is done with a file that was asked to go.
pub struct FileDecision {
    pub path: String,
    /// The size of the file, which is to be deleted, or the message of the refusal.
    pub size: Result<i64, String>,
}

/// What is done with a folder that was asked to go.
pub struct FolderDecision {
    pub path: String,
    /// The message of the refusal; the folder is to be deleted where there is none.
    pub refusal: Option<String>,
}

/// Whether a decision on a file is the one that a plan asks for.
pub open spec fn is_file_decision(d: FileDecision, plan: CleanupPlan, path: Seq<char>) -> bool {
    d.path@ == path && match d.size {
        Ok(n) => planned_files(plan).contains_key(path) && n == planned_files(plan)[path],
        Err(message) => !planned_files(plan).contains_key(path) && message@
            == "refusing unplanned file deletion: "@ + path,
    }
}

/// Whether a decision on a folder is the one that a plan asks for.
pub open spec fn is_folder_decision(d: FolderDecision, plan: CleanupPlan, path: Seq<char>) -> bool {
    d.path@ == path && match d.refusal {
        None => planned_folders(plan).contains(path),
        Some(message) => !planned_folders(plan).contains(path) && message@
            == "refusing unplanned folder deletion: "@ + path,
    }
}

/// What is done when a plan is applied: the files in the order asked for, then the folders, the
/// deepest first. The request is refused where it takes every file of a duplicate group.
pub fn decide_cleanup(
    plan: &CleanupPlan,
    remove_paths: &Vec<String>,
    empty_folders: &Vec<String>,
    depths: &Vec<usize>,
) -> (decided: Result<(Vec<FileDecision>, Vec<FolderDecision>), String>)
    requires
        depths.len() == empty_folders.len(),
    ensures
        match (
            decided,
            emptied_group(groups_view(plan.duplicate_groups@), path_set(remove_paths@), 0),
        ) {
            (Ok(d), None) => {
                &&& d.0.len() == remove_paths.len()
                &&& forall|i: int|
                    0 <= i < d.0.len() ==> is_file_decision(
                        #[trigger] d.0[i],
                        *plan,
                        remove_paths[i]@,
                    )
                &&& exists|order: Seq<usize>| #[trigger]
                    is_deepest_first(depths@, order) && d.1.len() == order.len() && forall|i: int|
                        0 <= i < d.1.len() ==> is_folder_decision(
                            #[trigger] d.1[i],
                            *plan,
                            empty_folders[order[i] as int]@,
                        )
            },
            (Err(message), Some(g)) => message@
                == "refusing to delete every file in duplicate group "@
                + plan.duplicate_groups[g].id@,
            _ => false,
        },
{
    let approved = match approve_cleanup(plan, remove_paths) {
        Ok(a) => a,
        Err(e) => {
            return Err(e);
        },
    };
    let mut files: Vec<FileDecision> = Vec::new();
    let mut i: usize = 0;
    while i < remove_paths.len()
        invariant
            i <= remove_paths.len(),
            files.len() == i,
            approved.files() == planned_files(*plan),
            forall|j: int|
                0 <= j < i ==> is_file_decision(#[trigger] files[j], *plan, remove_paths[j]@),
        decreases remove_paths.len() - i,
    {
        let size = approved.check_file(remove_paths[i].as_str());
        files.push(FileDecision { path: remove_paths[i].clone(), size });
        i = i + 1;
    }
    let order = deepest_first(depths);
    let mut folders: Vec<FolderDecision> = Vec::new();
    let mut n: usize = 0;
    while n < order.len()
        invariant
            n <= order.len(),
            folders.len() == n,
            depths.len() == empty_folders.len(),
            is_deepest_first(depths@, order@),
            approved.folders() == planned_folders(*plan),
            forall|j: int|
                0 <= j < n ==> is_folder_decision(
                    #[trigger] folders[j],
                    *plan,
                    empty_folders[order[j] as int]@,
                ),
        decreases order.len() - n,
    {
        let folder = &empty_folders[order[n]];
        let refusal = approved.check_folder(folder.as_str());
        folders.push(FolderDecision { path: folder.clone(), refusal });
        n = n + 1;
    }
    assert(is_deepest_first(depths@, order@));
    Ok((files, folders))
}

/// What a cleanup has deleted, and the messages of what it could not or would not delete.
pub struct ApplyCleanupResult {
    pub files_deleted: usize,
    pub folders_deleted: usize,
    pub bytes_deleted: i64,
    pub rows_marked_missing: usize,
    pub errors: Vec<String>,
}

/// What became of a folder that was to be deleted.
pub enum FolderOutcome {
    Deleted,
    DeleteFailed(String),
    NotEmpty,
    InspectFailed(String),
}

/// What an [`ApplyCleanupResult`] stands for.
pub struct ResultView {
    pub files_deleted: int,
    pub folders_deleted: int,
    pub bytes_deleted: int,
    pub rows_marked_missing: int,
    pub errors: Seq<Seq<char>>,
}

impl View for ApplyCleanupResult {
    type V = ResultView;

    open spec fn view(&self) -> ResultView {
        ResultView {
            files_deleted: self.files_deleted as int,
            folders_deleted: self.folders_deleted as int,
            bytes_deleted: self.bytes_deleted as int,
            rows_marked_missing: self.rows_marked_missing as int,
            errors: texts_view(self.errors@),
        }
    }
}

/// A result before anything was done.
pub open spec fn nothing_done() -> ResultView {
    ResultView {
        files_deleted: 0,
        folders_deleted: 0,
        bytes_deleted: 0,
        rows_marked_missing: 0,
        errors: Seq::empty(),
    }
}

/// A result with one more message.
pub open spec fn with_error(r: ResultView, message: Seq<char>) -> ResultView {
    ResultView { errors: r.errors.push(message), ..r }
}

/// A result after a file of the given size was deleted, or could not be.
pub open spec fn after_file(
    r: ResultView,
    path: Seq<char>,
    size: int,
    outcome: Result<(), String>,
) -> ResultView {
    match outcome {
        Ok(_) => ResultView {
            files_deleted: r.files_deleted + 1,
            bytes_deleted: r.bytes_deleted + size,
            ..r
        },
        Err(e) => with_error(r, "failed to permanently delete "@ + path + ": "@ + e@),
    }
}

/// A result after a folder was deleted, or was not.
pub open spec fn after_folder(
    r: ResultView,
    folder: Seq<char>,
    outcome: FolderOutcome,
) -> ResultView {
    match outcome {
        FolderOutcome::Deleted => ResultView { folders_deleted: r.folders_deleted + 1, ..r },
        FolderOutcome::DeleteFailed(e) => with_error(
            r,
            "failed to permanently delete folder "@ + folder + ": "@ + e@,
        ),
        FolderOutcome::NotEmpty => with_error(
            r,
            "folder not empty after file cleanup: "@ + folder,
        ),
        FolderOutcome::InspectFailed(e) => with_error(
            r,
            "failed to inspect folder "@ + folder + ": "@ + e@,
        ),
    }
}

impl ApplyCleanupResult {
    /// Nothing done yet.
    pub fn new() -> (r: Self)
        ensures
            r@ == nothing_done(),
    {
        let r = ApplyCleanupResult {
            files_deleted: 0,
            folders_deleted: 0,
            bytes_deleted: 0,
            rows_marked_missing: 0,
            errors: Vec::new(),
        };
        assert(r@.errors =~= Seq::empty());
        r
    }

    /// Notes a message. See [`with_error`].
    pub fn note_error(&mut self, message: String)
        ensures
            final(self)@ == with_error(old(self)@, message@),
    {
        let ghost before = texts_view(self.errors@);
        let ghost added = message@;
        self.errors.push(message);
        assert(texts_view(self.errors@) =~= before.push(added));
    }

    /// Notes what became of a file of the given size. See [`after_file`].
    pub fn note_file(&mut self, path: &str, size: i64, outcome: Result<(), String>)
        requires
            old(self).files_deleted < usize::MAX,
            outcome is Ok ==> i64::MIN <= old(self).bytes_deleted + size <= i64::MAX,
        ensures
            final(self)@ == after_file(old(self)@, path@, size as int, outcome),
    {
        match outcome {
            Ok(_) => {
                self.files_deleted = self.files_deleted + 1;
                self.bytes_deleted = self.bytes_deleted + size;
            },
            Err(e) => {
                let mut message = text::concat3("failed to permanently delete ", path, ": ");
                message.append(e.as_str());
                self.note_error(message);
            },
        }
    }

    /// Notes what became of a folder. See [`after_folder`].
    pub fn note_folder(&mut self, folder: &str, outcome: FolderOutcome)
        requires
            old(self).folders_deleted < usize::MAX,
        ensures
            final(self)@ == after_folder(old(self)@, folder@, outcome),
    {
        match outcome {
            FolderOutcome::Deleted => {
                self.folders_deleted = self.folders_deleted + 1;
            },
            FolderOutcome::DeleteFailed(e) => {
                let mut m = text::concat3("failed to permanently delete folder ", folder, ": ");
                m.append(e.as_str());
                self.note_error(m);
            },
            FolderOutcome::NotEmpty => {
                let m = text::concat2("folder not empty after file cleanup: ", folder);
                self.note_error(m);
            },
            FolderOutcome::InspectFailed(e) => {
                let mut m = text::concat3("failed to inspect folder ", folder, ": ");
                m.append(e.as_str());
                self.note_error(m);
            },
        }
    }

    /// Notes that a file's catalog rows were marked missing, by how many there were.
    pub fn note_marked(&mut self, rows: usize)
        requires
            old(self).rows_marked_missing < usize::MAX,
        ensures
            final(self)@ == (ResultView {
                rows_marked_missing: old(self)@.rows_marked_missing + (if rows > 0 {
                    1int
                } else {
                    0int
                }),
                ..old(self)@
            }),
    {
        if rows > 0 {
            self.rows_marked_missing = self.rows_marked_missing + 1;
        }
    }
}

/// A result after the first `n` decisions on files, each with what came of the deletion where the
/// file was to be deleted.
pub open spec fn after_decisions(
    r: ResultView,
    files: Seq<FileDecision>,
    outcomes: Seq<Result<(), String>>,
    n: nat,
) -> ResultView
    decreases n,
{
    if n == 0 {
        r
    } else {
        let before = after_decisions(r, files, outcomes, (n - 1) as nat);
        match files[n - 1].size {
            Ok(size) => after_file(before, files[n - 1].path@, size as int, outcomes[n - 1]),
            Err(refusal) => with_error(before, refusal@),
        }
    }
}

/// Whether a path asked to go is deleted: the plan lists it, and the deletion succeeds.
pub open spec fn is_deleted(
    plan: CleanupPlan,
    path: Seq<char>,
    outcome: Result<(), String>,
) -> bool {
    planned_files(plan).contains_key(path) && outcome is Ok
}

/// How many of the first `n` paths are deleted.
pub open spec fn deleted_count(
    plan: CleanupPlan,
    paths: Seq<Seq<char>>,
    outcomes: Seq<Result<(), String>>,
    n: nat,
) -> nat
    decreases n,
{
    if n == 0 {
        0
    } else {
        deleted_count(plan, paths, outcomes, (n - 1) as nat) + if is_deleted(
            plan,
            paths[n - 1],
            outcomes[n - 1],
        ) {
            1nat
        } else {
            0nat
        }
    }
}

/// The sizes that a plan gives the deleted ones of the first `n` paths, together.
pub open spec fn deleted_size(
    plan: CleanupPlan,
    paths: Seq<Seq<char>>,
    outcomes: Seq<Result<(), String>>,
    n: nat,
) -> int
    decreases n,
{
    if n == 0 {
        0
    } else {
        deleted_size(plan, paths, outcomes, (n - 1) as nat) + if is_deleted(
            plan,
            paths[n - 1],
            outcomes[n - 1],
        ) {
            planned_files(plan)[paths[n - 1]] as int
        } else {
            0int
        }
    }
}

/// Each path asked to go is deleted or gives one message: when the files are dealt with, those
/// deleted are counted with the sizes that the plan gives them, and every other path has left one
/// message.
pub proof fn every_file_is_deleted_or_reported(
    plan: CleanupPlan,
    remove_paths: Seq<String>,
    files: Seq<FileDecision>,
    outcomes: Seq<Result<(), String>>,
    n: nat,
)
    requires
        n <= files.len(),
        files.len() == remove_paths.len(),
        forall|i: int|
            0 <= i < files.len() ==> is_file_decision(#[trigger] files[i], plan, remove_paths[i]@),
    ensures
        ({
            let r = after_decisions(nothing_done(), files, outcomes, n);
            let deleted = deleted_count(plan, texts_view(remove_paths), outcomes, n);
            &&& r.files_deleted == deleted
            &&& r.bytes_deleted == deleted_size(plan, texts_view(remove_paths), outcomes, n)
            &&& r.errors.len() == n - deleted
            &&& r.folders_deleted == 0
            &&& r.rows_marked_missing == 0
        }),
    decreases n,
{
    if n > 0 {
        every_file_is_deleted_or_reported(plan, remove_paths, files, outcomes, (n - 1) as nat);
        assert(is_file_decision(files[n - 1], plan, remove_paths[n - 1]@));
        assert(texts_view(remove_paths)[n - 1] == remove_paths[n - 1]@);
    }
}

/// A result after the first `n` decisions on folders, each with what came of the deletion where
/// the folder was to be deleted.
pub open spec fn after_folder_decisions(
    r: ResultView,
    folders: Seq<FolderDecision>,
    outcomes: Seq<FolderOutcome>,
    n: nat,
) -> ResultView
    decreases n,
{
    if n == 0 {
        r
    } else {
        let before = after_folder_decisions(r, folders, outcomes, (n - 1) as nat);
        match folders[n - 1].refusal {
            None => after_folder(before, folders[n - 1].path@, outcomes[n - 1]),
            Some(refusal) => with_error(before, refusal@),
        }
    }
}

/// Each folder asked to go is deleted or gives one message, and no file is counted for it.
pub proof fn every_folder_is_deleted_or_reported(
    r: ResultView,
    folders: Seq<FolderDecision>,
    outcomes: Seq<FolderOutcome>,
    n: nat,
)
    requires
        n <= folders.len(),
    ensures
        ({
            let after = after_folder_decisions(r, folders, outcomes, n);
            &&& after.folders_deleted >= r.folders_deleted
            &&& after.errors.len() >= r.errors.len()
            &&& (after.folders_deleted - r.folders_deleted) + (after.errors.len() - r.errors.len())
                == n
            &&& after.files_deleted == r.files_deleted
            &&& after.bytes_deleted == r.bytes_deleted
            &&& after.rows_marked_missing == r.rows_marked_missing
        }),
    decreases n,
{
    if n > 0 {
        every_folder_is_deleted_or_reported(r, folders, outcomes, (n - 1) as nat);
    }
}

proof fn lemma_no_emptied_group(groups: Seq<GroupView>, removed: Set<Seq<char>>, i: nat, g: int)
    requires
        emptied_group(groups, removed, i) is None,
        i <= g < groups.len(),
    ensures
        !takes_all(groups[g], removed),
    decreases groups.len() - i,
{
    if i < g {
        lemma_no_emptied_group(groups, removed, i + 1, g);
    }
}

/// A request that is not refused leaves a file of every duplicate group in place.
pub proof fn approved_removal_spares_every_group(
    groups: Seq<GroupView>,
    removed: Set<Seq<char>>,
    g: int,
)
    requires
        emptied_group(groups, removed, 0) is None,
        0 <= g < groups.len(),
    ensures
        exists|k: int|
            0 <= k < groups[g].candidates.len() && !removed.contains(
                #[trigger] groups[g].candidates[k].path,
            ),
{
    lemma_no_emptied_group(groups, removed, 0, g);
}

/// Applying a plan never deletes every file of a duplicate group: each group has a file on which
/// there is no decision at all.
pub proof fn decided_deletions_spare_every_group(
    plan: CleanupPlan,
    remove_paths: Seq<String>,
    files: Seq<FileDecision>,
    g: int,
)
    requires
        emptied_group(groups_view(plan.duplicate_groups@), path_set(remove_paths), 0) is None,
        files.len() == remove_paths.len(),
        forall|i: int|
            0 <= i < files.len() ==> is_file_decision(#[trigger] files[i], plan, remove_paths[i]@),
        0 <= g < plan.duplicate_groups.len(),
    ensures
        exists|k: int|
            0 <= k < plan.duplicate_groups[g].candidates.len() && forall|i: int|
                0 <= i < files.len() ==> (#[trigger] files[i]).path@ != (
                #[trigger] plan.duplicate_groups[g].candidates[k]).path@,
{
    let groups = groups_view(plan.duplicate_groups@);
    let removed = path_set(remove_paths);
    approved_removal_spares_every_group(groups, removed, g);
    let k = choose|k: int|
        0 <= k < groups[g].candidates.len() && !removed.contains(
            #[trigger] groups[g].candidates[k].path,
        );
    assert(groups[g].candidates[k].path == plan.duplicate_groups[g].candidates[k].path@);
    assert forall|i: int| 0 <= i < files.len() implies (#[trigger] files[i]).path@
        != plan.duplicate_groups[g].candidates[k].path@ by {
        assert(is_file_decision(files[i], plan, remove_paths[i]@));
        assert(texts_view(remove_paths)[i] == remove_paths[i]@);
        assert(texts_view(remove_paths).contains(remove_paths[i]@));
    }
}

/// A request that would take every file of some duplicate group is refused.
pub proof fn removal_of_a_whole_group_is_refused(
    groups: Seq<GroupView>,
    removed: Set<Seq<char>>,
    g: int,
)
    requires
        0 <= g < groups.len(),
        takes_all(groups[g], removed),
    ensures
        emptied_group(groups, removed, 0) is Some,
{
    if emptied_group(groups, removed, 0) is None {
        lemma_no_emptied_group(groups, removed, 0, g);
    }
}

/// Whether a plan lists a file: as ignored, or as a candidate of a duplicate group.
pub open spec fn lists_file(plan: CleanupPlan, path: Seq<char>) -> bool {
    ||| exists|i: int|
        0 <= i < plan.ignored_files.len() && (#[trigger] plan.ignored_files[i]).path@ == path
    ||| exists|g: int, k: int|
        0 <= g < plan.duplicate_groups.len() && 0 <= k < plan.duplicate_groups[g].candidates.len()
            && (#[trigger] plan.duplicate_groups[g].candidates[k]).path@ == path
}

proof fn lemma_with_entries(files: Map<Seq<char>, i64>, e: Seq<EntryView>, n: nat, p: Seq<char>)
    requires
        n <= e.len(),
    ensures
        with_entries(files, e, n).contains_key(p) <==> files.contains_key(p) || exists|i: int|
            0 <= i < n && (#[trigger] e[i]).path == p,
    decreases n,
{
    if n > 0 {
        lemma_with_entries(files, e, (n - 1) as nat, p);
        if e[n - 1].path == p {
            assert(with_entries(files, e, n).contains_key(p));
        }
    }
}

proof fn lemma_with_candidates(
    files: Map<Seq<char>, i64>,
    c: Seq<CandidateView>,
    n: nat,
    p: Seq<char>,
)
    requires
        n <= c.len(),
    ensures
        with_candidates(files, c, n).contains_key(p) <==> files.contains_key(p) || exists|i: int|
            0 <= i < n && (#[trigger] c[i]).path == p,
    decreases n,
{
    if n > 0 {
        lemma_with_candidates(files, c, (n - 1) as nat, p);
        if c[n - 1].path == p {
            assert(with_candidates(files, c, n).contains_key(p));
        }
    }
}

proof fn lemma_with_groups(files: Map<Seq<char>, i64>, g: Seq<GroupView>, n: nat, p: Seq<char>)
    requires
        n <= g.len(),
    ensures
        with_groups(files, g, n).contains_key(p) <==> files.contains_key(p) || exists|i: int, k: int|
            0 <= i < n && 0 <= k < g[i].candidates.len() && (#[trigger] g[i].candidates[k]).path
                == p,
    decreases n,
{
    if n > 0 {
        lemma_with_groups(files, g, (n - 1) as nat, p);
        let c = g[n - 1].candidates;
        lemma_with_candidates(with_groups(files, g, (n - 1) as nat), c, c.len(), p);
        if exists|k: int| 0 <= k < c.len() && (#[trigger] c[k]).path == p {
            let k = choose|k: int| 0 <= k < c.len() && (#[trigger] c[k]).path == p;
            assert(g[n - 1].candidates[k].path == p);
        }
    }
}

/// A file may be deleted exactly where the plan lists it.
pub proof fn only_listed_files_are_approved(plan: CleanupPlan, path: Seq<char>)
    ensures
        planned_files(plan).contains_key(path) <==> lists_file(plan, path),
{
    let entries = entries_view(plan.ignored_files@);
    let groups = groups_view(plan.duplicate_groups@);
    let base = with_entries(Map::empty(), entries, entries.len());
    lemma_with_entries(Map::empty(), entries, entries.len(), path);
    lemma_with_groups(base, groups, groups.len(), path);
    if exists|i: int| 0 <= i < entries.len() && (#[trigger] entries[i]).path == path {
        let i = choose|i: int| 0 <= i < entries.len() && (#[trigger] entries[i]).path == path;
        assert(plan.ignored_files[i].path@ == path);
    }
    if exists|i: int|
        0 <= i < plan.ignored_files.len() && (#[trigger] plan.ignored_files[i]).path@ == path {
        let i = choose|i: int|
            0 <= i < plan.ignored_files.len() && (#[trigger] plan.ignored_files[i]).path@ == path;
        assert(entries[i].path == path);
    }
    if exists|i: int, k: int|
        0 <= i < groups.len() && 0 <= k < groups[i].candidates.len()
            && (#[trigger] groups[i].candidates[k]).path == path {
        let (i, k) = choose|i: int, k: int|
            0 <= i < groups.len() && 0 <= k < groups[i].candidates.len()
                && (#[trigger] groups[i].candidates[k]).path == path;
        assert(plan.duplicate_groups[i].candidates[k].path@ == path);
    }
    if exists|g: int, k: int|
        0 <= g < plan.duplicate_groups.len() && 0 <= k < plan.duplicate_groups[g].candidates.len()
            && (#[trigger] plan.duplicate_groups[g].candidates[k]).path@ == path {
        let (g, k) = choose|g: int, k: int|
            0 <= g < plan.duplicate_groups.len() && 0 <= k
                < plan.duplicate_groups[g].candidates.len() && (#[trigger] plan.duplicate_groups[
                g
            ].candidates[k]).path@ == path;
        assert(groups[g].candidates[k].path == path);
    }
}

/// How much of the chosen images the cleanup cache covers.
pub struct CacheCoverage {
    pub images: usize,
    pub exact: usize,
    pub visual: usize,
    pub complete: usize,
    pub uncached_exact: usize,
    pub uncached_visual: usize,
    pub stale: usize,
}

/// Whether the cache holds an entry of the item's file as it is.
pub open spec fn is_fresh(cache: Map<Seq<char>, CleanupFileCache>, item: MediaItem) -> bool {
    cache.contains_key(item.path@) && cache_matches(cache[item.path@], item)
}

/// Whether the cache holds an entry of the item's file as it was.
pub open spec fn is_stale(cache: Map<Seq<char>, CleanupFileCache>, item: MediaItem) -> bool {
    cache.contains_key(item.path@) && !cache_matches(cache[item.path@], item)
}

/// Whether the cache holds the hash of the item's file.
pub open spec fn has_exact(cache: Map<Seq<char>, CleanupFileCache>, item: MediaItem) -> bool {
    is_fresh(cache, item) && cache[item.path@].sha256 is Some
}

/// Whether the cache holds the whole fingerprint of the item's file.
pub open spec fn has_visual(cache: Map<Seq<char>, CleanupFileCache>, item: MediaItem) -> bool {
    let e = cache[item.path@];
    is_fresh(cache, item) && e.width is Some && e.height is Some && e.ahash is Some && e.dhash is Some
        && e.phash is Some
}

/// The number of items with a property.
pub open spec fn count(items: Seq<MediaItem>, p: spec_fn(MediaItem) -> bool) -> nat
    decreases items.len(),
{
    if items.len() == 0 {
        0
    } else {
        count(items.drop_last(), p) + (if p(items.last()) {
            1nat
        } else {
            0nat
        })
    }
}

/// Counts how much of the images the cache covers.
pub fn cache_coverage(items: &Vec<MediaItem>, cache: &TextMap<CleanupFileCache>) -> (c: CacheCoverage)
    ensures
        c.images == items.len(),
        c.exact == count(items@, |i: MediaItem| has_exact(cache@, i)),
        c.visual == count(items@, |i: MediaItem| has_visual(cache@, i)),
        c.complete == count(items@, |i: MediaItem| has_exact(cache@, i) && has_visual(cache@, i)),
        c.uncached_exact == items.len() - c.exact,
        c.uncached_visual == items.len() - c.visual,
        c.stale == count(items@, |i: MediaItem| is_stale(cache@, i)),
{
    let ghost pe = |i: MediaItem| has_exact(cache@, i);
    let ghost pv = |i: MediaItem| has_visual(cache@, i);
    let ghost pc = |i: MediaItem| has_exact(cache@, i) && has_visual(cache@, i);
    let ghost ps = |i: MediaItem| is_stale(cache@, i);
    let mut exact: usize = 0;
    let mut visual: usize = 0;
    let mut complete: usize = 0;
    let mut stale: usize = 0;
    let mut n: usize = 0;
    assert(items@.take(0) =~= Seq::empty());
    while n < items.len()
        invariant
            n <= items.len(),
            pe == (|i: MediaItem| has_exact(cache@, i)),
            pv == (|i: MediaItem| has_visual(cache@, i)),
            pc == (|i: MediaItem| has_exact(cache@, i) && has_visual(cache@, i)),
            ps == (|i: MediaItem| is_stale(cache@, i)),
            exact <= n,
            visual <= n,
            complete <= n,
            stale <= n,
            exact == count(items@.take(n as int), pe),
            visual == count(items@.take(n as int), pv),
            complete == count(items@.take(n as int), pc),
            stale == count(items@.take(n as int), ps),
        decreases items.len() - n,
    {
        let item = &items[n];
        assert(items@.take(n + 1).drop_last() =~= items@.take(n as int));
        assert(items@.take(n + 1).last() == *item);
        if let Some(e) = cache.get(item.path.as_str()) {
            if cache_matches_media(e, item) {
                let has_hash = e.sha256.is_some();
                let has_fingerprint = e.width.is_some() && e.height.is_some() && e.ahash.is_some()
                    && e.dhash.is_some() && e.phash.is_some();
                if has_hash {
                    exact = exact + 1;
                }
                if has_fingerprint {
                    visual = visual + 1;
                }
                if has_hash && has_fingerprint {
                    complete = complete + 1;
                }
            } else {
                stale = stale + 1;
            }
        }
        n = n + 1;
    }
    assert(items@.take(items@.len() as int) =~= items@);
    CacheCoverage {
        images: items.len(),
        exact,
        visual,
        complete,
        uncached_exact: items.len() - exact,
        uncached_visual: items.len() - visual,
        stale,
    }
}

} // verus!
