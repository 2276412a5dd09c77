use rich_media_viewer::candidates::{
    choose_cleanup_keeper, cleanup_candidate_from_media, cleanup_date, cleanup_pixels,
    CleanupCandidate, MediaItem,
};
use rich_media_viewer::cleanup::{
    approve_cleanup, assemble_plan, cache_coverage, cleanup_plan_id, decide_cleanup, deepest_first,
    find_empty_folders, ignored_entry, requested_roots, selected_totals, ApplyCleanupResult,
    CleanupEntry, CleanupPlan, CleanupPlans, FolderOutcome, IgnoredAction, InspectedFolder,
};
use rich_media_viewer::collections::TextMap;
use rich_media_viewer::exact::{
    cache_matches_media, exact_duplicate_groups, split_by_cached_hash, CleanupDuplicateGroup,
    CleanupFileCache, HashGroups,
};
use rich_media_viewer::ignored::IgnoredSearch;

fn candidate(
    path: &str,
    captured_at: Option<i64>,
    modified_at: Option<i64>,
    pixels: i64,
) -> CleanupCandidate {
    CleanupCandidate {
        path: path.into(),
        display_path: None,
        file_name: path.into(),
        size_bytes: Some(1),
        created_at: None,
        modified_at,
        captured_at,
        width: Some(pixels),
        height: Some(1),
    }
}

fn media(id: i64, path: &str, size: i64) -> MediaItem {
    MediaItem {
        id,
        path: path.to_string(),
        display_path: None,
        file_name: path.to_string(),
        size_bytes: Some(size),
        created_at: Some(id),
        modified_at: Some(100 + id),
        captured_at: None,
    }
}

fn cached(item: &MediaItem, sha256: Option<&str>, ahash: Option<&str>) -> CleanupFileCache {
    CleanupFileCache {
        size_bytes: item.size_bytes,
        modified_at: item.modified_at,
        sha256: sha256.map(|s| s.to_string()),
        width: ahash.map(|_| 10),
        height: ahash.map(|_| 20),
        ahash: ahash.map(|s| s.to_string()),
        dhash: ahash.map(|s| s.to_string()),
        phash: ahash.map(|s| s.to_string()),
    }
}

fn entry(path: &str, size: Option<i64>) -> CleanupEntry {
    CleanupEntry { path: path.to_string(), size_bytes: size, reason: "r".to_string() }
}

fn group(id: &str, keep: &str, candidates: Vec<CleanupCandidate>) -> CleanupDuplicateGroup {
    CleanupDuplicateGroup {
        id: id.to_string(),
        kind: "exact-image".to_string(),
        reason: "r".to_string(),
        score: Some(0),
        default_keep_path: keep.to_string(),
        candidates,
    }
}

fn plan() -> CleanupPlan {
    assemble_plan(
        "cleanup-1".to_string(),
        vec![entry("/p/.x", Some(5)), entry("/p/.y", None)],
        vec![entry("/p/empty", None)],
        vec![group(
            "exact-1",
            "/p/a.jpg",
            vec![
                candidate("/p/a.jpg", Some(1), None, 1),
                candidate("/p/b.jpg", Some(2), None, 1),
                candidate("/p/c.jpg", Some(3), None, 1),
            ],
        )],
        vec!["oops".to_string()],
    )
}

fn texts(list: &[&str]) -> Vec<String> {
    list.iter().map(|s| s.to_string()).collect()
}

#[test]
fn cleanup_keeper_prefers_earliest_date_before_resolution() {
    let candidates = vec![
        candidate("large-later.jpg", Some(20), None, 4000),
        candidate("small-earlier.jpg", Some(10), None, 1000),
    ];
    assert_eq!(
        choose_cleanup_keeper(&candidates).as_deref(),
        Some("small-earlier.jpg")
    );
}

#[test]
fn cleanup_keeper_uses_resolution_as_date_tiebreaker() {
    let candidates = vec![
        candidate("small.jpg", Some(10), None, 1000),
        candidate("large.jpg", Some(10), None, 4000),
    ];
    assert_eq!(
        choose_cleanup_keeper(&candidates).as_deref(),
        Some("large.jpg")
    );
}

#[test]
fn keeper_falls_back_to_size_and_path() {
    let mut big = candidate("z.jpg", Some(10), None, 5);
    big.size_bytes = Some(9);
    assert_eq!(
        choose_cleanup_keeper(&[candidate("a.jpg", Some(10), None, 5), big]).as_deref(),
        Some("z.jpg")
    );
    let same = [candidate("b.jpg", None, Some(4), 5), candidate("a.jpg", None, Some(4), 5)];
    assert_eq!(choose_cleanup_keeper(&same).as_deref(), Some("a.jpg"));
    assert_eq!(choose_cleanup_keeper(&[]), None);
}

#[test]
fn dates_and_pixels_of_a_candidate() {
    let mut c = candidate("a", None, None, 7);
    assert_eq!(cleanup_date(&c), i64::MAX);
    c.created_at = Some(3);
    assert_eq!(cleanup_date(&c), 3);
    c.modified_at = Some(2);
    assert_eq!(cleanup_date(&c), 2);
    c.captured_at = Some(1);
    assert_eq!(cleanup_date(&c), 1);
    assert_eq!(cleanup_pixels(&c), 7);
    c.width = Some(i64::MAX);
    c.height = Some(2);
    assert_eq!(cleanup_pixels(&c), i64::MAX);
    c.height = Some(-2);
    assert_eq!(cleanup_pixels(&c), i64::MIN);
    c.height = None;
    assert_eq!(cleanup_pixels(&c), 0);
    let made = cleanup_candidate_from_media(&media(4, "/m.jpg", 8));
    assert_eq!((made.path.as_str(), made.size_bytes, made.width), ("/m.jpg", Some(8), None));
    assert_eq!((made.created_at, made.modified_at), (Some(4), Some(104)));
}

#[test]
fn keeper_is_the_best_copy() {
    let copies = [
        candidate("c.jpg", Some(5), None, 10),
        candidate("a.jpg", Some(5), None, 20),
        candidate("b.jpg", Some(5), None, 20),
        candidate("d.jpg", Some(6), None, 90),
    ];
    assert_eq!(choose_cleanup_keeper(&copies).as_deref(), Some("a.jpg"));
}

#[test]
fn cached_hashes_group_files_and_the_rest_is_pending() {
    let items = vec![media(1, "/a", 10), media(2, "/b", 10), media(3, "/c", 10), media(4, "/d", 10)];
    let mut cache: TextMap<CleanupFileCache> = TextMap::new();
    cache.insert("/a".to_string(), cached(&items[0], Some("h1"), None));
    let mut stale = cached(&items[1], Some("h1"), None);
    stale.modified_at = Some(0);
    assert!(!cache_matches_media(&stale, &items[1]));
    cache.insert("/b".to_string(), stale);
    cache.insert("/c".to_string(), cached(&items[2], Some("h1"), None));
    cache.insert("/d".to_string(), cached(&items[3], None, Some("ff")));
    let (groups, pending) = split_by_cached_hash(&items, &cache);
    assert_eq!(pending, vec![1, 3]);
    let (found, paths) = exact_duplicate_groups(groups);
    assert_eq!(found.len(), 1);
    assert_eq!(found[0].id, "exact-1");
    assert_eq!(found[0].kind, "exact-image");
    assert_eq!(found[0].reason, "Byte-identical image file hash");
    assert_eq!(found[0].score, Some(0));
    assert_eq!(found[0].default_keep_path, "/a");
    assert!(paths.contains("/a") && paths.contains("/c") && !paths.contains("/b"));
}

#[test]
fn exact_groups_have_two_files_at_least() {
    let mut by_hash = HashGroups::new();
    by_hash.insert("h1".to_string(), candidate("/1", Some(1), None, 1));
    by_hash.insert("h2".to_string(), candidate("/2", Some(2), None, 1));
    by_hash.insert("h3".to_string(), candidate("/3", Some(9), None, 1));
    by_hash.insert("h3".to_string(), candidate("/4", Some(4), None, 1));
    by_hash.insert("h1".to_string(), candidate("/5", Some(5), None, 1));
    let (found, _) = exact_duplicate_groups(by_hash);
    let ids: Vec<(&str, usize, &str)> = found
        .iter()
        .map(|g| (g.id.as_str(), g.candidates.len(), g.default_keep_path.as_str()))
        .collect();
    assert_eq!(ids, vec![("exact-1", 2, "/1"), ("exact-2", 2, "/4")]);
}

#[test]
fn roots_are_those_asked_for_or_none() {
    assert_eq!(requested_roots(Some(texts(&["/a"]))), Some(texts(&["/a"])));
    assert_eq!(requested_roots(Some(Vec::new())), None);
    assert_eq!(requested_roots(None), None);
}

#[test]
fn deepest_folders_come_first_and_keep_their_order() {
    assert_eq!(deepest_first(&vec![2, 5, 3, 5, 1]), vec![1, 3, 2, 0, 4]);
    assert_eq!(deepest_first(&Vec::new()), Vec::<usize>::new());
}

#[test]
fn empty_folders_are_found_and_errors_noted() {
    let folder = |path: &str, is_root: bool, contents: Result<bool, String>| InspectedFolder {
        path: path.to_string(),
        is_root,
        contents,
    };
    let (found, errors) = find_empty_folders(&vec![
        folder(r"\\?\C:\r\x", false, Ok(true)),
        folder("/r/y", false, Ok(false)),
        folder("/r/z", false, Err("denied".to_string())),
        folder("/r", true, Ok(true)),
    ]);
    assert_eq!(found.len(), 1);
    assert_eq!(found[0].path, r"C:\r\x");
    assert_eq!(found[0].reason, "Empty folder");
    assert_eq!(found[0].size_bytes, None);
    assert_eq!(errors, texts(&["failed to inspect /r/z: denied"]));
}

#[test]
fn ignored_files_are_listed_with_their_reason() {
    let e = ignored_entry(r"\\?\C:\x", Some(4), IgnoredAction::ListBelow);
    assert_eq!(e.path, r"C:\x");
    assert_eq!(e.reason, "Inside folder ignored by indexing rules");
    let mut search = IgnoredSearch::new();
    search.list("/a", Some(1), IgnoredAction::ListFile);
    search.list("/b", None, IgnoredAction::ListFaceTile);
    search.note_unreadable("/c", "denied");
    assert_eq!(search.entries[0].reason, "Ignored by indexing rules");
    assert_eq!(search.entries[1].reason, "Facetile image ignored by indexing rules");
    assert_eq!(search.errors, texts(&["failed to read /c: denied"]));
    let mut shown = Vec::new();
    for n in 1..=1000usize {
        if search.enter_folder() {
            shown.push(n);
        }
    }
    assert_eq!(shown, vec![500, 1000]);
    search.start_root();
    assert_eq!(search.visited, 0);
    assert_eq!(search.entries.len(), 2);
}

#[test]
fn totals_count_spare_copies_and_ignored_files() {
    let p = plan();
    assert_eq!(p.totals.ignored_files, 2);
    assert_eq!(p.totals.empty_folders, 1);
    assert_eq!(p.totals.duplicate_groups, 1);
    assert_eq!(p.totals.duplicate_files, 2);
    assert_eq!(p.totals.selected_files, 4);
    assert_eq!(p.totals.selected_folders, 1);
    assert_eq!(p.totals.selected_bytes, 7);
    assert_eq!(p.totals.errors, 1);
    assert_eq!(p.plan_id, "cleanup-1");
}

#[test]
fn totals_out_of_range_are_noticed() {
    let huge = vec![entry("/1", Some(i64::MAX)), entry("/2", Some(1))];
    assert_eq!(selected_totals(&huge, &Vec::new()), None);
    assert_eq!(selected_totals(&vec![entry("/1", Some(3))], &Vec::new()), Some((0, 3)));
}

#[test]
fn plans_are_kept_until_cancelled() {
    assert_eq!(cleanup_plan_id(1700000000123), "cleanup-1700000000123");
    let mut plans = CleanupPlans::new();
    plans.keep(plan());
    assert_eq!(plans.find("cleanup-1").ok().map(|p| p.duplicate_groups.len()), Some(1));
    assert_eq!(
        plans.find("cleanup-2").err().as_deref(),
        Some("cleanup plan expired; generate a new plan")
    );
    plans.cancel_cleanup_plan("cleanup-1");
    assert!(plans.find("cleanup-1").is_err());
    plans.cancel_cleanup_plan("cleanup-1");
}

#[test]
fn removal_of_a_whole_group_is_refused_before_anything_is_deleted() {
    let p = plan();
    let all = texts(&["/p/c.jpg", "/p/a.jpg", "/p/b.jpg"]);
    assert_eq!(
        approve_cleanup(&p, &all).err().as_deref(),
        Some("refusing to delete every file in duplicate group exact-1")
    );
    assert!(approve_cleanup(&p, &texts(&["/p/a.jpg", "/p/b.jpg"])).is_ok());
}

#[test]
fn only_planned_files_and_folders_are_approved() {
    let p = plan();
    let approved = approve_cleanup(&p, &texts(&["/p/b.jpg"])).ok().unwrap();
    assert_eq!(approved.check_file("/p/b.jpg"), Ok(1));
    assert_eq!(approved.check_file("/p/.x"), Ok(5));
    assert_eq!(approved.check_file("/p/.y"), Ok(0));
    assert_eq!(
        approved.check_file("/etc/passwd"),
        Err("refusing unplanned file deletion: /etc/passwd".to_string())
    );
    assert_eq!(approved.check_folder("/p/empty"), None);
    assert_eq!(
        approved.check_folder("/p").as_deref(),
        Some("refusing unplanned folder deletion: /p")
    );
}

#[test]
fn outcome_of_an_applied_cleanup_is_counted() {
    let mut r = ApplyCleanupResult::new();
    r.note_file("/a", 5, Ok(()));
    r.note_file("/b", 7, Err("busy".to_string()));
    r.note_error("refused".to_string());
    r.note_folder("/f", FolderOutcome::Deleted);
    r.note_folder("/g", FolderOutcome::DeleteFailed("x".to_string()));
    r.note_folder("/h", FolderOutcome::NotEmpty);
    r.note_folder("/i", FolderOutcome::InspectFailed("y".to_string()));
    r.note_marked(1);
    r.note_marked(0);
    assert_eq!((r.files_deleted, r.folders_deleted, r.bytes_deleted), (1, 1, 5));
    assert_eq!(r.rows_marked_missing, 1);
    assert_eq!(
        r.errors,
        texts(&[
            "failed to permanently delete /b: busy",
            "refused",
            "failed to permanently delete folder /g: x",
            "folder not empty after file cleanup: /h",
            "failed to inspect folder /i: y",
        ])
    );
}

#[test]
fn every_path_asked_to_go_is_deleted_or_reported() {
    let p = plan();
    let planned = p.ignored_files[0].path.clone();
    let size = p.ignored_files[0].size_bytes.unwrap_or(0);
    let other = p.ignored_files[1].path.clone();
    let asked = vec![planned, "/unplanned".to_string(), other];
    let (files, _) = decide_cleanup(&p, &asked, &Vec::new(), &Vec::new()).ok().unwrap();
    let outcomes = [Ok(()), Ok(()), Err("busy".to_string())];
    let mut r = ApplyCleanupResult::new();
    for (d, outcome) in files.iter().zip(outcomes) {
        match &d.size {
            Ok(n) => r.note_file(&d.path, *n, outcome),
            Err(refusal) => r.note_error(refusal.clone()),
        }
    }
    assert_eq!((r.files_deleted, r.bytes_deleted), (1, size));
    assert_eq!(r.errors.len(), 2);
}

#[test]
fn files_share_a_group_exactly_where_hashes_agree() {
    let mut by_hash = HashGroups::new();
    let hashes = ["x", "y", "x", "z", "y", "x"];
    for (i, h) in hashes.iter().enumerate() {
        let item = media(i as i64, &format!("/{i}"), 1);
        by_hash.insert(h.to_string(), cleanup_candidate_from_media(&item));
    }
    let (groups, _) = exact_duplicate_groups(by_hash);
    for i in 0..hashes.len() {
        for j in 0..i {
            let holds = |g: &CleanupDuplicateGroup, n: usize| {
                g.candidates.iter().any(|c| c.path == format!("/{n}"))
            };
            let shared = groups.iter().any(|g| holds(g, i) && holds(g, j));
            assert_eq!(shared, hashes[i] == hashes[j]);
        }
    }
}

#[test]
fn cache_coverage_counts_fresh_and_stale_entries() {
    let items = vec![media(1, "/a", 1), media(2, "/b", 2), media(3, "/c", 3), media(4, "/d", 4)];
    let mut cache: TextMap<CleanupFileCache> = TextMap::new();
    cache.insert("/a".to_string(), cached(&items[0], Some("h"), Some("ff")));
    cache.insert("/b".to_string(), cached(&items[1], Some("h"), None));
    let mut stale = cached(&items[2], Some("h"), Some("ff"));
    stale.size_bytes = Some(99);
    cache.insert("/c".to_string(), stale);
    let c = cache_coverage(&items, &cache);
    assert_eq!((c.images, c.exact, c.visual, c.complete), (4, 2, 1, 1));
    assert_eq!((c.uncached_exact, c.uncached_visual, c.stale), (2, 3, 1));
}

#[test]
fn decisions_follow_the_plan_and_spare_a_copy() {
    let p = plan();
    let (files, folders) = decide_cleanup(
        &p,
        &texts(&["/p/c.jpg", "/other", "/p/.x"]),
        &texts(&["/p", "/p/empty"]),
        &vec![2, 3],
    )
    .ok()
    .unwrap();
    let sizes: Vec<(&str, Option<i64>)> =
        files.iter().map(|f| (f.path.as_str(), f.size.as_ref().ok().copied())).collect();
    assert_eq!(sizes, vec![("/p/c.jpg", Some(1)), ("/other", None), ("/p/.x", Some(5))]);
    assert_eq!(
        files[1].size,
        Err("refusing unplanned file deletion: /other".to_string())
    );
    assert_eq!((folders[0].path.as_str(), &folders[0].refusal), ("/p/empty", &None));
    assert_eq!(
        folders[1].refusal.as_deref(),
        Some("refusing unplanned folder deletion: /p")
    );
    assert!(p.duplicate_groups[0].candidates.iter().any(|c| files.iter().all(|f| f.path != c.path)));
    let all = texts(&["/p/a.jpg", "/p/b.jpg", "/p/c.jpg"]);
    assert_eq!(
        decide_cleanup(&p, &all, &Vec::new(), &Vec::new()).err().as_deref(),
        Some("refusing to delete every file in duplicate group exact-1")
    );
}
