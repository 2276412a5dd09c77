use std::path::Path;

use rich_media_viewer::batches::batches;
use rich_media_viewer::cleanup::EntryKind;
use rich_media_viewer::collections::TextMap;
use rich_media_viewer::discovery::{Discovery, DiscoveryStep, Found, Listed};
use rich_media_viewer::ignored::{IgnoredTask, IgnoredWalk};
use rich_media_viewer::indexing::{
    index_step, indexed_media, metadata_error, process_file, process_file_with_cache,
    type_to_index, FileFacts, IndexStep, MediaFingerprint,
};
use rich_media_viewer::paths::PathParts;
use rich_media_viewer::photo::no_photo_facts;
use rich_media_viewer::progress::{
    bad_root_message, cached_hashes_phase, fingerprint_phase, fingerprint_workers,
    fingerprinted_images, greet, hashed_images, hashing_phase, shows_inspection,
};
use rich_media_viewer::scan::{
    dead_indexer_message, discovery_phase, face_batch_phase, face_start_phase, indexing_phase,
    progress_after_result, progress_at_end, progress_interval, root_problem, rows_to_mark_missing,
    IndexOutcome, ScanFiles, ScanSummary,
};

fn parts(path: &str) -> PathParts {
    let p = Path::new(path);
    PathParts {
        components: p
            .components()
            .map(|c| c.as_os_str().to_str().map(|s| s.to_string()))
            .collect(),
        file_name: p.file_name().and_then(|n| n.to_str()).map(|s| s.to_string()),
        extension: p.extension().and_then(|e| e.to_str()).map(|s| s.to_string()),
        text: path.to_string(),
    }
}

fn listed(path: &str, kind: EntryKind) -> Listed<String> {
    Listed::Entry(Found { path: path.to_string(), parts: parts(path) }, kind)
}

fn texts(list: &[&str]) -> Vec<String> {
    list.iter().map(|s| s.to_string()).collect()
}

fn facts(size: i64, modified: i64) -> FileFacts {
    FileFacts { is_file: true, size_bytes: size, created_at: Some(1), modified_at: Some(modified) }
}

#[test]
fn search_reads_folders_in_turn_and_takes_media() {
    let mut d = Discovery::new("/r".to_string(), "/r".to_string(), None);
    assert!(matches!(d.next(), DiscoveryStep::Read(p) if p == "/r"));
    assert!(matches!(d.next(), DiscoveryStep::Wait));
    d.take_folder(
        "/r",
        Ok(vec![
            listed("/r/b", EntryKind::Directory),
            listed("/r/a.jpg", EntryKind::File),
            listed("/r/.hidden", EntryKind::Directory),
            listed("/r/Thumbs", EntryKind::Directory),
            listed("/r/facetile1.jpg", EntryKind::File),
            listed("/r/notes.txt", EntryKind::File),
            listed("/r/link.jpg", EntryKind::Other),
            Listed::Unreadable("io".to_string()),
            Listed::Unknown,
            listed("/r/c", EntryKind::Directory),
        ]),
    );
    assert!(matches!(d.next(), DiscoveryStep::Read(p) if p == "/r/b"));
    assert!(matches!(d.next(), DiscoveryStep::Read(p) if p == "/r/c"));
    d.take_folder("/r/b", Err("denied".to_string()));
    assert!(matches!(d.next(), DiscoveryStep::Wait));
    d.take_folder("/r/c", Ok(vec![listed("/r/c/v.MOV", EntryKind::File)]));
    assert!(matches!(d.next(), DiscoveryStep::Stop));
    d.note_dead_worker();
    let (files, errors) = d.finish();
    let paths: Vec<&str> = files.iter().map(|f| f.path.as_str()).collect();
    assert_eq!(paths, vec!["/r/a.jpg", "/r/c/v.MOV"]);
    assert_eq!(
        errors,
        texts(&[
            "walk error under /r: io",
            "walk error reading /r/b under /r: denied",
            "discovery worker thread panicked for root /r",
        ])
    );
}

#[test]
fn search_stops_at_its_limit() {
    let mut d = Discovery::new("/r".to_string(), "/r".to_string(), Some(2));
    assert!(matches!(d.next(), DiscoveryStep::Read(_)));
    d.take_folder(
        "/r",
        Ok(vec![
            listed("/r/1.jpg", EntryKind::File),
            listed("/r/x", EntryKind::Directory),
            listed("/r/2.jpg", EntryKind::File),
            listed("/r/3.jpg", EntryKind::File),
            listed("/r/y", EntryKind::Directory),
        ]),
    );
    assert!(matches!(d.next(), DiscoveryStep::Stop));
    let (files, _) = d.finish();
    assert_eq!(files.len(), 2);
    let mut none = Discovery::new("/r".to_string(), "/r".to_string(), Some(0));
    assert!(matches!(none.next(), DiscoveryStep::Stop));
}

/// The entries of a folder in a small tree.
fn entries(folder: &str) -> Vec<Listed<String>> {
    match folder {
        "/r" => vec![
            listed("/r/a", EntryKind::Directory),
            listed("/r/1.jpg", EntryKind::File),
            listed("/r/.b", EntryKind::Directory),
            listed("/r/.hidden.jpg", EntryKind::File),
        ],
        "/r/a" => vec![
            listed("/r/a/2.jpg", EntryKind::File),
            listed("/r/a/notes.txt", EntryKind::File),
            listed("/r/a/facetile_2.jpg", EntryKind::File),
            listed("/r/a/c", EntryKind::Directory),
            listed("/r/a/3.mp4", EntryKind::File),
        ],
        "/r/a/c" => vec![listed("/r/a/c/4.png", EntryKind::File)],
        "/r/.b" => vec![
            listed("/r/.b/5.jpg", EntryKind::File),
            listed("/r/.b/d", EntryKind::Directory),
        ],
        _ => vec![listed("/r/.b/d/6.jpg", EntryKind::File)],
    }
}

/// The paths that a search of the small tree takes.
fn found(limit: Option<usize>) -> Vec<String> {
    let mut d = Discovery::new("/r".to_string(), "/r".to_string(), limit);
    while let DiscoveryStep::Read(folder) = d.next() {
        d.take_folder(&folder, Ok(entries(&folder)));
    }
    d.finish().0.into_iter().map(|f| f.path).collect()
}

/// The files of the small tree anywhere below a folder.
fn below(folder: &str) -> Vec<String> {
    let mut out = Vec::new();
    for e in entries(folder) {
        match e {
            Listed::Entry(f, EntryKind::File) => out.push(f.path),
            Listed::Entry(f, EntryKind::Directory) => out.extend(below(&f.path)),
            _ => {}
        }
    }
    out
}

#[test]
fn media_is_either_indexed_or_listed_as_ignored() {
    let mut walk = IgnoredWalk::new("/r".to_string());
    let mut ignored = Vec::new();
    while let Some(task) = walk.next() {
        match task {
            IgnoredTask::Read(folder) => walk.take_folder(entries(&folder)),
            IgnoredTask::List(path, _) => ignored.push(path),
            IgnoredTask::ListBelow(folder) => ignored.extend(below(&folder)),
        }
    }
    assert_eq!(
        ignored,
        texts(&["/r/a/facetile_2.jpg", "/r/.b/5.jpg", "/r/.b/d/6.jpg", "/r/.hidden.jpg"])
    );
    let indexed = found(None);
    for path in below("/r") {
        if path.ends_with(".txt") {
            continue;
        }
        assert!(indexed.contains(&path) != ignored.contains(&path), "{path}");
    }
}

#[test]
fn unreadable_entries_give_nothing_to_do() {
    let mut walk = IgnoredWalk::new("/r".to_string());
    assert!(matches!(walk.next(), Some(IgnoredTask::Read(_))));
    walk.take_folder(vec![Listed::Unreadable("denied".to_string()), Listed::Unknown]);
    assert!(walk.next().is_none());
    assert!(walk.next().is_none());
}

#[test]
fn limited_search_takes_a_part_of_all_files() {
    let all = found(None);
    assert_eq!(all, texts(&["/r/1.jpg", "/r/a/2.jpg", "/r/a/3.mp4", "/r/a/c/4.png"]));
    for limit in 0..6 {
        let part = found(Some(limit));
        assert_eq!(part.len(), limit.min(all.len()));
        assert!(part.iter().all(|p| all.contains(p)));
    }
}

#[test]
fn files_are_indexed_by_type() {
    assert_eq!(type_to_index(&parts("/r/a.JPG")), Some("image"));
    assert_eq!(type_to_index(&parts("/r/a.Mp4")), Some("video"));
    assert_eq!(type_to_index(&parts("/r/.a.jpg")), None);
    assert_eq!(type_to_index(&parts("/r/FACETILE.jpg")), None);
    assert_eq!(type_to_index(&parts("/r/a.pdf")), None);
}

#[test]
fn unchanged_files_are_left_alone() {
    let p = parts(r"\\?\C:\a.jpg");
    let mut known: TextMap<MediaFingerprint> = TextMap::new();
    assert!(matches!(index_step(&p, "image", &facts(5, 6), &known), IndexStep::Write { read_exif: true }));
    assert!(matches!(index_step(&p, "video", &facts(5, 6), &known), IndexStep::Write { read_exif: false }));
    known.insert(r"C:\a.jpg".to_string(), MediaFingerprint { size_bytes: Some(5), modified_at: Some(6) });
    assert!(matches!(index_step(&p, "image", &facts(5, 6), &known), IndexStep::Unchanged));
    assert!(matches!(index_step(&p, "image", &facts(5, 7), &known), IndexStep::Write { read_exif: true }));
    assert!(matches!(index_step(&p, "image", &facts(4, 6), &known), IndexStep::Write { read_exif: true }));
    let mut folder = facts(5, 6);
    folder.is_file = false;
    assert!(matches!(index_step(&p, "image", &folder, &known), IndexStep::Skip));
    assert_eq!(metadata_error("/a", "gone"), "/a: gone");
}

#[test]
fn rows_of_the_catalog_are_clean() {
    let row = indexed_media(&parts("/r/Pic.JPEG"), "image", &facts(5, 6), no_photo_facts(), 99);
    assert_eq!(row.path, "/r/Pic.JPEG");
    assert_eq!(row.file_name, "Pic.JPEG");
    assert_eq!(row.extension.as_deref(), Some("jpeg"));
    assert_eq!(row.media_type, "image");
    assert_eq!((row.size_bytes, row.created_at, row.modified_at), (Some(5), Some(1), Some(6)));
    assert_eq!(row.imported_at, 99);
    assert!(row.photo.make.is_none() && row.photo.captured_at.is_none());
}

#[test]
fn a_written_file_is_known_afterwards() {
    let p = parts("/r/a.jpg");
    let row = indexed_media(&p, "image", &facts(5, 6), no_photo_facts(), 0);
    let mut known: TextMap<MediaFingerprint> = TextMap::new();
    known.insert(
        row.path,
        MediaFingerprint { size_bytes: row.size_bytes, modified_at: row.modified_at },
    );
    assert!(matches!(index_step(&p, "image", &facts(5, 6), &known), IndexStep::Unchanged));
}

#[test]
fn benchmark_rows_and_changes() {
    let p = parts(r"\\?\C:\a.JPG");
    let row = process_file(&p, Some("a.JPG".to_string()), &facts(5, 6)).unwrap();
    assert_eq!((row.path.as_str(), row.name.as_str()), (r"C:\a.JPG", "a.JPG"));
    assert_eq!((row.media_type.as_str(), row.size, row.modified), ("image", 5, Some(6)));
    assert_eq!(row.extension.as_deref().map(|e| e.to_ascii_lowercase()), row.extension);
    assert!(process_file(&p, None, &facts(5, 6)).is_none());
    assert!(process_file(&parts("/a.txt"), Some("a".to_string()), &facts(5, 6)).is_none());
    assert!(process_file(&parts("/.x/a.jpg"), Some("a".to_string()), &facts(5, 6)).is_some());
    let mut known: TextMap<MediaFingerprint> = TextMap::new();
    assert_eq!(process_file_with_cache(&p, &facts(5, 6), &known), Some(true));
    known.insert(row.path, MediaFingerprint { size_bytes: Some(row.size), modified_at: row.modified });
    assert_eq!(process_file_with_cache(&p, &facts(5, 6), &known), Some(false));
    assert_eq!(process_file_with_cache(&p, &facts(5, 9), &known), Some(true));
    assert_eq!(process_file_with_cache(&parts("/facetile.jpg"), &facts(5, 6), &known), None);
}

#[test]
fn roots_have_to_be_folders() {
    assert_eq!(
        root_problem("/x", false, false),
        Some(("scan root does not exist: /x".to_string(), "Folder missing".to_string()))
    );
    assert_eq!(
        root_problem("/x", true, false),
        Some(("scan root is not a directory: /x".to_string(), "Not a directory".to_string()))
    );
    assert_eq!(root_problem("/x", true, true), None);
}

#[test]
fn files_of_overlapping_roots_are_taken_up_once() {
    let mut files = ScanFiles::new();
    assert_eq!(files.total_files, None);
    assert_eq!(files.add_root(&texts(&["a", "b", "a"])), vec![0, 1]);
    assert_eq!((files.discovered_files, files.total_files), (3, Some(2)));
    assert_eq!(files.add_root(&texts(&["b", "c"])), vec![1]);
    assert_eq!((files.discovered_files, files.total_files), (5, Some(3)));
    assert_eq!(files.add_root(&Vec::new()), Vec::<usize>::new());
    assert_eq!(files.total_files, Some(3));
}

/// Scans the given roots, all of whose files are in the same state.
fn scan(roots: &[&[&str]], known: &mut TextMap<MediaFingerprint>) -> ScanSummary {
    let mut sum = ScanSummary::new();
    let mut files = ScanFiles::new();
    let mut written = Vec::new();
    for root in roots {
        for i in files.add_root(&texts(root)) {
            let p = parts(root[i]);
            let outcome = match type_to_index(&p) {
                Some(kind) => match index_step(&p, kind, &facts(5, 6), known) {
                    IndexStep::Write { .. } => {
                        written.push(indexed_media(&p, kind, &facts(5, 6), no_photo_facts(), 0));
                        IndexOutcome::Stored
                    }
                    _ => IndexOutcome::Skipped,
                },
                None => IndexOutcome::Skipped,
            };
            sum.count(outcome);
        }
    }
    for row in written {
        let state =
            MediaFingerprint { size_bytes: row.size_bytes, modified_at: row.modified_at };
        known.insert(row.path, state);
    }
    sum
}

#[test]
fn second_scan_skips_every_file() {
    let roots: [&[&str]; 2] = [&["/r/1.jpg", "/r/x.txt", "/r/a/2.mp4"], &["/s/3.png"]];
    let mut known = TextMap::new();
    let first = scan(&roots, &mut known);
    let counts = (first.scanned_files, first.imported_or_updated, first.skipped_files);
    assert_eq!(counts, (4, 3, 1));
    let second = scan(&roots, &mut known);
    let counts = (second.scanned_files, second.imported_or_updated, second.skipped_files);
    assert_eq!(counts, (4, 0, 4));
}

#[test]
fn files_found_again_are_not_indexed_again() {
    let all: &[&str] = &["/r/1.jpg", "/r/a/2.jpg"];
    let below: &[&str] = &["/r/a/2.jpg"];
    let once = scan(&[all], &mut TextMap::new());
    for roots in [vec![all, all], vec![all, below]] {
        let twice = scan(&roots, &mut TextMap::new());
        assert_eq!(twice.scanned_files, once.scanned_files);
        assert_eq!(twice.imported_or_updated, once.imported_or_updated);
        assert_eq!(twice.skipped_files, once.skipped_files);
    }
}

#[test]
fn results_are_counted_by_outcome() {
    let mut s = ScanSummary::new();
    s.count(IndexOutcome::Stored);
    s.count(IndexOutcome::Skipped);
    s.count(IndexOutcome::Skipped);
    s.count(IndexOutcome::Failed("/x: bad".to_string()));
    s.note_errors(texts(&["later"]));
    assert_eq!((s.scanned_files, s.imported_or_updated, s.skipped_files), (4, 1, 2));
    assert_eq!(s.errors, texts(&["/x: bad", "later"]));
    let p = s.progress("Indexing", Some("/x".to_string()), 9, Some(8), 1, Some(2), true);
    assert_eq!(p.phase, "Indexing");
    assert_eq!(p.current_path.as_deref(), Some("/x"));
    assert_eq!((p.scanned_files, p.imported_or_updated, p.skipped_files), (4, 1, 2));
    assert_eq!((p.missing_marked, p.errors), (0, 2));
    assert_eq!((p.discovered_files, p.total_files), (9, Some(8)));
    assert_eq!((p.faces_done, p.faces_total, p.done), (1, Some(2), true));
}

#[test]
fn progress_is_shown_at_intervals_and_at_the_end() {
    assert_eq!(progress_interval(0), 20);
    assert_eq!(progress_interval(4), 80);
    for results in 1..=100usize {
        let (now, rest) = (progress_after_result(results, 20), progress_at_end(results, 20));
        assert_eq!(now, results % 20 == 0);
        assert!(now != rest);
    }
    assert!(!progress_at_end(0, 20));
}

#[test]
fn phases_tell_their_threads() {
    assert_eq!(discovery_phase(32, 4), "Discovering files (32 discovery threads; 4 indexing threads)");
    assert_eq!(indexing_phase(4, 32), "Indexing metadata (4 indexing threads; discovery used 32)");
    assert_eq!(face_start_phase(3), "Face embeddings — 3 parallel workers");
    assert_eq!(face_batch_phase(3), "Face embeddings (3 workers)");
    assert_eq!(dead_indexer_message("/r"), "indexing worker thread panicked for root /r");
    assert_eq!(hashing_phase(8), "Hashing exact image duplicates (8 workers)");
    assert_eq!(cached_hashes_phase(12), "Using cached exact hashes (12 cached)");
    assert_eq!(fingerprint_phase(2), "Fingerprinting visual duplicates (2 workers)");
    assert_eq!(bad_root_message("/r"), "cleanup root is not a directory: /r");
    assert_eq!(greet("Rich Media Viewer"), "Welcome to Rich Media Viewer.");
}

#[test]
fn cleanup_counts_keep_to_what_there_is() {
    assert_eq!(hashed_images(10, 4, 3), 7);
    assert_eq!(hashed_images(5, 4, 3), 5);
    assert_eq!(fingerprinted_images(10, 1, 600), 266);
    assert_eq!(fingerprinted_images(10, 3, 600), 610);
    assert_eq!(fingerprint_workers(8, 3), 3);
    assert_eq!(fingerprint_workers(8, 0), 1);
    assert_eq!(fingerprint_workers(2, 5), 2);
    assert!(shows_inspection(0) && shows_inspection(1000) && !shows_inspection(999));
}

#[test]
fn files_that_are_gone_are_marked() {
    assert_eq!(rows_to_mark_missing(&vec![(1, true), (2, false), (3, false)]), vec![2, 3]);
    assert_eq!(rows_to_mark_missing(&Vec::new()), Vec::<i64>::new());
}

#[test]
fn batches_cover_every_position() {
    assert_eq!(batches(14, 6), vec![(0, 6), (6, 12), (12, 14)]);
    assert_eq!(batches(12, 6), vec![(0, 6), (6, 12)]);
    assert_eq!(batches(0, 6), Vec::<(usize, usize)>::new());
    assert_eq!(batches(3, usize::MAX), vec![(0, 3)]);
    let list: Vec<usize> = (0..1000).collect();
    let cut: Vec<&[usize]> = batches(list.len(), 256).iter().map(|(a, b)| &list[*a..*b]).collect();
    assert_eq!(cut, list.chunks(256).collect::<Vec<&[usize]>>());
}
