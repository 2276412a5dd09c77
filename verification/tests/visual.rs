use rich_media_viewer::candidates::MediaItem;
use rich_media_viewer::collections::{TextMap, TextSet};
use rich_media_viewer::duplicates::ExactSearch;
use rich_media_viewer::exact::CleanupFileCache;
use rich_media_viewer::visual::{
    cache_update_for_hash, cache_updates_for_fingerprints, cache_write, hex_hamming,
    keyed_fingerprints, match_fingerprints, split_by_cached_fingerprint, visual_duplicate_groups,
    visually_eligible, CacheWrite, VisualFingerprintItem,
};

fn media(id: i64, path: &str) -> MediaItem {
    MediaItem {
        id,
        path: path.to_string(),
        display_path: None,
        file_name: path.to_string(),
        size_bytes: Some(10),
        created_at: None,
        modified_at: Some(id),
        captured_at: Some(1000 - id),
    }
}

fn print(path: &str, ahash: &str, dhash: &str, phash: &str) -> VisualFingerprintItem {
    VisualFingerprintItem {
        path: path.to_string(),
        width: 40,
        height: 30,
        ahash: ahash.to_string(),
        dhash: dhash.to_string(),
        phash: phash.to_string(),
    }
}

fn texts(list: &[&str]) -> Vec<String> {
    list.iter().map(|s| s.to_string()).collect()
}

#[test]
fn hex_hamming_counts_different_bits() {
    assert_eq!(hex_hamming("00", "0f"), Some(4));
    assert_eq!(hex_hamming("ff", "00"), Some(8));
}

#[test]
fn hamming_distance_is_symmetric_and_needs_hexadecimal() {
    assert_eq!(hex_hamming("8f0c", "8f0c"), Some(0));
    assert_eq!(hex_hamming("1", "e"), hex_hamming("e", "1"));
    assert_eq!(hex_hamming("ffffffffffffffffffffffffffffffff", "0"), Some(128));
    assert_eq!(hex_hamming("zz", "00"), None);
    assert_eq!(hex_hamming("00", ""), None);
}

#[test]
fn hamming_distance_is_no_longer_than_a_way_round() {
    let prints = ["00", "0f", "3c", "ff", "a5"];
    for a in prints {
        for b in prints {
            assert_eq!(hex_hamming(a, b) == Some(0), a == b);
            for c in prints {
                let way_round = hex_hamming(a, b).unwrap() + hex_hamming(b, c).unwrap();
                assert!(hex_hamming(a, c).unwrap() <= way_round);
            }
        }
    }
}

#[test]
fn grouped_images_are_not_eligible() {
    let items = vec![media(1, "/a"), media(2, "/b"), media(3, "/c")];
    let mut grouped = TextSet::new();
    grouped.insert("/b".to_string());
    let eligible: Vec<i64> = visually_eligible(items, &grouped).iter().map(|i| i.id).collect();
    assert_eq!(eligible, vec![1, 3]);
}

#[test]
fn known_fingerprints_come_from_the_cache() {
    let items = vec![media(1, "/a.heic"), media(2, "/b.jpg"), media(3, "/c.jpg")];
    let rows = texts(&["/conv/a.jpg", "/b.jpg", "/c.jpg"]);
    let mut cache: TextMap<CleanupFileCache> = TextMap::new();
    let full = |item: &MediaItem| CleanupFileCache {
        size_bytes: item.size_bytes,
        modified_at: item.modified_at,
        sha256: None,
        width: Some(4),
        height: Some(3),
        ahash: Some("a".to_string()),
        dhash: Some("d".to_string()),
        phash: Some("f".to_string()),
    };
    cache.insert("/a.heic".to_string(), full(&items[0]));
    let mut partial = full(&items[1]);
    partial.height = None;
    cache.insert("/b.jpg".to_string(), partial);
    let (known, pending) = split_by_cached_fingerprint(&items, &rows, &cache);
    assert_eq!(known.len(), 1);
    assert_eq!(known[0].path, "/conv/a.jpg");
    assert_eq!((known[0].width, known[0].height), (4, 3));
    assert_eq!(known[0].phash, "f");
    assert_eq!(pending, texts(&["/b.jpg", "/c.jpg"]));
}

#[test]
fn cache_changes_name_the_catalog_path() {
    let items = vec![media(1, "/a.heic"), media(2, "/b.jpg")];
    let rows = texts(&["/conv/a.jpg", "/b.jpg"]);
    let updates = cache_updates_for_fingerprints(
        &items,
        &rows,
        &vec![print("/conv/a.jpg", "1", "2", "3"), print("/unknown.jpg", "1", "2", "3")],
    );
    assert_eq!(updates.len(), 1);
    assert_eq!(updates[0].path, "/a.heic");
    assert_eq!(updates[0].modified_at, Some(1));
    assert_eq!(updates[0].sha256, None);
    assert_eq!(updates[0].dhash.as_deref(), Some("2"));
    assert!(matches!(cache_write(&updates[0]), CacheWrite::Fingerprint));
}

#[test]
fn cache_changes_write_a_hash_or_a_fingerprint() {
    let c = rich_media_viewer::candidates::cleanup_candidate_from_media(&media(1, "/a"));
    let mut u = cache_update_for_hash(&c, &"beef".to_string());
    assert_eq!(u.sha256.as_deref(), Some("beef"));
    assert_eq!((u.size_bytes, u.modified_at), (Some(10), Some(1)));
    assert!(matches!(cache_write(&u), CacheWrite::Hash));
    u.ahash = Some("a".to_string());
    assert!(matches!(cache_write(&u), CacheWrite::Nothing));
    u.sha256 = None;
    assert!(matches!(cache_write(&u), CacheWrite::Fingerprint));
    u.ahash = None;
    assert!(matches!(cache_write(&u), CacheWrite::Nothing));
}

#[test]
fn look_alikes_share_a_group_and_others_do_not() {
    let items = vec![media(1, "/d"), media(2, "/c"), media(3, "/b"), media(4, "/a"), media(5, "/e")];
    let rows = texts(&["/d", "/c", "/b", "/a", "/e"]);
    let fps = vec![
        print("/d", "ff", "00", "00"),
        print("/c", "ff", "0f", "3f"),
        print("/b", "ff", "00", "7f"),
        print("/a", "0f", "00", "00"),
        print("/e", "ff", "xx", "00"),
    ];
    let groups = visual_duplicate_groups(&items, &rows, &fps);
    assert_eq!(groups.len(), 1);
    let g = &groups[0];
    assert_eq!(g.id, "visual-1");
    assert_eq!(g.kind, "visual-image");
    assert_eq!(g.reason, "Strict perceptual hash match");
    let members: Vec<&str> = g.candidates.iter().map(|c| c.path.as_str()).collect();
    assert_eq!(members, vec!["/b", "/c"]);
    assert_eq!(g.score, Some(5));
    assert_eq!(g.default_keep_path, "/b");
    assert_eq!((g.candidates[0].width, g.candidates[0].height), (Some(40), Some(30)));
}

#[test]
fn distances_at_the_bounds_still_match() {
    let items = vec![media(1, "/a"), media(2, "/b")];
    let rows = texts(&["/a", "/b"]);
    let near = vec![print("/a", "ff", "000", "00"), print("/b", "ff", "0ff", "3f")];
    let groups = visual_duplicate_groups(&items, &rows, &near);
    assert_eq!(groups.len(), 1);
    assert_eq!(groups[0].score, Some(14));
    let far_p = vec![print("/a", "ff", "000", "00"), print("/b", "ff", "000", "7f")];
    assert_eq!(visual_duplicate_groups(&items, &rows, &far_p).len(), 0);
    let far_d = vec![print("/a", "ff", "000", "00"), print("/b", "ff", "1ff", "00")];
    assert_eq!(visual_duplicate_groups(&items, &rows, &far_d).len(), 0);
}

#[test]
fn one_of_each_matching_pair_is_reported() {
    let items: Vec<MediaItem> = (1..=5).map(|i| media(i, &format!("/{i}"))).collect();
    let rows: Vec<String> = items.iter().map(|i| i.path.clone()).collect();
    let hashes = ["0", "3f", "fff", "ffe", "ff"];
    let fps: Vec<VisualFingerprintItem> =
        items.iter().zip(hashes).map(|(i, h)| print(&i.path, "a", "0", h)).collect();
    let groups = visual_duplicate_groups(&items, &rows, &fps);
    let reported: Vec<&str> =
        groups.iter().flat_map(|g| g.candidates.iter().map(|c| c.path.as_str())).collect();
    for (i, a) in fps.iter().enumerate() {
        for b in &fps[i + 1..] {
            if hex_hamming(&a.phash, &b.phash).unwrap() <= 6 {
                assert!(reported.contains(&a.path.as_str()) || reported.contains(&b.path.as_str()));
            }
        }
    }
    for g in &groups {
        assert!(g.candidates.windows(2).all(|w| w[0].path <= w[1].path));
    }
}

#[test]
fn a_path_is_in_one_visual_group_only() {
    let items: Vec<MediaItem> = (1..=6).map(|i| media(i, &format!("/{i}"))).collect();
    let rows: Vec<String> = items.iter().map(|i| i.path.clone()).collect();
    let fps = vec![
        print("/1", "a", "0", "0"),
        print("/2", "a", "0", "3f"),
        print("/3", "a", "0", "fff"),
        print("/4", "a", "0", "ffe"),
        print("/5", "b", "0", "0"),
        print("/6", "b", "0", "0"),
    ];
    let keyed = keyed_fingerprints(&items, &rows, &fps);
    let found = match_fingerprints(&keyed);
    let mut seen: Vec<usize> = Vec::new();
    for m in &found {
        assert!(m.members.len() >= 2);
        for i in &m.members {
            assert!(!seen.contains(i));
            seen.push(*i);
        }
    }
    let groups = visual_duplicate_groups(&items, &rows, &fps);
    let ids: Vec<&str> = groups.iter().map(|g| g.id.as_str()).collect();
    assert_eq!(ids, vec!["visual-1", "visual-2", "visual-3"]);
    for g in &groups {
        assert!(g.candidates.iter().any(|c| c.path == g.default_keep_path));
    }
}

#[test]
fn duplicate_search_groups_identical_files_before_look_alikes() {
    let items: Vec<MediaItem> = (1..=5).map(|i| media(i, &format!("/{i}"))).collect();
    let mut cache: TextMap<CleanupFileCache> = TextMap::new();
    for item in &items {
        cache.insert(
            item.path.clone(),
            CleanupFileCache {
                size_bytes: item.size_bytes,
                modified_at: item.modified_at,
                sha256: if item.id == 1 { Some("h".to_string()) } else { None },
                width: Some(4),
                height: Some(3),
                ahash: if item.id == 5 { None } else { Some("a".to_string()) },
                dhash: Some("d".to_string()),
                phash: Some("f".to_string()),
            },
        );
    }
    let (mut search, pending) = ExactSearch::start(items, cache);
    assert_eq!(pending, vec![1, 2, 3, 4]);
    for i in pending {
        let hash = if i == 1 { "h".to_string() } else { format!("h{i}") };
        search.run.note(&search.items[i], Ok(hash));
    }
    let search = search.finish();
    assert_eq!(search.groups.len(), 1);
    let rows: Vec<String> = search.rows().into_iter().map(|(_, p)| p).collect();
    assert_eq!(rows, texts(&["/3", "/4", "/5"]));
    let (mut search, pending) = search.with_rows(rows);
    assert_eq!(pending, texts(&["/5"]));
    search.note(&vec![print("/5", "a", "d", "f")]);
    let (groups, updates) = search.finish();
    let found: Vec<(&str, Vec<&str>)> = groups
        .iter()
        .map(|g| (g.id.as_str(), g.candidates.iter().map(|c| c.path.as_str()).collect()))
        .collect();
    assert_eq!(found, vec![("exact-1", vec!["/1", "/2"]), ("visual-1", vec!["/3", "/4"])]);
    assert_eq!(updates.len(), 5);
    assert_eq!(updates[4].path, "/5");
    assert_eq!(updates[4].phash.as_deref(), Some("f"));
}
