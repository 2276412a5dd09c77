use rich_media_viewer::candidates::MediaItem;
use rich_media_viewer::collections::TextMap;
use rich_media_viewer::exact::{exact_duplicate_groups, CleanupFileCache};
use rich_media_viewer::hashing::{file_sha256, to_hex, HashRun};

fn media(id: i64, path: &str) -> MediaItem {
    MediaItem {
        id,
        path: path.to_string(),
        display_path: None,
        file_name: path.to_string(),
        size_bytes: Some(3),
        created_at: None,
        modified_at: Some(id),
        captured_at: Some(id),
    }
}

#[test]
fn hash_of_known_bytes() {
    assert_eq!(
        file_sha256("/a", Ok(b"abc".to_vec())).unwrap(),
        "ba7816bf8f01cfea414140de5dae2223b00361a396177a9cb410ff61f20015ad"
    );
    assert_eq!(
        file_sha256("/a", Ok(Vec::new())).unwrap(),
        "e3b0c44298fc1c149afbf4c8996fb92427ae41e4649b934ca495991b7852b855"
    );
}

#[test]
fn unreadable_file_gives_path_and_message() {
    assert_eq!(file_sha256("/a.jpg", Err("denied".to_string())), Err("/a.jpg: denied".to_string()));
}

#[test]
fn hexadecimal_text_tells_the_bytes() {
    assert_eq!(to_hex(&vec![0, 15, 16, 255, 171]), "000f10ffab");
    assert_eq!(to_hex(&Vec::new()), "");
    let mut seen: Vec<String> = Vec::new();
    for b in 0..=255u8 {
        let t = to_hex(&vec![b]);
        assert_eq!(t, format!("{b:02x}"));
        assert!(!seen.contains(&t));
        seen.push(t);
    }
}

#[test]
fn run_groups_files_by_hash_and_reports_progress() {
    let items: Vec<MediaItem> = (1..=60).map(|i| media(i, &format!("/{i}"))).collect();
    let mut cache: TextMap<CleanupFileCache> = TextMap::new();
    cache.insert(
        "/1".to_string(),
        CleanupFileCache {
            size_bytes: Some(3),
            modified_at: Some(1),
            sha256: Some("same".to_string()),
            width: None,
            height: None,
            ahash: None,
            dhash: None,
            phash: None,
        },
    );
    let (mut run, pending) = HashRun::start(&items, &cache);
    assert_eq!((run.cached, pending.len()), (1, 59));
    let mut shown = Vec::new();
    for (n, i) in pending.iter().enumerate() {
        let hash = match n {
            0 => Ok("same".to_string()),
            1 => Err("/3: denied".to_string()),
            _ => Ok(format!("hash {n}")),
        };
        if let Some(count) = run.note(&items[*i], hash) {
            shown.push(count);
        }
    }
    assert_eq!(shown, vec![2, 27, 52]);
    assert_eq!(run.done, 59);
    assert_eq!(run.errors, vec!["/3: denied".to_string()]);
    assert_eq!(run.updates.len(), 58);
    assert_eq!(run.updates[0].path, "/2");
    assert_eq!(run.updates[0].sha256.as_deref(), Some("same"));
    let (groups, paths) = exact_duplicate_groups(run.groups);
    assert_eq!(groups.len(), 1);
    assert_eq!(groups[0].default_keep_path, "/1");
    assert!(paths.contains("/2"));
}
