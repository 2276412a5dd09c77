use std::path::Path;

use rich_media_viewer::cleanup::{ignored_entry_action, EntryKind, IgnoredAction};
use rich_media_viewer::discovery::is_indexable;
use rich_media_viewer::paths::{
    bare_path_str, clean_path_str, is_excluded_path, is_facetile_image_path, is_heic_path,
    media_type_for_ext, path_is_under_roots, shown_folders, typed_folder, PathParts,
};

fn parts(path: &str) -> PathParts {
    let p = Path::new(path);
    PathParts {
        components: p
            .components()
            .map(|c| c.as_os_str().to_str().map(|s| s.to_string()))
            .collect(),
        file_name: p.file_name().and_then(|n| n.to_str()).map(|s| s.to_string()),
        extension: p.extension().and_then(|e| e.to_str()).map(|s| s.to_string()),
        text: path.to_string(),
    }
}

fn components(path: &str) -> Vec<String> {
    Path::new(path)
        .components()
        .map(|c| c.as_os_str().to_string_lossy().to_string())
        .collect()
}

#[test]
fn hidden_and_blacklisted_folders_are_excluded() {
    assert!(is_excluded_path(&parts("/photos/.hidden/a.jpg")));
    assert!(is_excluded_path(&parts("/photos/Thumbnails/a.jpg")));
    assert!(is_excluded_path(&parts("/photos/iPod Photo Cache/a.jpg")));
    assert!(is_excluded_path(&parts("/photos/__MACOSX/a.jpg")));
    assert!(is_excluded_path(&parts("/private/a.jpg")));
    assert!(!is_excluded_path(&parts("/photos/thumbnails2/a.jpg")));
    assert!(!is_excluded_path(&parts("/photos/summer/a.jpg")));
    assert!(is_excluded_path(&parts("./a.jpg")));
    let unreadable = PathParts {
        components: vec![Some("/".to_string()), None],
        file_name: None,
        extension: None,
        text: "/?".to_string(),
    };
    assert!(!is_excluded_path(&unreadable));
}

#[test]
fn media_types_follow_the_extension() {
    assert_eq!(media_type_for_ext(Some("JPG")), Some("image"));
    assert_eq!(media_type_for_ext(Some("..heic")), Some("image"));
    assert_eq!(media_type_for_ext(Some("Cr3")), Some("image"));
    assert_eq!(media_type_for_ext(Some("m2ts")), Some("video"));
    assert_eq!(media_type_for_ext(Some("webm")), Some("video"));
    assert_eq!(media_type_for_ext(Some("txt")), None);
    assert_eq!(media_type_for_ext(Some("")), None);
    assert_eq!(media_type_for_ext(None), None);
}

#[test]
fn face_tiles_are_images_by_name() {
    assert!(is_facetile_image_path(&parts("/p/FaceTile_12.JPG")));
    assert!(is_facetile_image_path(&parts("/p/facetile.png")));
    assert!(!is_facetile_image_path(&parts("/p/facetil.png")));
    assert!(!is_facetile_image_path(&parts("/p/facetile.mp4")));
    assert!(!is_facetile_image_path(&parts("/p/my_facetile.png")));
    assert!(!is_facetile_image_path(&parts("/p/faceti\u{e9}le.png")));
}

#[test]
fn heic_images_are_told_by_extension() {
    assert!(is_heic_path(&parts("/p/a.HEIC")));
    assert!(is_heic_path(&parts("/p/a.heif")));
    assert!(!is_heic_path(&parts("/p/a.heics")));
    assert!(!is_heic_path(&parts("/p/heic")));
}

#[test]
fn verbatim_prefix_is_taken_off_once() {
    assert_eq!(clean_path_str(r"\\?\C:\a.jpg"), r"C:\a.jpg");
    assert_eq!(clean_path_str(r"\\?\\\?\x"), r"\\?\x");
    assert_eq!(clean_path_str("/a.jpg"), "/a.jpg");
    assert_eq!(bare_path_str(r"\\?\\\?\x"), "x");
    assert_eq!(bare_path_str("/a.jpg"), "/a.jpg");
}

#[test]
fn paths_lie_under_roots_by_component() {
    let roots = vec![components("/photos/2020"), components("/other")];
    assert!(path_is_under_roots(&components("/photos/2020/a.jpg"), &roots));
    assert!(path_is_under_roots(&components("/photos/2020"), &roots));
    assert!(!path_is_under_roots(&components("/photos/2020x/a.jpg"), &roots));
    assert!(!path_is_under_roots(&components("/photos"), &roots));
    assert!(!path_is_under_roots(&components("/photos/2020"), &Vec::new()));
}

#[test]
fn folders_are_shown_clean() {
    assert_eq!(
        shown_folders(&vec![r"\\?\D:\x".to_string(), "/y".to_string()]),
        vec![r"D:\x".to_string(), "/y".to_string()]
    );
    assert_eq!(typed_folder(r"\\?\D:\x", true).as_deref(), Some(r"D:\x"));
    assert_eq!(typed_folder("/y", false), None);
}

#[test]
fn cleanup_lists_exactly_what_indexing_leaves_out() {
    for path in ["/p/a.jpg", "/p/.b.jpg", "/p/facetile1.jpg", "/p/Backup/c.mov", "/p/d.mov"] {
        let p = parts(path);
        let listed = ignored_entry_action(&p, EntryKind::File) != IgnoredAction::Skip;
        assert_eq!(listed, !is_indexable(&p), "{path}");
    }
    assert!(ignored_entry_action(&parts("/p/notes.txt"), EntryKind::File) == IgnoredAction::Skip);
    assert!(ignored_entry_action(&parts("/p/.x"), EntryKind::Directory) == IgnoredAction::ListBelow);
    assert!(ignored_entry_action(&parts("/p/.x"), EntryKind::Other) == IgnoredAction::Skip);
    assert!(ignored_entry_action(&parts("/p/x"), EntryKind::Directory) == IgnoredAction::Descend);
    assert!(
        ignored_entry_action(&parts("/p/facetile1.jpg"), EntryKind::File)
            == IgnoredAction::ListFaceTile
    );
    assert!(ignored_entry_action(&parts("/p/.b.jpg"), EntryKind::File) == IgnoredAction::ListFile);
}
