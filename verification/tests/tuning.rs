use rich_media_viewer::tuning::{
    cleanup_hash_thread_count, cleanup_visual_thread_count, discovery_thread_count,
    embedding_batch_size, embedding_thread_count, face_indexing_thread_count,
    indexing_thread_count,
};

#[test]
fn discovery_threads_are_four_per_core_within_bounds() {
    assert_eq!(discovery_thread_count(None, 8), 32);
    assert_eq!(discovery_thread_count(None, 1), 8);
    assert_eq!(discovery_thread_count(None, 64), 128);
    assert_eq!(discovery_thread_count(None, usize::MAX), 128);
    assert_eq!(discovery_thread_count(Some("20"), 1), 20);
    assert_eq!(discovery_thread_count(Some("0"), 16), 8);
    assert_eq!(discovery_thread_count(Some("many"), 8), 32);
}

#[test]
fn indexing_threads_are_half_the_cores_within_bounds() {
    assert_eq!(indexing_thread_count(None, 1), 1);
    assert_eq!(indexing_thread_count(None, 6), 3);
    assert_eq!(indexing_thread_count(None, 32), 4);
    assert_eq!(indexing_thread_count(Some("2"), 32), 2);
    assert_eq!(indexing_thread_count(Some("99"), 1), 4);
}

#[test]
fn embedding_settings_depend_on_the_provider() {
    assert_eq!(embedding_thread_count("FastEmbed", None, None, 2), 4);
    assert_eq!(embedding_thread_count("fastembed", Some("40"), None, 2), 16);
    assert_eq!(embedding_thread_count("google", Some("40"), None, 6), 3);
    assert_eq!(embedding_thread_count("google", None, Some("2"), 32), 2);
    assert_eq!(embedding_batch_size("fastembed", None), 16);
    assert_eq!(embedding_batch_size("FASTEMBED", Some("0")), 1);
    assert_eq!(embedding_batch_size("fastembed", Some("1000")), 256);
    assert_eq!(embedding_batch_size("google", Some("100")), 16);
}

#[test]
fn face_and_cleanup_threads_keep_to_their_bounds() {
    assert_eq!(face_indexing_thread_count(None, None, 1), 2);
    assert_eq!(face_indexing_thread_count(None, None, 32), 4);
    assert_eq!(face_indexing_thread_count(Some("0"), None, 32), 1);
    assert_eq!(face_indexing_thread_count(Some("50"), None, 32), 8);
    assert_eq!(cleanup_hash_thread_count(None, 2), 8);
    assert_eq!(cleanup_hash_thread_count(None, 12), 24);
    assert_eq!(cleanup_hash_thread_count(None, 100), 32);
    assert_eq!(cleanup_hash_thread_count(Some("3"), 100), 3);
    assert_eq!(cleanup_visual_thread_count(None, 2), 4);
    assert_eq!(cleanup_visual_thread_count(None, 16), 8);
    assert_eq!(cleanup_visual_thread_count(None, 100), 16);
}
