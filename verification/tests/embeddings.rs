use rich_media_viewer::embeddings::{
    chosen_model, chosen_provider, embed_args, embeds_images_only, query_args, query_vector,
    EmbeddingRun, EMBEDDING_BATCH_SIZE,
};
use rich_media_viewer::sidecar::SidecarResult;

fn run(ok: bool, stdout: &str, stderr: &str) -> SidecarResult {
    SidecarResult { ok, stdout: stdout.to_string(), stderr: stderr.to_string() }
}

fn texts(list: &[&str]) -> Vec<String> {
    list.iter().map(|s| s.to_string()).collect()
}

#[test]
fn provider_and_model_have_defaults() {
    assert_eq!(chosen_provider(None), "fastembed");
    assert_eq!(chosen_provider(Some("google".to_string())), "google");
    assert_eq!(chosen_model(None), "Qdrant/clip-ViT-B-32");
    assert_eq!(chosen_model(Some("m".to_string())), "m");
    assert!(embeds_images_only("fastembed"));
    assert!(!embeds_images_only("FastEmbed"));
    assert_eq!(EMBEDDING_BATCH_SIZE, 256);
}

#[test]
fn arguments_of_requests() {
    assert_eq!(
        embed_args("p", "m", 4, 16, Some(1024)),
        texts(&["embed", "--provider", "p", "--model", "m", "--workers", "4", "--batch-size", "16", "--image-max-width", "1024"])
    );
    let plain = texts(&["embed", "--provider", "p", "--model", "m", "--workers", "4", "--batch-size", "16"]);
    assert_eq!(embed_args("p", "m", 4, 16, Some(0)), plain);
    assert_eq!(embed_args("p", "m", 4, 16, None), plain);
    assert_eq!(
        query_args("p", "m", 2, "red car"),
        texts(&["embed", "--provider", "p", "--model", "m", "--workers", "2", "--text", "red car"])
    );
}

#[test]
fn query_vectors_come_from_a_good_run() {
    let good = run(true, "{\"data\":{\"embeddings\":[{\"embedding\":[1]}]}}", "");
    assert_eq!(query_vector(&good).ok().unwrap().render(), "[1]");
    assert_eq!(query_vector(&run(false, "", "no key")).err().as_deref(), Some("no key"));
    assert_eq!(
        query_vector(&run(true, "{}", "")).err().as_deref(),
        Some("sidecar did not return a query embedding")
    );
    assert!(query_vector(&run(true, "[", "")).err().unwrap().starts_with("invalid sidecar JSON: "));
}

#[test]
fn every_file_is_embedded_or_skipped() {
    let mut r = EmbeddingRun::new(5);
    let rows = vec![(1, "/a".to_string()), (2, "/b".to_string()), (3, "/c".to_string())];
    let answer = "{\"data\":{\"embeddings\":[{\"source\":\"/a\",\"embedding\":[1]},{\"source\":\"/b\",\"embedding\":[]}]}}";
    let batch = r.take_answer(&rows, run(true, answer, "")).ok().unwrap().unwrap();
    assert_eq!((batch.rows.len(), batch.skipped), (1, 1));
    r.note_batch(rows.len(), batch.rows.len(), batch.skipped);
    assert_eq!((r.summary.scanned_files, r.summary.imported_or_updated, r.summary.skipped_files), (3, 1, 2));
    r.note_batch(2, 2, 0);
    assert_eq!((r.summary.scanned_files, r.summary.imported_or_updated, r.summary.skipped_files), (5, 3, 2));
    r.finish();
    assert_eq!((r.summary.imported_or_updated, r.summary.skipped_files), (3, 2));
    let res = r.result();
    assert!(res.ok);
    assert_eq!(res.stdout, "{\"data\":{\"embedded\":3,\"skipped\":2,\"total\":5},\"ok\":true}");
}

#[test]
fn failed_batch_ends_the_run() {
    let mut r = EmbeddingRun::new(4);
    let rows = vec![(1, "/a".to_string())];
    assert!(r.take_answer(&rows, run(false, "out", "boom")).ok().unwrap().is_none());
    assert_eq!(r.summary.errors, texts(&["boom"]));
    r.finish();
    assert_eq!(r.summary.skipped_files, 4);
    let res = r.result();
    assert_eq!((res.ok, res.stdout.as_str(), res.stderr.as_str()), (false, "out", "boom"));
}

#[test]
fn unreadable_answer_is_an_error() {
    let mut r = EmbeddingRun::new(1);
    let e = r.take_answer(&Vec::new(), run(true, "oops", "")).err().unwrap();
    assert!(e.starts_with("invalid sidecar JSON: "));
    assert!(r.summary.errors.is_empty());
}

#[test]
fn run_without_files_has_its_own_answer() {
    let mut r = EmbeddingRun::new(0);
    r.finish();
    let res = r.result();
    assert!(res.ok);
    assert_eq!(res.stdout, "{\"ok\":true,\"data\":{\"embedded\":0,\"skipped\":0}}");
    assert_eq!(res.stderr, "");
}

#[test]
fn more_vectors_than_files_skip_nothing() {
    let mut r = EmbeddingRun::new(2);
    r.note_batch(2, 3, 0);
    assert_eq!(r.summary.skipped_files, 0);
    r.finish();
    assert_eq!(r.summary.skipped_files, 0);
}
