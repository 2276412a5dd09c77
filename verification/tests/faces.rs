use rich_media_viewer::batches::batches;
use rich_media_viewer::faces::{
    best_named_person, clustering_images, detected_faces, face_batch_message, person_deleted,
    person_name, propagated_faces, seed_vector, FaceRun, NamedScore, FACE_INDEX_BATCH,
};
use rich_media_viewer::pool::{end_face_call, Acquired, FaceCallEnd, FacePool, SlotFate};
use rich_media_viewer::scan::ScanSummary;
use rich_media_viewer::sidecar::SidecarResult;
use rich_media_viewer::vectors::StoredVector;

fn score(person_id: i64, dimensions: usize, value: f64) -> NamedScore {
    NamedScore { person_id, dimensions, score_bits: value.to_bits() }
}

fn run(ok: bool, stdout: &str, stderr: &str) -> SidecarResult {
    SidecarResult { ok, stdout: stdout.to_string(), stderr: stderr.to_string() }
}

#[test]
fn nearest_person_has_the_best_score() {
    let threshold = 0.42f64.to_bits();
    let faces = vec![score(1, 4, 0.5), score(2, 4, 0.8), score(3, 4, 0.6)];
    assert_eq!(best_named_person(4, &faces, threshold), Some(2));
    assert_eq!(best_named_person(4, &vec![score(1, 4, 0.41)], threshold), None);
    assert_eq!(best_named_person(4, &vec![score(1, 4, 0.42)], threshold), Some(1));
    assert_eq!(best_named_person(4, &Vec::new(), threshold), None);
}

#[test]
fn last_of_equally_near_faces_wins() {
    let faces = vec![score(1, 4, 0.8), score(2, 4, 0.8), score(3, 4, 0.7)];
    assert_eq!(best_named_person(4, &faces, 0.42f64.to_bits()), Some(2));
}

#[test]
fn faces_of_other_models_and_bad_scores_do_not_count() {
    let faces = vec![score(1, 5, 0.99), score(2, 4, f64::NAN), score(3, 4, 0.5)];
    assert_eq!(best_named_person(4, &faces, 0.42f64.to_bits()), Some(3));
    assert_eq!(best_named_person(4, &faces, f64::NAN.to_bits()), None);
}

#[test]
fn people_have_a_trimmed_name() {
    assert_eq!(person_name("  Ann \n"), "Ann");
    assert_eq!(person_name(" \t "), "Unnamed");
    assert_eq!(person_deleted(0), Err("Person not found".to_string()));
    assert_eq!(person_deleted(1), Ok(()));
}

#[test]
fn clustering_takes_twenty_five_images_at_most() {
    assert_eq!(clustering_images(Some(vec![7; 25])), Ok(vec![7; 25]));
    assert_eq!(
        clustering_images(Some(vec![7; 26])),
        Err("Too many images for one face-clustering call; use Guided Face Setup.".to_string())
    );
    assert_eq!(
        clustering_images(None),
        Err("Use Guided Face Setup to process images incrementally instead of clustering the whole library.".to_string())
    );
    assert_eq!(FACE_INDEX_BATCH, 6);
}

#[test]
fn failed_face_batches_name_their_images() {
    let ids = vec![3, -4, 5];
    assert_eq!(face_batch_message(&ids, &Ok(run(true, "", ""))), None);
    assert_eq!(
        face_batch_message(&ids, &Ok(run(false, "", " boom \n"))),
        Some(format!("face batch ids {ids:?}: sidecar failed: boom"))
    );
    assert_eq!(
        face_batch_message(&Vec::new(), &Err("gone".to_string())),
        Some("face batch ids []: gone".to_string())
    );
}

#[test]
fn detected_faces_replace_those_of_their_files() {
    let rows = vec![(9, "/a".to_string())];
    let good = run(true, "{\"data\":{\"faces\":[{\"path\":\"/a\"}]}}", "");
    assert_eq!(detected_faces(&good, &rows, false, true).ok().unwrap().unwrap().len(), 1);
    assert!(detected_faces(&run(false, "x", ""), &rows, false, true).ok().unwrap().is_none());
    assert!(detected_faces(&run(true, "{}", ""), &rows, false, true).ok().unwrap().is_none());
    assert!(detected_faces(&run(true, "x", ""), &rows, false, true).err().unwrap().starts_with("invalid sidecar JSON: "));
}

#[test]
fn names_spread_from_a_stored_vector() {
    assert!(matches!(seed_vector(Some(vec![0, 0, 128, 63])), Ok(StoredVector::Binary(v)) if v == vec![1.0f32.to_bits()]));
    assert_eq!(seed_vector(Some(vec![1, 2, 3])).err().as_deref(), Some("invalid face embedding"));
    assert_eq!(seed_vector(None).err().as_deref(), Some("face has no embedding yet"));
    assert_eq!(
        propagated_faces(&run(true, "{\"ok\":true,\"data\":{\"matching_face_ids\":[2,3]}}", "")),
        Ok(vec![2, 3])
    );
    assert_eq!(propagated_faces(&run(true, "{\"ok\":true,\"data\":{}}", "")), Ok(Vec::new()));
    assert_eq!(
        propagated_faces(&run(false, "", " bad \n")),
        Err("face-match sidecar failed: bad".to_string())
    );
    assert_eq!(
        propagated_faces(&run(true, "{\"ok\":false}", "")),
        Err("sidecar returned ok=false".to_string())
    );
}

fn slot(got: &Acquired<char>) -> Option<usize> {
    match got {
        Acquired::Waiting(i, _) => Some(*i),
        Acquired::Vacant(i) => Some(*i),
        Acquired::Busy => None,
    }
}

#[test]
fn pool_grows_to_its_size_and_no_further() {
    let mut pool: FacePool<char> = FacePool::new();
    let got: Vec<Option<usize>> = (0..4).map(|_| slot(&pool.take_face_sidecar(3))).collect();
    assert_eq!(got, vec![Some(0), Some(1), Some(2), None]);
    assert_eq!(slot(&pool.take_face_sidecar(0)), None);
    let mut small: FacePool<char> = FacePool::new();
    assert_eq!(slot(&small.take_face_sidecar(0)), Some(0));
    assert_eq!(slot(&small.take_face_sidecar(0)), None);
}

#[test]
fn processes_wait_in_their_slot() {
    let mut pool: FacePool<char> = FacePool::new();
    assert!(matches!(pool.take_face_sidecar(2), Acquired::Vacant(0)));
    assert!(matches!(pool.take_face_sidecar(2), Acquired::Vacant(1)));
    pool.return_face_sidecar(1, 'b');
    assert!(matches!(pool.take_face_sidecar(2), Acquired::Waiting(1, 'b')));
    pool.return_face_sidecar(0, 'a');
    pool.return_face_sidecar(1, 'b');
    assert!(matches!(pool.take_face_sidecar(2), Acquired::Waiting(0, 'a')));
}

#[test]
fn released_slots_are_handed_out_again() {
    let mut pool: FacePool<char> = FacePool::new();
    pool.take_face_sidecar(1);
    assert!(matches!(pool.take_face_sidecar(1), Acquired::Busy));
    pool.release_face_sidecar_slot(7);
    assert!(matches!(pool.take_face_sidecar(1), Acquired::Busy));
    pool.release_face_sidecar_slot(0);
    assert!(matches!(pool.take_face_sidecar(1), Acquired::Vacant(0)));
    pool.return_face_sidecar(2, 'c');
    assert!(matches!(pool.take_face_sidecar(1), Acquired::Vacant(1)));
    assert!(matches!(pool.take_face_sidecar(1), Acquired::Waiting(2, 'c')));
}

#[test]
fn ended_calls_settle_their_slot() {
    let error = |end: FaceCallEnd| {
        let (fate, result) = end_face_call(end);
        (fate, result.err().unwrap())
    };
    let text = || "e".to_string();
    assert!(matches!(error(FaceCallEnd::StartFailed(text())), (SlotFate::Released, m) if m == "e"));
    assert!(matches!(error(FaceCallEnd::StateUnknown(text())), (SlotFate::Released, m) if m == "failed to check face sidecar status: e"));
    assert!(matches!(error(FaceCallEnd::RestartFailed(text())), (SlotFate::Held, m) if m == "e"));
    assert!(matches!(error(FaceCallEnd::WriteFailed(text())), (SlotFate::Released, m) if m == "failed to write face sidecar stdin: e"));
    assert!(matches!(error(FaceCallEnd::ReadFailed(text())), (SlotFate::Released, m) if m == "failed to read face sidecar stdout: e"));
    assert!(matches!(error(FaceCallEnd::Answered(" ".to_string())), (SlotFate::Released, m) if m == "face sidecar exited without a response"));
    let (fate, result) = end_face_call(FaceCallEnd::Answered("{\"ok\":true,\"data\":1}\n".to_string()));
    assert!(matches!(fate, SlotFate::Returned));
    assert!(result.ok().unwrap().ok);
    let (fate, result) = end_face_call(FaceCallEnd::Answered("garbage".to_string()));
    assert!(matches!(fate, SlotFate::Returned));
    assert!(!result.ok().unwrap().ok);
}

#[test]
fn face_pass_counts_the_images_of_good_batches() {
    let mut sum = ScanSummary::new();
    let mut pass = FaceRun::new(14);
    let p = pass.start_progress(&sum, 3, Some(2), 5);
    assert_eq!(p.phase, "Face embeddings \u{2014} 5 parallel workers");
    assert_eq!((p.faces_done, p.faces_total), (0, Some(14)));
    assert_eq!((p.discovered_files, p.total_files), (3, Some(2)));
    assert!(pass.note_batch(6, None));
    assert!(!pass.note_batch(6, Some("bad".to_string())));
    assert!(pass.note_batch(2, None));
    let p = pass.batch_progress(&sum, 0, None, 5);
    assert_eq!(p.phase, "Face embeddings (5 workers)");
    assert_eq!((p.faces_done, p.faces_total, p.errors), (8, Some(14), 0));
    let p = pass.finish(&mut sum, 0, None);
    assert_eq!(p.phase, "Face embeddings complete");
    assert_eq!((p.faces_done, p.faces_total, p.errors), (14, Some(14), 1));
    assert_eq!(sum.errors, vec!["bad".to_string()]);
}

#[test]
fn face_pass_over_good_batches_does_every_image() {
    let mut pass = FaceRun::new(20);
    for (from, to) in batches(20, FACE_INDEX_BATCH) {
        pass.note_batch(to - from, None);
    }
    assert_eq!((pass.dealt, pass.done), (20, 20));
    let none = FaceRun::new(0).start_progress(&ScanSummary::new(), 0, None, 5);
    assert_eq!(none.phase, "Face embeddings (no indexed images)");
    assert_eq!((none.faces_done, none.faces_total), (0, Some(0)));
}
