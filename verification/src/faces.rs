//! Faces: who a face is taken to be, which request names too many images, and what the answers
//! of the face sidecar come to.

use vstd::prelude::*;

use crate::batches::{batch_count, batch_ranges, batches_cover_the_list};
use crate::json::{items_of, json_document, member_at, member_of, JsonView};
use crate::scan::{face_batch_phase, face_start_phase, tells, ScanProgress, ScanSummary};
use crate::semantic::{score_key, score_rank};
use crate::sidecar::{
    answer_data, face_rows, face_rows_view, integers_in, matching_face_ids,
    parse_sidecar_ok_data, read_faces, sidecar_document, FaceRow, SidecarResult,
};
use crate::text;
use crate::vectors::{is_stored, parse_vec, stored_vector, StoredVector};

verus! {

/// How many images one face batch of a scan holds.
pub const FACE_INDEX_BATCH: usize = 6;

/// A face of a named person, with the score of its vector against another, by the bit pattern
/// of the score.
pub struct NamedScore {
    pub person_id: i64,
    /// The number of components of its vector.
    pub dimensions: usize,
    pub score_bits: u64,
}

/// Whether a named face counts: its vector has as many components, and its score is a number
/// that is at least the threshold.
pub open spec fn counts(f: NamedScore, dimensions: int, threshold_bits: u64) -> bool {
    f.dimensions == dimensions && (match (score_rank(f.score_bits), score_rank(threshold_bits)) {
        (Some(s), Some(t)) => s >= t,
        _ => false,
    })
}

/// The rank of a named face's score.
pub open spec fn named_rank(f: NamedScore) -> int {
    match score_rank(f.score_bits) {
        Some(s) => s,
        None => 0,
    }
}

/// Whether a named face is the nearest one: it counts, none that counts scores more, and none
/// behind it scores as much.
pub open spec fn is_nearest(
    faces: Seq<NamedScore>,
    dimensions: int,
    threshold_bits: u64,
    i: int,
) -> bool {
    &&& 0 <= i < faces.len()
    &&& counts(faces[i], dimensions, threshold_bits)
    &&& forall|j: int|
        0 <= j < faces.len() && counts(#[trigger] faces[j], dimensions, threshold_bits)
            ==> named_rank(faces[j]) <= named_rank(faces[i])
    &&& forall|j: int|
        i < j < faces.len() && counts(#[trigger] faces[j], dimensions, threshold_bits)
            ==> named_rank(faces[j]) < named_rank(faces[i])
}

/// The named person whose face is nearest to one with the given number of components, if a face
/// counts.
pub fn best_named_person(
    dimensions: usize,
    faces: &Vec<NamedScore>,
    threshold_bits: u64,
) -> (person: Option<i64>)
    ensures
        match person {
            Some(p) => exists|i: int| #[trigger]
                is_nearest(faces@, dimensions as int, threshold_bits, i) && faces[i].person_id == p,
            None => forall|i: int|
                0 <= i < faces.len() ==> !counts(
                    #[trigger] faces[i],
                    dimensions as int,
                    threshold_bits,
                ),
        },
{
    let threshold: i64 = match score_key(threshold_bits) {
        Some(t) => t,
        None => {
            return None;
        },
    };
    let mut best: Option<usize> = None;
    let mut best_key: i64 = threshold;
    let mut i: usize = 0;
    while i < faces.len()
        invariant
            i <= faces.len(),
            score_rank(threshold_bits) == Some(threshold as int),
            match best {
                Some(b) => is_nearest(faces@.take(i as int), dimensions as int, threshold_bits, b as int)
                    && best_key == named_rank(faces[b as int]),
                None => best_key == threshold && forall|j: int|
                    0 <= j < i ==> !counts(#[trigger] faces[j], dimensions as int, threshold_bits),
            },
        decreases faces.len() - i,
    {
        let ghost before = faces@.take(i as int);
        let ghost after = faces@.take(i + 1);
        assert(forall|j: int| 0 <= j < i ==> #[trigger] after[j] == before[j]);
        assert(after[i as int] == faces[i as int]);
        let mut taken: bool = false;
        if faces[i].dimensions == dimensions {
            if let Some(key) = score_key(faces[i].score_bits) {
                if key >= best_key {
                    taken = true;
                    best = Some(i);
                    best_key = key;
                }
            }
        }
        proof {
            if taken {
                assert forall|j: int|
                    0 <= j < after.len() && counts(
                        #[trigger] after[j],
                        dimensions as int,
                        threshold_bits,
                    ) implies named_rank(after[j]) <= named_rank(after[i as int]) by {
                    if j < i {
                        assert(after[j] == before[j]);
                        assert(before[j] == faces[j]);
                    }
                }
                assert(is_nearest(after, dimensions as int, threshold_bits, i as int));
            } else if best is Some {
                let b = best->0 as int;
                assert(before[b] == faces[b]);
                assert forall|j: int|
                    0 <= j < after.len() && counts(
                        #[trigger] after[j],
                        dimensions as int,
                        threshold_bits,
                    ) implies named_rank(after[j]) <= named_rank(after[b]) && (j > b ==> named_rank(
                    after[j],
                ) < named_rank(after[b])) by {
                    if j < i {
                        assert(after[j] == before[j]);
                    }
                }
                assert(is_nearest(after, dimensions as int, threshold_bits, b));
            }
        }
        i = i + 1;
    }
    assert(faces@.take(i as int) =~= faces@);
    match best {
        Some(b) => {
            assert(is_nearest(faces@, dimensions as int, threshold_bits, b as int));
            Some(faces[b].person_id)
        },
        None => None,
    }
}

/// The nearest named face is one: no two faces are both nearest, so the person is determined.
pub proof fn nearest_face_is_unique(
    faces: Seq<NamedScore>,
    dimensions: int,
    threshold_bits: u64,
    a: int,
    b: int,
)
    requires
        is_nearest(faces, dimensions, threshold_bits, a),
        is_nearest(faces, dimensions, threshold_bits, b),
    ensures
        a == b,
{
    assert(named_rank(faces[a]) <= named_rank(faces[b]));
    assert(named_rank(faces[b]) <= named_rank(faces[a]));
}

/// The name under which a person is kept.
pub open spec fn kept_name(name: Seq<char>) -> Seq<char> {
    if text::trimmed(name).len() == 0 {
        "Unnamed"@
    } else {
        text::trimmed(name)
    }
}

/// See [`kept_name`].
pub fn person_name(name: &str) -> (r: String)
    ensures
        r@ == kept_name(name@),
{
    let t = text::trim(name);
    if t.as_str().is_empty() {
        "Unnamed".to_string()
    } else {
        t
    }
}

/// What the deletion of a person comes to, by the number of people that were deleted.
pub fn person_deleted(rows: usize) -> (r: Result<(), String>)
    ensures
        match r {
            Ok(_) => rows > 0,
            Err(message) => rows == 0 && message@ == "Person not found"@,
        },
{
    if rows == 0 {
        Err("Person not found".to_string())
    } else {
        Ok(())
    }
}

/// The images of a face-clustering request: they have to be named, and at most twenty-five.
pub fn clustering_images(media_ids: Option<Vec<i64>>) -> (ids: Result<Vec<i64>, String>)
    ensures
        match (media_ids, ids) {
            (Some(m), Ok(v)) => m.len() <= 25 && v == m,
            (Some(m), Err(message)) => m.len() > 25 && message@
                == "Too many images for one face-clustering call; use Guided Face Setup."@,
            (None, Err(message)) => message@
                == "Use Guided Face Setup to process images incrementally instead of clustering the whole library."@,
            (None, Ok(_)) => false,
        },
{
    match media_ids {
        Some(ids) => if ids.len() > 25 {
            Err("Too many images for one face-clustering call; use Guided Face Setup.".to_string())
        } else {
            Ok(ids)
        },
        None => Err(
            "Use Guided Face Setup to process images incrementally instead of clustering the whole library.".to_string(),
        ),
    }
}

/// The first `n` ids, separated by commas.
pub open spec fn ids_joined(ids: Seq<i64>, n: nat) -> Seq<char>
    decreases n,
{
    if n == 0 {
        Seq::empty()
    } else if n == 1 {
        text::signed_decimal(ids[0] as int)
    } else {
        ids_joined(ids, (n - 1) as nat) + ", "@ + text::signed_decimal(ids[n - 1] as int)
    }
}

/// A list of ids as it is shown in messages.
pub open spec fn ids_shown(ids: Seq<i64>) -> Seq<char> {
    "["@ + ids_joined(ids, ids.len()) + "]"@
}

fn show_ids(ids: &Vec<i64>) -> (r: String)
    ensures
        r@ == ids_shown(ids@),
{
    let mut inner = String::new();
    let mut i: usize = 0;
    while i < ids.len()
        invariant
            i <= ids.len(),
            inner@ == ids_joined(ids@, i as nat),
        decreases ids.len() - i,
    {
        let number = text::to_signed_decimal(ids[i] as i128);
        if i == 0 {
            inner = number;
        } else {
            inner.append(", ");
            inner.append(number.as_str());
        }
        i = i + 1;
    }
    text::concat3("[", inner.as_str(), "]")
}

/// The message of a face batch that failed.
pub open spec fn face_batch_error(ids: Seq<i64>, outcome: Result<SidecarResult, String>) -> Option<
    Seq<char>,
> {
    match outcome {
        Ok(r) => if r.ok {
            None
        } else {
            Some(
                "face batch ids "@ + ids_shown(ids) + ": sidecar failed: "@ + text::trimmed(
                    r.stderr@,
                ),
            )
        },
        Err(e) => Some("face batch ids "@ + ids_shown(ids) + ": "@ + e@),
    }
}

/// See [`face_batch_error`].
pub fn face_batch_message(ids: &Vec<i64>, outcome: &Result<SidecarResult, String>) -> (message:
    Option<String>)
    ensures
        crate::paths::opt_view(message) == face_batch_error(ids@, *outcome),
{
    match outcome {
        Ok(r) => if r.ok {
            None
        } else {
            let shown = show_ids(ids);
            let trimmed = text::trim(r.stderr.as_str());
            let mut m = text::concat3("face batch ids ", shown.as_str(), ": sidecar failed: ");
            m.append(trimmed.as_str());
            Some(m)
        },
        Err(e) => {
            let shown = show_ids(ids);
            let mut m = text::concat3("face batch ids ", shown.as_str(), ": ");
            m.append(e.as_str());
            Some(m)
        },
    }
}

/// The faces that a run of the face sidecar brings into the catalog in place of those of `rows`;
/// `None` where the catalog stays as it is.
pub fn detected_faces(
    res: &SidecarResult,
    rows: &Vec<(i64, String)>,
    name_clusters: bool,
    assign: bool,
) -> (faces: Result<Option<Vec<FaceRow>>, String>)
    ensures
        match faces {
            Ok(None) => !res.ok || (json_document(res.stdout@) matches Ok(doc) && items_of(
                member_at(doc, "data"@, "faces"@),
            ) is None),
            Ok(Some(f)) => res.ok && (json_document(res.stdout@) matches Ok(doc) && items_of(
                member_at(doc, "data"@, "faces"@),
            ) matches Some(items) && face_rows_view(f@) == face_rows(
                rows@,
                items,
                name_clusters,
                assign,
                items.len(),
            )),
            Err(message) => res.ok && (json_document(res.stdout@) matches Err(e) && message@
                == "invalid sidecar JSON: "@ + e),
        },
{
    if !res.ok {
        return Ok(None);
    }
    match sidecar_document(res.stdout.as_str()) {
        Ok(doc) => Ok(read_faces(&doc, rows, name_clusters, assign)),
        Err(e) => Err(e),
    }
}

/// The vector from which a face's name spreads: that of the face's newest embedding.
pub fn seed_vector(newest: Option<Vec<u8>>) -> (seed: Result<StoredVector, String>)
    ensures
        match (newest, seed) {
            (Some(b), Ok(v)) => is_stored(Some(v), stored_vector(b@)),
            (Some(b), Err(message)) => stored_vector(b@) is None && message@
                == "invalid face embedding"@,
            (None, Err(message)) => message@ == "face has no embedding yet"@,
            (None, Ok(_)) => false,
        },
{
    match newest {
        Some(b) => match parse_vec(&b) {
            Some(v) => Ok(v),
            None => Err("invalid face embedding".to_string()),
        },
        None => Err("face has no embedding yet".to_string()),
    }
}

/// The ids that the data of a match names.
pub open spec fn matched_ids(data: JsonView) -> Seq<i64> {
    match items_of(member_of(data, "matching_face_ids"@)) {
        Some(items) => integers_in(items, items.len()),
        None => Seq::empty(),
    }
}

/// The faces to which a name spreads, by the run of the sidecar that matched them.
pub fn propagated_faces(res: &SidecarResult) -> (ids: Result<Vec<i64>, String>)
    ensures
        match ids {
            Ok(v) => res.ok && (answer_data(res.stdout@) matches Ok(data) && v@ == matched_ids(
                data,
            )),
            Err(message) => if res.ok {
                answer_data(res.stdout@) matches Err(e) && message@ == e
            } else {
                message@ == "face-match sidecar failed: "@ + text::trimmed(res.stderr@)
            },
        },
{
    if !res.ok {
        let trimmed = text::trim(res.stderr.as_str());
        return Err(text::concat2("face-match sidecar failed: ", trimmed.as_str()));
    }
    match parse_sidecar_ok_data(res.stdout.as_str()) {
        Ok(data) => Ok(matching_face_ids(&data)),
        Err(e) => Err(e),
    }
}

/// The counts of a face pass: the images dealt with, and those of good batches among them.
pub struct FaceCounts {
    pub dealt: nat,
    pub done: nat,
}

/// The counts after one more batch.
pub open spec fn with_batch(c: FaceCounts, size: nat, good: bool) -> FaceCounts {
    FaceCounts {
        dealt: c.dealt + size,
        done: if good {
            c.done + size
        } else {
            c.done
        },
    }
}

/// A pass that finds the faces of images, batch by batch.
pub struct FaceRun {
    /// How many images there are.
    pub total: usize,
    /// How many images the batches that came back hold.
    pub dealt: usize,
    /// How many images the good ones among these batches hold.
    pub done: usize,
    /// The messages of the batches that failed.
    pub errors: Vec<String>,
}

impl FaceRun {
    /// Whether no more images were dealt with than there are, and no more are done than that.
    pub open spec fn wf(self) -> bool {
        self.done <= self.dealt <= self.total
    }

    /// The counts of the pass.
    pub open spec fn counts(self) -> FaceCounts {
        FaceCounts { dealt: self.dealt as nat, done: self.done as nat }
    }

    /// A pass over the given number of images, of which no batch came back yet.
    pub fn new(total: usize) -> (r: Self)
        ensures
            r.wf(),
            r.total == total,
            r.counts() == (FaceCounts { dealt: 0, done: 0 }),
            r.errors@ == Seq::<String>::empty(),
    {
        FaceRun { total, dealt: 0, done: 0, errors: Vec::new() }
    }

    /// Takes a batch that came back, with the message where it failed. Tells whether progress is
    /// shown, which is so after a good batch. See [`with_batch`].
    pub fn note_batch(&mut self, size: usize, failure: Option<String>) -> (shown: bool)
        requires
            old(self).wf(),
            old(self).dealt + size <= old(self).total,
        ensures
            final(self).wf(),
            final(self).total == old(self).total,
            final(self).counts() == with_batch(old(self).counts(), size as nat, failure is None),
            final(self).errors@ == match failure {
                Some(message) => old(self).errors@.push(message),
                None => old(self).errors@,
            },
            shown == (failure is None),
    {
        self.dealt = self.dealt + size;
        match failure {
            Some(message) => {
                self.errors.push(message);
                false
            },
            None => {
                self.done = self.done + size;
                true
            },
        }
    }

    /// The progress that is shown before the first batch, or in place of any where there are no
    /// images.
    pub fn start_progress(
        &self,
        sum: &ScanSummary,
        discovered_files: usize,
        total_files: Option<usize>,
        workers: usize,
    ) -> (p: ScanProgress)
        ensures
            tells(
                p,
                *sum,
                if self.total == 0 {
                    "Face embeddings (no indexed images)"@
                } else {
                    "Face embeddings — "@ + text::decimal(workers as nat) + " parallel workers"@
                },
                None,
                discovered_files,
                total_files,
                0,
                Some(self.total),
                false,
            ),
    {
        if self.total == 0 {
            let phase = "Face embeddings (no indexed images)";
            sum.progress(phase, None, discovered_files, total_files, 0, Some(self.total), false)
        } else {
            let phase = face_start_phase(workers);
            sum.progress(
                phase.as_str(),
                None,
                discovered_files,
                total_files,
                0,
                Some(self.total),
                false,
            )
        }
    }

    /// The progress that is shown after a good batch: how many images are done of how many.
    pub fn batch_progress(
        &self,
        sum: &ScanSummary,
        discovered_files: usize,
        total_files: Option<usize>,
        workers: usize,
    ) -> (p: ScanProgress)
        ensures
            tells(
                p,
                *sum,
                "Face embeddings ("@ + text::decimal(workers as nat) + " workers)"@,
                None,
                discovered_files,
                total_files,
                self.done,
                Some(self.total),
                false,
            ),
    {
        let phase = face_batch_phase(workers);
        sum.progress(
            phase.as_str(),
            None,
            discovered_files,
            total_files,
            self.done,
            Some(self.total),
            false,
        )
    }

    /// Ends the pass: the messages go to the summary. Gives the progress that is shown, which
    /// reports all images.
    pub fn finish(
        self,
        sum: &mut ScanSummary,
        discovered_files: usize,
        total_files: Option<usize>,
    ) -> (p: ScanProgress)
        ensures
            crate::scan::same_counts(*final(sum), *old(sum)),
            final(sum).errors@ == old(sum).errors@ + self.errors@,
            tells(
                p,
                *final(sum),
                "Face embeddings complete"@,
                None,
                discovered_files,
                total_files,
                self.total,
                Some(self.total),
                false,
            ),
    {
        let total: usize = self.total;
        sum.note_errors(self.errors);
        sum.progress(
            "Face embeddings complete",
            None,
            discovered_files,
            total_files,
            total,
            Some(total),
            false,
        )
    }
}

/// The counts after the first `n` batches, each by its size and whether it was good.
pub open spec fn after_batches(batches: Seq<(nat, bool)>, n: nat) -> FaceCounts
    decreases n,
{
    if n == 0 {
        FaceCounts { dealt: 0, done: 0 }
    } else {
        with_batch(
            after_batches(batches, (n - 1) as nat),
            batches[n - 1].0,
            batches[n - 1].1,
        )
    }
}

/// The images done are at most those dealt with, are all of them where every batch is good, and
/// never become fewer.
pub proof fn done_images_are_those_of_good_batches(batches: Seq<(nat, bool)>, n: nat)
    requires
        n <= batches.len(),
    ensures
        after_batches(batches, n).done <= after_batches(batches, n).dealt,
        (forall|i: int| 0 <= i < n ==> (#[trigger] batches[i]).1) ==> after_batches(batches, n).done
            == after_batches(batches, n).dealt,
        n > 0 ==> after_batches(batches, (n - 1) as nat).done <= after_batches(batches, n).done,
    decreases n,
{
    if n > 0 {
        done_images_are_those_of_good_batches(batches, (n - 1) as nat);
    }
}

/// The sizes of the batches of the given number of images, each with whether it was good.
pub open spec fn face_batches(total: int, good: spec_fn(int) -> bool) -> Seq<(nat, bool)> {
    Seq::new(
        batch_ranges(total, FACE_INDEX_BATCH as int).len(),
        |k: int|
            (
                (batch_ranges(total, FACE_INDEX_BATCH as int)[k].1 - batch_ranges(
                    total,
                    FACE_INDEX_BATCH as int,
                )[k].0) as nat,
                good(k),
            ),
    )
}

proof fn lemma_dealt(total: int, good: spec_fn(int) -> bool, n: nat)
    requires
        0 < total <= usize::MAX,
        n <= face_batches(total, good).len(),
    ensures
        after_batches(face_batches(total, good), n).dealt == if n == 0 {
            0
        } else {
            batch_ranges(total, FACE_INDEX_BATCH as int)[n - 1].1 as int
        },
    decreases n,
{
    if n > 0 {
        let size = FACE_INDEX_BATCH as int;
        lemma_dealt(total, good, (n - 1) as nat);
        batches_cover_the_list(total, size, n - 1);
        if n > 1 {
            batches_cover_the_list(total, size, n - 2);
        }
    }
}

/// The batches of a face pass deal with every image, so that all are done where every batch is
/// good.
pub proof fn face_batches_deal_with_every_image(total: int, good: spec_fn(int) -> bool)
    requires
        0 <= total <= usize::MAX,
    ensures
        ({
            let batches = face_batches(total, good);
            &&& after_batches(batches, batches.len()).dealt == total
            &&& (forall|k: int| 0 <= k < batches.len() ==> (#[trigger] batches[k]).1) ==> after_batches(
                batches,
                batches.len(),
            ).done == total
        }),
{
    let size = FACE_INDEX_BATCH as int;
    let batches = face_batches(total, good);
    let n = batches.len();
    assert(batch_count(total, size) == (total + 5) / 6);
    if total > 0 {
        lemma_dealt(total, good, n);
        batches_cover_the_list(total, size, n - 1);
    }
    done_images_are_those_of_good_batches(batches, n);
}

/// Whether the face of a named person is as long as the vector that is looked for, and its score is
/// a number that reaches the threshold.
pub open spec fn is_near_enough(f: NamedScore, dimensions: int, threshold_bits: u64) -> bool {
    &&& f.dimensions == dimensions
    &&& score_rank(f.score_bits) is Some
    &&& score_rank(threshold_bits) is Some
    &&& score_rank(f.score_bits)->0 >= score_rank(threshold_bits)->0
}

/// The nearest face is near enough, no face that is near enough scores more, and none behind it
/// scores as much; every face that is near enough is looked at.
pub proof fn nearest_face_is_the_best_near_one(
    faces: Seq<NamedScore>,
    dimensions: int,
    threshold_bits: u64,
    i: int,
)
    ensures
        is_nearest(faces, dimensions, threshold_bits, i) <==> {
            &&& 0 <= i < faces.len()
            &&& is_near_enough(faces[i], dimensions, threshold_bits)
            &&& forall|j: int|
                0 <= j < faces.len() && is_near_enough(
                    #[trigger] faces[j],
                    dimensions,
                    threshold_bits,
                ) ==> score_rank(faces[j].score_bits)->0 <= score_rank(faces[i].score_bits)->0 && (j
                    > i ==> score_rank(faces[j].score_bits)->0 < score_rank(faces[i].score_bits)->0)
        },
        forall|j: int|
            counts(#[trigger] faces[j], dimensions, threshold_bits) <==> is_near_enough(
                faces[j],
                dimensions,
                threshold_bits,
            ),
{
    if is_nearest(faces, dimensions, threshold_bits, i) {
        assert forall|j: int| 0 <= j < faces.len() && is_near_enough(
            #[trigger] faces[j],
            dimensions,
            threshold_bits,
        ) implies score_rank(faces[j].score_bits)->0 <= score_rank(faces[i].score_bits)->0 && (j > i
            ==> score_rank(faces[j].score_bits)->0 < score_rank(faces[i].score_bits)->0) by {
            assert(counts(faces[j], dimensions, threshold_bits));
        }
    }
}

/// A person always has a name, which neither starts nor ends with white space: the given one
/// without the white space around it, where anything is left of that.
pub proof fn person_has_a_trimmed_name(name: Seq<char>)
    ensures
        kept_name(name).len() > 0,
        !text::is_space(kept_name(name).first()),
        !text::is_space(kept_name(name).last()),
        (forall|i: int| 0 <= i < name.len() ==> text::is_space(#[trigger] name[i])) ==> kept_name(name)
            == "Unnamed"@,
        (exists|i: int| 0 <= i < name.len() && !text::is_space(#[trigger] name[i])) ==> kept_name(name)
            == text::trimmed(name),
{
    reveal_strlit("Unnamed");
    crate::text::trimming_takes_white_space_only(name);
}

/// A batch has no message exactly where the sidecar ran and was content; a message names the ids of
/// the batch and what went wrong.
pub proof fn only_a_good_batch_has_no_message(
    ids: Seq<i64>,
    outcome: Result<SidecarResult, String>,
)
    ensures
        face_batch_error(ids, outcome) is None <==> outcome is Ok && outcome->Ok_0.ok,
        outcome is Err ==> face_batch_error(ids, outcome) == Some(
            "face batch ids "@ + ids_shown(ids) + ": "@ + outcome->Err_0@,
        ),
        outcome is Ok && !outcome->Ok_0.ok ==> face_batch_error(ids, outcome) == Some(
            "face batch ids "@ + ids_shown(ids) + ": sidecar failed: "@ + text::trimmed(
                outcome->Ok_0.stderr@,
            ),
        ),
{
}

/// Every id of a batch is shown: one more id adds itself behind a comma.
pub proof fn every_id_is_shown(ids: Seq<i64>, n: nat)
    requires
        n < ids.len(),
    ensures
        ids_joined(ids, (n + 1) as nat) == ids_joined(ids, n) + (if n == 0 {
            Seq::empty()
        } else {
            ", "@
        }) + text::signed_decimal(ids[n as int] as int),
        ids_shown(ids) == "["@ + ids_joined(ids, ids.len()) + "]"@,
{
    assert(ids_joined(ids, (n + 1) as nat) =~= ids_joined(ids, n) + (if n == 0 {
        Seq::empty()
    } else {
        ", "@
    }) + text::signed_decimal(ids[n as int] as int));
}

/// The faces to name are those of the list that the match tells; none where it tells no list.
pub proof fn matches_without_a_list_name_nobody(data: JsonView)
    ensures
        !(member_of(data, "matching_face_ids"@) matches Some(JsonView::Array(_))) ==> matched_ids(
            data,
        ).len() == 0,
        member_of(data, "matching_face_ids"@) matches Some(JsonView::Array(items)) ==> matched_ids(
            data,
        ) == integers_in(items, items.len()),
{
}

/// A batch counts with all its images, and for the images that are done exactly where it was good.
pub proof fn batch_counts_with_all_its_images(c: FaceCounts, size: nat, good: bool)
    ensures
        with_batch(c, size, good).dealt == c.dealt + size,
        with_batch(c, size, true).done == c.done + size,
        with_batch(c, size, false).done == c.done,
{
}

} // verus!
