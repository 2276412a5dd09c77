//! Runs that make vectors of media files, and the vector of a search text.

use vstd::prelude::*;

use crate::json::{
    items_of, json_document, json_rendered, member_at, member_of, Json, JsonView,
};
use crate::paths::texts_view;
use crate::scan::ScanSummary;
use crate::sidecar::{
    embedding_rows, embedding_rows_view, empty_embeddings, is_result, labelled_document,
    query_embedding, read_embeddings, read_query_embedding, sidecar_document, EmbeddingBatch,
    SidecarResult,
};
use crate::text;

verus! {

/// How many files one request of an embedding run names.
pub const EMBEDDING_BATCH_SIZE: usize = 256;

/// The text that was chosen, or `otherwise`.
pub open spec fn chosen(choice: Option<String>, otherwise: Seq<char>) -> Seq<char> {
    match choice {
        Some(c) => c@,
        None => otherwise,
    }
}

/// The provider of a run: the local one where none is chosen.
pub fn chosen_provider(provider: Option<String>) -> (p: String)
    ensures
        p@ == chosen(provider, "fastembed"@),
{
    match provider {
        Some(p) => p,
        None => "fastembed".to_string(),
    }
}

/// The model of a run.
pub fn chosen_model(model: Option<String>) -> (m: String)
    ensures
        m@ == chosen(model, "Qdrant/clip-ViT-B-32"@),
{
    match model {
        Some(m) => m,
        None => "Qdrant/clip-ViT-B-32".to_string(),
    }
}

/// Whether a run takes images only: the local provider makes vectors of nothing else.
pub fn embeds_images_only(provider: &str) -> (yes: bool)
    ensures
        yes == (provider@ == "fastembed"@),
{
    text::text_eq(provider, "fastembed")
}

/// The arguments of a request for the vectors of files.
pub open spec fn embed_arguments(
    provider: Seq<char>,
    model: Seq<char>,
    workers: nat,
    batch_size: nat,
    image_max_width: Option<u32>,
) -> Seq<Seq<char>> {
    seq![
        "embed"@,
        "--provider"@,
        provider,
        "--model"@,
        model,
        "--workers"@,
        text::decimal(workers),
        "--batch-size"@,
        text::decimal(batch_size),
    ] + match image_max_width {
        Some(w) => if w > 0 {
            seq!["--image-max-width"@, text::decimal(w as nat)]
        } else {
            Seq::empty()
        },
        None => Seq::empty(),
    }
}

fn push_text(list: &mut Vec<String>, t: String)
    ensures
        texts_view(final(list)@) == texts_view(old(list)@).push(t@),
{
    let ghost before = texts_view(list@);
    let ghost added = t@;
    list.push(t);
    assert(texts_view(list@) =~= before.push(added));
}

/// See [`embed_arguments`].
pub fn embed_args(
    provider: &str,
    model: &str,
    workers: usize,
    batch_size: usize,
    image_max_width: Option<u32>,
) -> (args: Vec<String>)
    ensures
        texts_view(args@) == embed_arguments(
            provider@,
            model@,
            workers as nat,
            batch_size as nat,
            image_max_width,
        ),
{
    let mut args: Vec<String> = Vec::new();
    push_text(&mut args, "embed".to_string());
    push_text(&mut args, "--provider".to_string());
    push_text(&mut args, provider.to_string());
    push_text(&mut args, "--model".to_string());
    push_text(&mut args, model.to_string());
    push_text(&mut args, "--workers".to_string());
    push_text(&mut args, text::to_decimal(workers as u128));
    push_text(&mut args, "--batch-size".to_string());
    push_text(&mut args, text::to_decimal(batch_size as u128));
    if let Some(w) = image_max_width {
        if w > 0 {
            push_text(&mut args, "--image-max-width".to_string());
            push_text(&mut args, text::to_decimal(w as u128));
        }
    }
    assert(texts_view(args@) =~= embed_arguments(
        provider@,
        model@,
        workers as nat,
        batch_size as nat,
        image_max_width,
    ));
    args
}

/// The arguments of a request for the vector of a text.
pub fn query_args(provider: &str, model: &str, workers: usize, query: &str) -> (args: Vec<String>)
    ensures
        texts_view(args@) == seq![
            "embed"@,
            "--provider"@,
            provider@,
            "--model"@,
            model@,
            "--workers"@,
            text::decimal(workers as nat),
            "--text"@,
            query@,
        ],
{
    let mut args: Vec<String> = Vec::new();
    push_text(&mut args, "embed".to_string());
    push_text(&mut args, "--provider".to_string());
    push_text(&mut args, provider.to_string());
    push_text(&mut args, "--model".to_string());
    push_text(&mut args, model.to_string());
    push_text(&mut args, "--workers".to_string());
    push_text(&mut args, text::to_decimal(workers as u128));
    push_text(&mut args, "--text".to_string());
    push_text(&mut args, query.to_string());
    args
}

/// The vector of a search text by the run of the sidecar that made it, or the message of what
/// went wrong.
pub fn query_vector(res: &SidecarResult) -> (vector: Result<Json, String>)
    ensures
        is_result(
            vector,
            if !res.ok {
                Err(res.stderr@)
            } else {
                match labelled_document("invalid sidecar JSON: "@, res.stdout@) {
                    Ok(doc) => match query_embedding(doc) {
                        Some(v) => Ok(v),
                        None => Err("sidecar did not return a query embedding"@),
                    },
                    Err(e) => Err(e),
                }
            },
        ),
{
    if !res.ok {
        return Err(res.stderr.clone());
    }
    match sidecar_document(res.stdout.as_str()) {
        Ok(doc) => read_query_embedding(&doc),
        Err(e) => Err(e),
    }
}

/// A number as a JSON value.
pub open spec fn number_json(n: nat) -> JsonView {
    JsonView::Number(
        text::decimal(n),
        if n <= i64::MAX {
            Some(n as i64)
        } else {
            None
        },
    )
}

fn number_to_json(n: usize) -> (j: Json)
    ensures
        j@ == number_json(n as nat),
{
    let integer: Option<i64> = if n as u128 <= 0x7fff_ffff_ffff_ffff {
        Some(n as i64)
    } else {
        None
    };
    Json::Number(text::to_decimal(n as u128), integer)
}

/// The answer of a run that made `embedded` vectors of `total` files.
pub open spec fn run_answer(embedded: nat, skipped: nat, total: nat) -> JsonView {
    JsonView::Object(
        seq![
            (
                "data"@,
                JsonView::Object(
                    seq![
                        ("embedded"@, number_json(embedded)),
                        ("skipped"@, number_json(skipped)),
                        ("total"@, number_json(total)),
                    ],
                ),
            ),
            ("ok"@, JsonView::Bool(true)),
        ],
    )
}

fn write_run_answer(embedded: usize, skipped: usize, total: usize) -> (t: String)
    ensures
        t@ == json_rendered(run_answer(embedded as nat, skipped as nat, total as nat)),
{
    let mut counts: Vec<(String, Json)> = Vec::new();
    counts.push(("embedded".to_string(), number_to_json(embedded)));
    counts.push(("skipped".to_string(), number_to_json(skipped)));
    counts.push(("total".to_string(), number_to_json(total)));
    let data = Json::Object(counts);
    proof {
        if let JsonView::Object(a) = data@ {
            assert(a =~= seq![
                ("embedded"@, number_json(embedded as nat)),
                ("skipped"@, number_json(skipped as nat)),
                ("total"@, number_json(total as nat)),
            ]);
        }
    }
    let yes = Json::Bool(true);
    assert(yes@ == JsonView::Bool(true));
    let mut members: Vec<(String, Json)> = Vec::new();
    members.push(("data".to_string(), data));
    members.push(("ok".to_string(), yes));
    let answer = Json::Object(members);
    proof {
        if let (JsonView::Object(a), JsonView::Object(b)) = (
            answer@,
            run_answer(embedded as nat, skipped as nat, total as nat),
        ) {
            assert(a =~= b);
        }
    }
    answer.render()
}

/// A run over `total` files that is under way.
pub struct EmbeddingRun {
    pub total: usize,
    pub inserted: usize,
    pub skipped: usize,
    pub summary: ScanSummary,
    pub last: SidecarResult,
}

/// What `a` has over `b`, or nothing.
pub open spec fn excess(a: int, b: int) -> int {
    if a > b {
        a - b
    } else {
        0
    }
}

fn excess_of(a: usize, b: usize) -> (n: usize)
    ensures
        n == excess(a as int, b as int),
{
    if a > b {
        a - b
    } else {
        0
    }
}

impl EmbeddingRun {
    /// Starts a run.
    pub fn new(total: usize) -> (r: Self)
        ensures
            r.total == total,
            r.inserted == 0,
            r.skipped == 0,
            r.summary.scanned_files == 0,
            r.summary.imported_or_updated == 0,
            r.summary.skipped_files == 0,
            r.summary.missing_marked == 0,
            r.summary.errors@.len() == 0,
            r.last.ok,
            r.last.stdout@ == Seq::<char>::empty(),
            r.last.stderr@ == Seq::<char>::empty(),
    {
        EmbeddingRun {
            total,
            inserted: 0,
            skipped: 0,
            summary: ScanSummary::new(),
            last: SidecarResult { ok: true, stdout: String::new(), stderr: String::new() },
        }
    }

    /// Reads the answer for a batch. A failed answer ends the run: its message is noted, and there
    /// is nothing to write.
    pub fn take_answer(&mut self, rows: &Vec<(i64, String)>, res: SidecarResult) -> (batch: Result<
        Option<EmbeddingBatch>,
        String,
    >)
        ensures
            final(self).total == old(self).total,
            final(self).inserted == old(self).inserted,
            final(self).skipped == old(self).skipped,
            crate::scan::same_counts(final(self).summary, old(self).summary),
            match batch {
                Ok(None) => !res.ok && final(self).last == res && texts_view(
                    final(self).summary.errors@,
                ) == texts_view(old(self).summary.errors@).push(res.stderr@),
                Ok(Some(b)) => res.ok && final(self).last == res && final(self).summary.errors
                    == old(self).summary.errors && (json_document(res.stdout@) matches Ok(doc) && (
                match items_of(member_at(doc, "data"@, "embeddings"@)) {
                    Some(items) => embedding_rows_view(b.rows@) == embedding_rows(
                        rows@,
                        items,
                        items.len(),
                    ) && b.skipped == empty_embeddings(rows@, items, items.len()),
                    None => b.rows@.len() == 0 && b.skipped == 0,
                })),
                Err(message) => res.ok && *final(self) == *old(self) && (json_document(
                    res.stdout@,
                ) matches Err(e) && message@ == "invalid sidecar JSON: "@ + e),
            },
    {
        if !res.ok {
            push_text(&mut self.summary.errors, res.stderr.clone());
            self.last = res;
            return Ok(None);
        }
        match sidecar_document(res.stdout.as_str()) {
            Ok(doc) => {
                self.last = res;
                Ok(Some(read_embeddings(&doc, rows)))
            },
            Err(e) => Err(e),
        }
    }

    /// Counts a batch that was written: how many files it named, how many vectors were stored and
    /// how many were empty. What was named and neither stored nor empty was skipped too.
    pub fn note_batch(&mut self, files: usize, stored: usize, empty: usize)
        requires
            old(self).summary.scanned_files + files <= usize::MAX,
            old(self).inserted + stored + old(self).skipped + empty <= usize::MAX,
        ensures
            final(self).total == old(self).total,
            final(self).last == old(self).last,
            final(self).inserted == old(self).inserted + stored,
            final(self).skipped == old(self).skipped + empty,
            final(self).summary.scanned_files == old(self).summary.scanned_files + files,
            final(self).summary.imported_or_updated == final(self).inserted,
            final(self).summary.skipped_files == final(self).skipped + excess(
                final(self).summary.scanned_files as int,
                final(self).inserted + final(self).skipped,
            ),
            final(self).summary.missing_marked == old(self).summary.missing_marked,
            final(self).summary.errors == old(self).summary.errors,
    {
        self.inserted = self.inserted + stored;
        self.skipped = self.skipped + empty;
        self.summary.scanned_files = self.summary.scanned_files + files;
        self.summary.imported_or_updated = self.inserted;
        self.summary.skipped_files = self.skipped + excess_of(
            self.summary.scanned_files,
            self.inserted + self.skipped,
        );
    }

    /// Ends the counts: every file without a vector was skipped.
    pub fn finish(&mut self)
        ensures
            final(self).total == old(self).total,
            final(self).last == old(self).last,
            final(self).inserted == old(self).inserted,
            final(self).skipped == old(self).skipped,
            final(self).summary.scanned_files == old(self).summary.scanned_files,
            final(self).summary.imported_or_updated == old(self).inserted,
            final(self).summary.skipped_files == excess(
                old(self).total as int,
                old(self).inserted as int,
            ),
            final(self).summary.missing_marked == old(self).summary.missing_marked,
            final(self).summary.errors == old(self).summary.errors,
    {
        self.summary.imported_or_updated = self.inserted;
        self.summary.skipped_files = excess_of(self.total, self.inserted);
    }

    /// The result of the run: the answer that ended it, with the counts in place of its output
    /// where it was good. A run without files has an answer of its own.
    pub fn result(self) -> (res: SidecarResult)
        ensures
            if self.total == 0 {
                res.ok && res.stdout@ == "{\"ok\":true,\"data\":{\"embedded\":0,\"skipped\":0}}"@
                    && res.stderr@ == Seq::<char>::empty()
            } else {
                res.ok == self.last.ok && res.stderr == self.last.stderr && res.stdout@
                    == if self.last.ok {
                    json_rendered(
                        run_answer(
                            self.inserted as nat,
                            self.summary.skipped_files as nat,
                            self.total as nat,
                        ),
                    )
                } else {
                    self.last.stdout@
                }
            },
    {
        if self.total == 0 {
            return SidecarResult {
                ok: true,
                stdout: "{\"ok\":true,\"data\":{\"embedded\":0,\"skipped\":0}}".to_string(),
                stderr: String::new(),
            };
        }
        let ok = self.last.ok;
        let stdout = if ok {
            write_run_answer(self.inserted, self.summary.skipped_files, self.total)
        } else {
            self.last.stdout
        };
        SidecarResult { ok, stdout, stderr: self.last.stderr }
    }
}

/// Every file that a run names is counted once: where it stored no more vectors than it named
/// files, the files with a vector and the skipped ones make up all of them, after each batch and
/// at the end.
pub proof fn embedded_and_skipped_make_up_all(
    scanned: int,
    total: int,
    inserted: int,
    skipped: int,
)
    requires
        0 <= inserted,
        0 <= skipped,
        inserted + skipped <= scanned <= total,
    ensures
        inserted + (skipped + excess(scanned, inserted + skipped)) == scanned,
        inserted + excess(total, inserted) == total,
{
}

/// A choice that was made stands, whatever the default is; the default stands in for none.
pub proof fn choice_stands(choice: Option<String>, otherwise: Seq<char>)
    ensures
        choice is Some ==> chosen(choice, otherwise) == choice->0@,
        choice is None ==> chosen(choice, otherwise) == otherwise,
{
}

/// A width only adds its own two arguments at the end, and one of zero adds nothing; every other
/// argument stands behind its own name.
pub proof fn arguments_stand_behind_their_names(
    provider: Seq<char>,
    model: Seq<char>,
    workers: nat,
    batch_size: nat,
    width: u32,
)
    ensures
        ({
            let plain = embed_arguments(provider, model, workers, batch_size, None);
            let wide = embed_arguments(provider, model, workers, batch_size, Some(width));
            &&& width == 0 ==> wide == plain
            &&& width > 0 ==> wide == plain + seq![
                "--image-max-width"@,
                text::decimal(width as nat),
            ]
            &&& plain.len() == 9
            &&& plain[0] == "embed"@
            &&& plain[1] == "--provider"@ && plain[2] == provider
            &&& plain[3] == "--model"@ && plain[4] == model
            &&& plain[5] == "--workers"@ && plain[6] == text::decimal(workers)
            &&& plain[7] == "--batch-size"@ && plain[8] == text::decimal(batch_size)
        }),
{
    let plain = embed_arguments(provider, model, workers, batch_size, None);
    let wide = embed_arguments(provider, model, workers, batch_size, Some(width));
    if width == 0 {
        assert(wide =~= plain);
    } else {
        assert(wide =~= plain + seq!["--image-max-width"@, text::decimal(width as nat)]);
    }
}

/// The answer of a run is a good one, and tells each count under its own name.
pub proof fn run_answer_tells_each_count(embedded: nat, skipped: nat, total: nat)
    ensures
        ({
            let doc = run_answer(embedded, skipped, total);
            &&& member_of(doc, "ok"@) == Some(JsonView::Bool(true))
            &&& is_count(member_at(doc, "data"@, "embedded"@), embedded)
            &&& is_count(member_at(doc, "data"@, "skipped"@), skipped)
            &&& is_count(member_at(doc, "data"@, "total"@), total)
        }),
{
    reveal_strlit("ok");
    reveal_strlit("data");
    reveal_strlit("embedded");
    reveal_strlit("skipped");
    reveal_strlit("total");
    reveal_with_fuel(crate::json::find_member, 4);
    assert("ok"@.len() != "data"@.len());
    assert("embedded"@.len() != "skipped"@.len());
    assert("embedded"@.len() != "total"@.len());
    assert("skipped"@.len() != "total"@.len());
}

/// Whether a value is a count in decimal, with its integer where that fits.
pub open spec fn is_count(value: Option<JsonView>, n: nat) -> bool {
    value matches Some(JsonView::Number(digits, integer)) && digits == text::decimal(n) && (n
        <= i64::MAX ==> integer is Some && integer->0 == n) && (n > i64::MAX ==> integer is None)
}

} // verus!
