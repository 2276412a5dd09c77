//! Requests to the media sidecar and what its answers say.

use vstd::prelude::*;

use crate::collections::TextMap;
use crate::answers::{
    every_face_with_a_known_path_has_its_row, every_vector_with_a_known_source_has_its_row,
    has_every_face, has_every_vector,
};
use crate::json::{
    items_of, json_document, jsons_view, member_at, member_of, parse_json, string_of, Json,
    JsonView,
};
use crate::order::{first_position, first_positions, last_position, last_positions, look_up,
    looks_up, positions_hold_text};
use crate::paths::{
    clean_path, clean_path_str, heic_extension, is_heic_path, opt_view, texts_view, PathParts,
};
use crate::text;

verus! {

/// What a run of the sidecar gave back.
pub struct SidecarResult {
    pub ok: bool,
    pub stdout: String,
    pub stderr: String,
}

/// Whether a result is the one expected.
pub open spec fn is_result(r: Result<Json, String>, expected: Result<JsonView, Seq<char>>) -> bool {
    match (r, expected) {
        (Ok(json), Ok(view)) => json@ == view,
        (Err(message), Err(text)) => message@ == text,
        _ => false,
    }
}

/// The data of an answer, or the message of its error.
pub open spec fn ok_data(doc: JsonView) -> Result<JsonView, Seq<char>> {
    if member_of(doc, "ok"@) == Some(JsonView::Bool(true)) {
        match member_of(doc, "data"@) {
            Some(data) => Ok(data),
            None => Err("sidecar response missing data"@),
        }
    } else {
        match string_of(member_at(doc, "error"@, "message"@)) {
            Some(message) => Err(message),
            None => Err("sidecar returned ok=false"@),
        }
    }
}

/// See [`ok_data`].
pub fn sidecar_ok_data(doc: &Json) -> (data: Result<Json, String>)
    ensures
        is_result(data, ok_data(doc@)),
{
    let ok = match doc.member("ok") {
        Some(j) => match j.as_truth() {
            Some(b) => b,
            None => false,
        },
        None => false,
    };
    if ok {
        match doc.member("data") {
            Some(data) => Ok(data.copy()),
            None => Err("sidecar response missing data".to_string()),
        }
    } else {
        match doc.member_in("error", "message") {
            Some(m) => match m.as_text() {
                Some(t) => Err(t.clone()),
                None => Err("sidecar returned ok=false".to_string()),
            },
            None => Err("sidecar returned ok=false".to_string()),
        }
    }
}

/// The data of the answer that a text holds, or the message of what is wrong with it.
pub open spec fn answer_data(stdout: Seq<char>) -> Result<JsonView, Seq<char>> {
    match json_document(text::trimmed(stdout)) {
        Ok(doc) => ok_data(doc),
        Err(e) => Err(
            "invalid JSON from sidecar: "@ + e + "; stdout="@ + text::head(stdout, 500),
        ),
    }
}

/// See [`answer_data`].
pub fn parse_sidecar_ok_data(stdout: &str) -> (data: Result<Json, String>)
    ensures
        is_result(data, answer_data(stdout@)),
{
    let trimmed = text::trim(stdout);
    match parse_json(trimmed.as_str()) {
        Ok(doc) => sidecar_ok_data(&doc),
        Err(e) => {
            let mut message = text::concat3("invalid JSON from sidecar: ", e.as_str(), "; stdout=");
            let shown = text::take_chars(stdout, 500);
            message.append(shown.as_str());
            Err(message)
        },
    }
}

/// The document that a text holds, or `label` with the message of the parser's error.
pub open spec fn labelled_document(label: Seq<char>, stdout: Seq<char>) -> Result<
    JsonView,
    Seq<char>,
> {
    match json_document(stdout) {
        Ok(doc) => Ok(doc),
        Err(e) => Err(label + e),
    }
}

/// The JSON document of an answer. See [`labelled_document`].
pub fn sidecar_document(stdout: &str) -> (doc: Result<Json, String>)
    ensures
        is_result(doc, labelled_document("invalid sidecar JSON: "@, stdout@)),
{
    match parse_json(stdout) {
        Ok(doc) => Ok(doc),
        Err(e) => Err(text::concat2("invalid sidecar JSON: ", e.as_str())),
    }
}

/// The result of a line that a face sidecar wrote. A blank line is an error; otherwise the
/// result is good where the line is a good answer.
pub fn face_sidecar_answer(stdout: String) -> (answer: Result<SidecarResult, String>)
    ensures
        match answer {
            Ok(r) => text::trimmed(stdout@).len() > 0 && r.ok == (answer_data(stdout@) is Ok)
                && r.stdout == stdout && r.stderr@ == Seq::<char>::empty(),
            Err(message) => text::trimmed(stdout@).len() == 0 && message@
                == "face sidecar exited without a response"@,
        },
{
    let trimmed = text::trim(stdout.as_str());
    if trimmed.as_str().is_empty() {
        return Err("face sidecar exited without a response".to_string());
    }
    let ok = parse_sidecar_ok_data(stdout.as_str()).is_ok();
    Ok(SidecarResult { ok, stdout, stderr: String::new() })
}

/// The value of a list of texts.
pub open spec fn texts_json(texts: Seq<Seq<char>>) -> JsonView {
    JsonView::Array(texts.map_values(|t: Seq<char>| JsonView::Text(t)))
}

fn texts_to_json(texts: &Vec<String>) -> (j: Json)
    ensures
        j@ == texts_json(texts_view(texts@)),
{
    let mut items: Vec<Json> = Vec::new();
    let mut i: usize = 0;
    while i < texts.len()
        invariant
            i <= texts.len(),
            items.len() == i,
            forall|j: int| 0 <= j < i ==> (#[trigger] items[j])@ == JsonView::Text(texts[j]@),
        decreases texts.len() - i,
    {
        items.push(Json::Text(texts[i].clone()));
        i = i + 1;
    }
    let j = Json::Array(items);
    proof {
        if let (JsonView::Array(a), JsonView::Array(b)) = (j@, texts_json(texts_view(texts@))) {
            assert(a =~= b);
        }
    }
    j
}

/// The request that names files.
pub open spec fn paths_request(paths: Seq<Seq<char>>) -> JsonView {
    JsonView::Object(seq![("paths"@, texts_json(paths))])
}

/// The text of a request that names files. See [`paths_request`].
pub fn paths_payload(paths: &Vec<String>) -> (payload: String)
    ensures
        payload@ == crate::json::json_rendered(paths_request(texts_view(paths@))),
{
    let mut members: Vec<(String, Json)> = Vec::new();
    members.push(("paths".to_string(), texts_to_json(paths)));
    let j = Json::Object(members);
    proof {
        if let (JsonView::Object(a), JsonView::Object(b)) = (
            j@,
            paths_request(texts_view(paths@)),
        ) {
            assert(a =~= b);
        }
    }
    j.render()
}

/// The request that converts HEIC images into a folder.
pub open spec fn conversion_request(cache_dir: Seq<char>, paths: Seq<Seq<char>>) -> JsonView {
    JsonView::Object(
        seq![("cache_dir"@, JsonView::Text(cache_dir)), ("paths"@, texts_json(paths))],
    )
}

/// The text of a request that converts HEIC images. See [`conversion_request`].
pub fn conversion_payload(cache_dir: &str, paths: &Vec<String>) -> (payload: String)
    ensures
        payload@ == crate::json::json_rendered(
            conversion_request(cache_dir@, texts_view(paths@)),
        ),
{
    let mut members: Vec<(String, Json)> = Vec::new();
    let dir = Json::Text(cache_dir.to_string());
    assert(dir@ == JsonView::Text(cache_dir@));
    members.push(("cache_dir".to_string(), dir));
    members.push(("paths".to_string(), texts_to_json(paths)));
    let j = Json::Object(members);
    proof {
        if let (JsonView::Object(a), JsonView::Object(b)) = (
            j@,
            conversion_request(cache_dir@, texts_view(paths@)),
        ) {
            assert(a =~= b);
        }
    }
    j.render()
}

/// The paths of the HEIC images among the first `n`.
pub open spec fn heic_texts(parts: Seq<PathParts>, n: nat) -> Seq<Seq<char>>
    decreases n,
{
    if n == 0 {
        Seq::empty()
    } else {
        let rest = heic_texts(parts, (n - 1) as nat);
        if heic_extension(opt_view(parts[n - 1].extension)) {
            rest.push(parts[n - 1].text@)
        } else {
            rest
        }
    }
}

/// The paths of the HEIC images in a list.
pub fn heic_paths(parts: &Vec<PathParts>) -> (paths: Vec<String>)
    ensures
        texts_view(paths@) == heic_texts(parts@, parts@.len()),
{
    let mut out: Vec<String> = Vec::new();
    assert(texts_view(out@) =~= Seq::empty());
    let mut i: usize = 0;
    while i < parts.len()
        invariant
            i <= parts.len(),
            texts_view(out@) == heic_texts(parts@, i as nat),
        decreases parts.len() - i,
    {
        if is_heic_path(&parts[i]) {
            let ghost before = texts_view(out@);
            out.push(parts[i].text.clone());
            assert(texts_view(out@) =~= before.push(parts[i as int].text@));
        }
        i = i + 1;
    }
    out
}

/// What a map to texts stands for.
pub open spec fn text_map_view(m: Map<Seq<char>, String>) -> Map<Seq<char>, Seq<char>> {
    m.map_values(|t: String| t@)
}

/// The conversions that the first `n` items tell: from cleaned source path to cleaned path of
/// the converted file. Items that lack one of the two are passed over.
pub open spec fn conversions_of(items: Seq<JsonView>, n: nat) -> Map<Seq<char>, Seq<char>>
    decreases n,
{
    if n == 0 {
        Map::empty()
    } else {
        let rest = conversions_of(items, (n - 1) as nat);
        match (
            string_of(member_of(items[n - 1], "source"@)),
            string_of(member_of(items[n - 1], "converted"@)),
        ) {
            (Some(s), Some(c)) => rest.insert(clean_path(s), clean_path(c)),
            _ => rest,
        }
    }
}

/// The conversions that an answer tells.
pub open spec fn conversions_in(doc: JsonView) -> Map<Seq<char>, Seq<char>> {
    match items_of(member_at(doc, "data"@, "conversions"@)) {
        Some(items) => conversions_of(items, items.len()),
        None => Map::empty(),
    }
}

fn member_text<'a>(item: &'a Json, key: &str) -> (t: Option<&'a String>)
    ensures
        match t {
            Some(s) => string_of(member_of(item@, key@)) == Some(s@),
            None => string_of(member_of(item@, key@)) is None,
        },
{
    match item.member(key) {
        Some(j) => j.as_text(),
        None => None,
    }
}

/// See [`conversions_in`].
pub fn read_conversions(doc: &Json) -> (m: TextMap<String>)
    ensures
        text_map_view(m@) == conversions_in(doc@),
{
    let mut out: TextMap<String> = TextMap::new();
    assert(text_map_view(out@) =~= Map::empty());
    let items = match doc.member_in("data", "conversions") {
        Some(j) => match j.as_items() {
            Some(items) => items,
            None => {
                return out;
            },
        },
        None => {
            return out;
        },
    };
    let ghost view = jsons_view(items@);
    let mut i: usize = 0;
    while i < items.len()
        invariant
            i <= items.len(),
            view == jsons_view(items@),
            text_map_view(out@) == conversions_of(view, i as nat),
        decreases items.len() - i,
    {
        let item = &items[i];
        assert(view[i as int] == item@);
        if let Some(source) = member_text(item, "source") {
            if let Some(converted) = member_text(item, "converted") {
                let ghost before = out@;
                let key = clean_path_str(source.as_str());
                let value = clean_path_str(converted.as_str());
                let ghost (k, v) = (key@, value);
                out.insert(key, value);
                assert(text_map_view(out@) =~= text_map_view(before).insert(k, v@));
            }
        }
        i = i + 1;
    }
    out
}

/// The conversions that a run of the sidecar tells, or the message of what went wrong.
pub fn converted_heic_paths(res: &SidecarResult) -> (m: Result<TextMap<String>, String>)
    ensures
        match m {
            Ok(map) => res.ok && (json_document(res.stdout@) matches Ok(doc) && text_map_view(map@)
                == conversions_in(doc)),
            Err(message) => if !res.ok {
                message@ == if text::trimmed(res.stderr@).len() == 0 {
                    "HEIC conversion failed"@
                } else {
                    text::trimmed(res.stderr@)
                }
            } else {
                json_document(res.stdout@) matches Err(e) && message@
                    == "invalid HEIC conversion JSON: "@ + e
            },
        },
{
    if !res.ok {
        let trimmed = text::trim(res.stderr.as_str());
        return if trimmed.as_str().is_empty() {
            Err("HEIC conversion failed".to_string())
        } else {
            Err(trimmed)
        };
    }
    match parse_json(res.stdout.as_str()) {
        Ok(doc) => Ok(read_conversions(&doc)),
        Err(e) => Err(text::concat2("invalid HEIC conversion JSON: ", e.as_str())),
    }
}

/// The path under which an item is shown: that of its converted file, if there is one.
pub fn display_path(conversions: &TextMap<String>, path: &str) -> (shown: Option<String>)
    ensures
        opt_view(shown) == if text_map_view(conversions@).contains_key(path@) {
            Some(text_map_view(conversions@)[path@])
        } else {
            None
        },
{
    match conversions.get(path) {
        Some(p) => Some(p.clone()),
        None => None,
    }
}

/// The path that the sidecar is given for a file.
pub open spec fn sidecar_path(conversions: Map<Seq<char>, Seq<char>>, path: Seq<char>) -> Seq<char> {
    if conversions.contains_key(path) {
        conversions[path]
    } else {
        path
    }
}

/// Rows of ids and paths with each path replaced by the one that the sidecar is given.
pub fn sidecar_media_rows(
    rows: &Vec<(i64, String)>,
    conversions: &TextMap<String>,
) -> (out: Vec<(i64, String)>)
    ensures
        out.len() == rows.len(),
        forall|i: int|
            0 <= i < rows.len() ==> (#[trigger] out[i]).0 == rows[i].0 && out[i].1@ == sidecar_path(
                text_map_view(conversions@),
                rows[i].1@,
            ),
{
    let mut out: Vec<(i64, String)> = Vec::new();
    let mut i: usize = 0;
    while i < rows.len()
        invariant
            i <= rows.len(),
            out.len() == i,
            forall|j: int|
                0 <= j < i ==> (#[trigger] out[j]).0 == rows[j].0 && out[j].1@ == sidecar_path(
                    text_map_view(conversions@),
                    rows[j].1@,
                ),
        decreases rows.len() - i,
    {
        let path = match conversions.get(rows[i].1.as_str()) {
            Some(p) => p.clone(),
            None => rows[i].1.clone(),
        };
        out.push((rows[i].0, path));
        i = i + 1;
    }
    out
}

/// The messages for the first `n` errors that a fingerprint answer tells.
pub open spec fn fingerprint_messages(errors: Seq<JsonView>, n: nat) -> Seq<Seq<char>>
    decreases n,
{
    if n == 0 {
        Seq::empty()
    } else {
        fingerprint_messages(errors, (n - 1) as nat).push(
            "visual fingerprint failed: "@ + crate::json::json_rendered(errors[n - 1]),
        )
    }
}

/// The messages for the errors that a fingerprint answer tells.
pub fn fingerprint_errors(doc: &Json) -> (messages: Vec<String>)
    ensures
        texts_view(messages@) == match items_of(member_at(doc@, "data"@, "errors"@)) {
            Some(errors) => fingerprint_messages(errors, errors.len()),
            None => Seq::empty(),
        },
{
    let mut out: Vec<String> = Vec::new();
    assert(texts_view(out@) =~= Seq::empty());
    if let Some(j) = doc.member_in("data", "errors") {
        if let Some(errors) = j.as_items() {
            let ghost view = jsons_view(errors@);
            let mut i: usize = 0;
            while i < errors.len()
                invariant
                    i <= errors.len(),
                    view == jsons_view(errors@),
                    texts_view(out@) == fingerprint_messages(view, i as nat),
                decreases errors.len() - i,
            {
                assert(view[i as int] == errors[i as int]@);
                let ghost before = texts_view(out@);
                let shown = errors[i].render();
                let message = text::concat2("visual fingerprint failed: ", shown.as_str());
                let ghost added = message@;
                out.push(message);
                assert(texts_view(out@) =~= before.push(added));
                i = i + 1;
            }
        }
    }
    out
}

/// The paths of rows of ids and paths.
pub open spec fn row_paths(rows: Seq<(i64, String)>) -> Seq<Seq<char>> {
    rows.map_values(|r: (i64, String)| r.1@)
}

/// The paths of rows of ids and paths.
pub fn paths_of_rows(rows: &Vec<(i64, String)>) -> (paths: Vec<String>)
    ensures
        texts_view(paths@) == row_paths(rows@),
        paths.len() == rows.len(),
{
    let mut out: Vec<String> = Vec::new();
    let mut i: usize = 0;
    while i < rows.len()
        invariant
            i <= rows.len(),
            out.len() == i,
            forall|j: int| 0 <= j < i ==> (#[trigger] out[j])@ == rows[j].1@,
        decreases rows.len() - i,
    {
        out.push(rows[i].1.clone());
        i = i + 1;
    }
    assert(texts_view(out@) =~= row_paths(rows@));
    out
}

/// The vector of a media item, as the sidecar tells it.
pub struct EmbeddingRow {
    pub media_id: i64,
    pub model: String,
    /// The components as they stand in the answer, at least one.
    pub vector: Vec<Json>,
}

/// What an [`EmbeddingRow`] stands for.
pub struct EmbeddingRowView {
    pub media_id: i64,
    pub model: Seq<char>,
    pub vector: Seq<JsonView>,
}

impl View for EmbeddingRow {
    type V = EmbeddingRowView;

    open spec fn view(&self) -> EmbeddingRowView {
        EmbeddingRowView {
            media_id: self.media_id,
            model: self.model@,
            vector: jsons_view(self.vector@),
        }
    }
}

/// The vectors of one batch, and the number of files for which the sidecar made none.
pub struct EmbeddingBatch {
    pub rows: Vec<EmbeddingRow>,
    pub skipped: usize,
}

/// What a list of embedding rows stands for.
pub open spec fn embedding_rows_view(s: Seq<EmbeddingRow>) -> Seq<EmbeddingRowView> {
    s.map_values(|r: EmbeddingRow| r@)
}

/// The text of a member, or `otherwise` where it is no text.
pub open spec fn text_or(item: JsonView, key: Seq<char>, otherwise: Seq<char>) -> Seq<char> {
    match string_of(member_of(item, key)) {
        Some(t) => t,
        None => otherwise,
    }
}

/// The media item of an embedding: the last row of the batch with its source path.
pub open spec fn embedding_source(rows: Seq<(i64, String)>, item: JsonView) -> Option<usize> {
    last_position(row_paths(rows), text_or(item, "source"@, Seq::empty()))
}

/// The components of an embedding, where it has some.
pub open spec fn embedding_vector(item: JsonView) -> Option<Seq<JsonView>> {
    match items_of(member_of(item, "embedding"@)) {
        Some(v) => if v.len() > 0 {
            Some(v)
        } else {
            None
        },
        None => None,
    }
}

/// The rows that the first `n` embeddings make.
pub open spec fn embedding_rows(
    rows: Seq<(i64, String)>,
    items: Seq<JsonView>,
    n: nat,
) -> Seq<EmbeddingRowView>
    decreases n,
{
    if n == 0 {
        Seq::empty()
    } else {
        let rest = embedding_rows(rows, items, (n - 1) as nat);
        match (embedding_source(rows, items[n - 1]), embedding_vector(items[n - 1])) {
            (Some(r), Some(vector)) => rest.push(
                EmbeddingRowView {
                    media_id: rows[r as int].0,
                    model: text_or(items[n - 1], "model"@, "unknown"@),
                    vector,
                },
            ),
            _ => rest,
        }
    }
}

/// The number of the first `n` embeddings that belong to a media item and have no components.
pub open spec fn empty_embeddings(rows: Seq<(i64, String)>, items: Seq<JsonView>, n: nat) -> nat
    decreases n,
{
    if n == 0 {
        0
    } else {
        empty_embeddings(rows, items, (n - 1) as nat) + (if embedding_source(rows, items[n - 1])
            is Some && embedding_vector(items[n - 1]) is None {
            1nat
        } else {
            0nat
        })
    }
}

fn copy_items(items: &Vec<Json>) -> (out: Vec<Json>)
    ensures
        jsons_view(out@) == jsons_view(items@),
{
    let mut out: Vec<Json> = Vec::new();
    let mut i: usize = 0;
    while i < items.len()
        invariant
            i <= items.len(),
            out.len() == i,
            forall|j: int| 0 <= j < i ==> (#[trigger] out[j])@ == items[j]@,
        decreases items.len() - i,
    {
        out.push(items[i].copy());
        i = i + 1;
    }
    assert(jsons_view(out@) =~= jsons_view(items@));
    out
}

/// The vectors that an answer tells of the media items of a batch.
pub fn read_embeddings(doc: &Json, rows: &Vec<(i64, String)>) -> (batch: EmbeddingBatch)
    ensures
        match items_of(member_at(doc@, "data"@, "embeddings"@)) {
            Some(items) => embedding_rows_view(batch.rows@) == embedding_rows(
                rows@,
                items,
                items.len(),
            ) && batch.skipped == empty_embeddings(rows@, items, items.len()),
            None => batch.rows@.len() == 0 && batch.skipped == 0,
        },
        items_of(member_at(doc@, "data"@, "embeddings"@)) matches Some(items) ==> has_every_vector(
            rows@,
            items,
            batch.rows@,
        ),
{
    let mut out: Vec<EmbeddingRow> = Vec::new();
    let mut skipped: usize = 0;
    assert(embedding_rows_view(out@) =~= Seq::empty());
    let items = match doc.member_in("data", "embeddings") {
        Some(j) => match j.as_items() {
            Some(items) => items,
            None => {
                return EmbeddingBatch { rows: out, skipped };
            },
        },
        None => {
            return EmbeddingBatch { rows: out, skipped };
        },
    };
    let ghost view = jsons_view(items@);
    let paths = paths_of_rows(rows);
    let by_path = last_positions(&paths);
    let mut i: usize = 0;
    while i < items.len()
        invariant
            i <= items.len(),
            view == jsons_view(items@),
            texts_view(paths@) == row_paths(rows@),
            paths.len() == rows.len(),
            forall|t: Seq<char>| #[trigger]
                looks_up(by_path@, t) == last_position(row_paths(rows@), t),
            skipped <= i,
            embedding_rows_view(out@) == embedding_rows(rows@, view, i as nat),
            skipped == empty_embeddings(rows@, view, i as nat),
        decreases items.len() - i,
    {
        let item = &items[i];
        assert(view[i as int] == item@);
        let source = match member_text(item, "source") {
            Some(s) => s.clone(),
            None => String::new(),
        };
        assert(source@ == text_or(item@, "source"@, Seq::empty()));
        if let Some(r) = look_up(&by_path, source.as_str()) {
            proof {
                positions_hold_text(row_paths(rows@), source@);
            }
            let vector = match item.member("embedding") {
                Some(j) => match j.as_items() {
                    Some(v) => if v.len() > 0 {
                        Some(v)
                    } else {
                        None
                    },
                    None => None,
                },
                None => None,
            };
            match vector {
                Some(v) => {
                    let model = match member_text(item, "model") {
                        Some(m) => m.clone(),
                        None => "unknown".to_string(),
                    };
                    let ghost before = embedding_rows_view(out@);
                    let row = EmbeddingRow { media_id: rows[r].0, model, vector: copy_items(v) };
                    let ghost added = row@;
                    out.push(row);
                    assert(embedding_rows_view(out@) =~= before.push(added));
                },
                None => {
                    skipped = skipped + 1;
                },
            }
        }
        i = i + 1;
    }
    proof {
        every_vector_with_a_known_source_has_its_row(rows@, view, out@);
    }
    EmbeddingBatch { rows: out, skipped }
}

/// The texts of the first `n` values, each of which is a number.
pub open spec fn number_texts(items: Seq<JsonView>, n: nat) -> Option<Seq<Seq<char>>>
    decreases n,
{
    if n == 0 {
        Some(Seq::empty())
    } else {
        match (number_texts(items, (n - 1) as nat), items[n - 1]) {
            (Some(rest), JsonView::Number(t, _)) => Some(rest.push(t)),
            _ => None,
        }
    }
}

/// Whether an optional list of texts is the one expected.
pub open spec fn are_texts(r: Option<Vec<String>>, expected: Option<Seq<Seq<char>>>) -> bool {
    match (r, expected) {
        (Some(v), Some(e)) => texts_view(v@) == e,
        (None, None) => true,
        _ => false,
    }
}

proof fn lemma_number_texts_fail(items: Seq<JsonView>, m: nat, n: nat)
    requires
        m <= n,
        number_texts(items, m) is None,
    ensures
        number_texts(items, n) is None,
    decreases n,
{
    if m < n {
        lemma_number_texts_fail(items, m, (n - 1) as nat);
    }
}

/// The decimal texts of a list of numbers, where every value is a number.
pub fn vector_texts(items: &Vec<Json>) -> (texts: Option<Vec<String>>)
    ensures
        are_texts(texts, number_texts(jsons_view(items@), items@.len())),
{
    let ghost view = jsons_view(items@);
    let mut out: Vec<String> = Vec::new();
    assert(texts_view(out@) =~= Seq::empty());
    let mut i: usize = 0;
    while i < items.len()
        invariant
            i <= items.len(),
            view == jsons_view(items@),
            number_texts(view, i as nat) == Some(texts_view(out@)),
        decreases items.len() - i,
    {
        assert(view[i as int] == items[i as int]@);
        let ghost before = texts_view(out@);
        match &items[i] {
            Json::Number(t, _) => {
                out.push(t.clone());
                assert(texts_view(out@) =~= before.push(t@));
            },
            _ => {
                proof {
                    lemma_number_texts_fail(view, (i + 1) as nat, view.len());
                }
                return None;
            },
        }
        i = i + 1;
    }
    Some(out)
}

/// The value at the embedding of the first text of an answer.
pub open spec fn query_embedding(doc: JsonView) -> Option<JsonView> {
    let first = match member_at(doc, "data"@, "embeddings"@) {
        Some(JsonView::Array(items)) => if items.len() > 0 {
            Some(items[0])
        } else {
            None
        },
        Some(other) => member_of(other, "0"@),
        None => None,
    };
    match first {
        Some(item) => member_of(item, "embedding"@),
        None => None,
    }
}

/// The embedding of a query text, or the message that there is none.
pub fn read_query_embedding(doc: &Json) -> (vector: Result<Json, String>)
    ensures
        is_result(
            vector,
            match query_embedding(doc@) {
                Some(v) => Ok(v),
                None => Err("sidecar did not return a query embedding"@),
            },
        ),
{
    let first = match doc.member_in("data", "embeddings") {
        Some(j) => match j.as_items() {
            Some(items) => if items.len() > 0 {
                Some(&items[0])
            } else {
                None
            },
            None => j.member("0"),
        },
        None => None,
    };
    let found = match first {
        Some(item) => item.member("embedding"),
        None => None,
    };
    match found {
        Some(v) => Ok(v.copy()),
        None => Err("sidecar did not return a query embedding".to_string()),
    }
}

/// The integers among the first `n` values.
pub open spec fn integers_in(items: Seq<JsonView>, n: nat) -> Seq<i64>
    decreases n,
{
    if n == 0 {
        Seq::empty()
    } else {
        let rest = integers_in(items, (n - 1) as nat);
        match items[n - 1] {
            JsonView::Number(_, Some(k)) => rest.push(k),
            _ => rest,
        }
    }
}

/// The ids of the faces that a match found.
pub fn matching_face_ids(data: &Json) -> (ids: Vec<i64>)
    ensures
        ids@ == match items_of(member_of(data@, "matching_face_ids"@)) {
            Some(items) => integers_in(items, items.len()),
            None => Seq::empty(),
        },
{
    let mut out: Vec<i64> = Vec::new();
    if let Some(j) = data.member("matching_face_ids") {
        if let Some(items) = j.as_items() {
            let ghost view = jsons_view(items@);
            let mut i: usize = 0;
            while i < items.len()
                invariant
                    i <= items.len(),
                    view == jsons_view(items@),
                    out@ == integers_in(view, i as nat),
                decreases items.len() - i,
            {
                assert(view[i as int] == items[i as int]@);
                if let Json::Number(_, Some(k)) = &items[i] {
                    out.push(*k);
                }
                i = i + 1;
            }
        }
    }
    out
}

/// Who a new face is.
pub enum FaceIdentity {
    /// The person with a name that its cluster gives.
    Named(String),
    /// The named person whose face is nearest, if one is near enough.
    Nearest,
    /// Nobody known.
    Unknown,
}

/// What a [`FaceIdentity`] stands for.
pub enum IdentityView {
    Named(Seq<char>),
    Nearest,
    Unknown,
}

/// A face that the sidecar found.
pub struct FaceRow {
    pub media_id: i64,
    pub identity: FaceIdentity,
    /// The components of its embedding in decimal; none where it has no embedding.
    pub embedding: Vec<String>,
    pub x: Option<String>,
    pub y: Option<String>,
    pub width: Option<String>,
    pub height: Option<String>,
    pub confidence: Option<String>,
}

/// What a [`FaceRow`] stands for.
pub struct FaceRowView {
    pub media_id: i64,
    pub identity: IdentityView,
    pub embedding: Seq<Seq<char>>,
    pub x: Option<Seq<char>>,
    pub y: Option<Seq<char>>,
    pub width: Option<Seq<char>>,
    pub height: Option<Seq<char>>,
    pub confidence: Option<Seq<char>>,
}

impl View for FaceRow {
    type V = FaceRowView;

    open spec fn view(&self) -> FaceRowView {
        FaceRowView {
            media_id: self.media_id,
            identity: match self.identity {
                FaceIdentity::Named(n) => IdentityView::Named(n@),
                FaceIdentity::Nearest => IdentityView::Nearest,
                FaceIdentity::Unknown => IdentityView::Unknown,
            },
            embedding: texts_view(self.embedding@),
            x: opt_view(self.x),
            y: opt_view(self.y),
            width: opt_view(self.width),
            height: opt_view(self.height),
            confidence: opt_view(self.confidence),
        }
    }
}

/// What a list of face rows stands for.
pub open spec fn face_rows_view(s: Seq<FaceRow>) -> Seq<FaceRowView> {
    s.map_values(|r: FaceRow| r@)
}

/// The text of the number that a value is.
pub open spec fn number_text(json: Option<JsonView>) -> Option<Seq<char>> {
    match json {
        Some(JsonView::Number(t, _)) => Some(t),
        _ => None,
    }
}

/// The components of a face's embedding; none where it has no list of numbers.
pub open spec fn face_embedding(face: JsonView) -> Seq<Seq<char>> {
    match items_of(member_of(face, "embedding"@)) {
        Some(items) => match number_texts(items, items.len()) {
            Some(t) => t,
            None => Seq::empty(),
        },
        None => Seq::empty(),
    }
}

/// The number of a face's cluster; zero where it has none.
pub open spec fn face_cluster(face: JsonView) -> i64 {
    match member_of(face, "cluster_id"@) {
        Some(JsonView::Number(_, Some(k))) => k,
        _ => 0,
    }
}

/// Who a face is: the person named after its cluster where clusters name people; nobody where
/// it has no embedding; else the nearest named person where identities are assigned.
pub open spec fn face_identity(face: JsonView, name_clusters: bool, assign: bool) -> IdentityView {
    if name_clusters {
        IdentityView::Named("Person "@ + text::signed_decimal(face_cluster(face) + 1))
    } else if face_embedding(face).len() == 0 {
        IdentityView::Unknown
    } else if assign {
        IdentityView::Nearest
    } else {
        IdentityView::Unknown
    }
}

/// The text of the number at a position of a face's box.
pub open spec fn box_number(face: JsonView, i: int) -> Option<Seq<char>> {
    match items_of(member_of(face, "bbox"@)) {
        Some(items) => if i < items.len() {
            number_text(Some(items[i]))
        } else {
            None
        },
        None => None,
    }
}

/// The face that an item of an answer tells.
pub open spec fn face_row(
    face: JsonView,
    media_id: i64,
    name_clusters: bool,
    assign: bool,
) -> FaceRowView {
    FaceRowView {
        media_id,
        identity: face_identity(face, name_clusters, assign),
        embedding: face_embedding(face),
        x: box_number(face, 0),
        y: box_number(face, 1),
        width: box_number(face, 2),
        height: box_number(face, 3),
        confidence: number_text(member_of(face, "confidence"@)),
    }
}

/// The faces that the first `n` items tell: those whose path is that of a row.
pub open spec fn face_rows(
    rows: Seq<(i64, String)>,
    items: Seq<JsonView>,
    name_clusters: bool,
    assign: bool,
    n: nat,
) -> Seq<FaceRowView>
    decreases n,
{
    if n == 0 {
        Seq::empty()
    } else {
        let rest = face_rows(rows, items, name_clusters, assign, (n - 1) as nat);
        match first_position(row_paths(rows), text_or(items[n - 1], "path"@, Seq::empty())) {
            Some(r) => rest.push(
                face_row(items[n - 1], rows[r as int].0, name_clusters, assign),
            ),
            None => rest,
        }
    }
}

fn number_of(json: Option<&Json>) -> (t: Option<String>)
    ensures
        opt_view(t) == match json {
            Some(j) => number_text(Some(j@)),
            None => None,
        },
{
    match json {
        Some(j) => match j {
            Json::Number(t, _) => Some(t.clone()),
            _ => None,
        },
        None => None,
    }
}

fn box_text(face: &Json, i: usize) -> (t: Option<String>)
    ensures
        opt_view(t) == box_number(face@, i as int),
{
    match face.member("bbox") {
        Some(j) => match j.as_items() {
            Some(items) => if i < items.len() {
                assert(jsons_view(items@)[i as int] == items[i as int]@);
                number_of(Some(&items[i]))
            } else {
                None
            },
            None => None,
        },
        None => None,
    }
}

fn embedding_of_face(face: &Json) -> (t: Vec<String>)
    ensures
        texts_view(t@) == face_embedding(face@),
{
    let none: Vec<String> = Vec::new();
    assert(texts_view(none@) =~= Seq::empty());
    match face.member("embedding") {
        Some(j) => match j.as_items() {
            Some(items) => match vector_texts(items) {
                Some(t) => t,
                None => none,
            },
            None => none,
        },
        None => none,
    }
}

fn cluster_of_face(face: &Json) -> (k: i64)
    ensures
        k == face_cluster(face@),
{
    match face.member("cluster_id") {
        Some(j) => match j {
            Json::Number(_, Some(k)) => *k,
            _ => 0,
        },
        None => 0,
    }
}

fn read_face(face: &Json, media_id: i64, name_clusters: bool, assign: bool) -> (row: FaceRow)
    ensures
        row@ == face_row(face@, media_id, name_clusters, assign),
{
    let embedding = embedding_of_face(face);
    let identity = if name_clusters {
        let number = text::to_signed_decimal(cluster_of_face(face) as i128 + 1);
        FaceIdentity::Named(text::concat2("Person ", number.as_str()))
    } else if embedding.len() == 0 {
        FaceIdentity::Unknown
    } else if assign {
        FaceIdentity::Nearest
    } else {
        FaceIdentity::Unknown
    };
    FaceRow {
        media_id,
        identity,
        embedding,
        x: box_text(face, 0),
        y: box_text(face, 1),
        width: box_text(face, 2),
        height: box_text(face, 3),
        confidence: number_of(face.member("confidence")),
    }
}

/// The faces that an answer tells of the files of `rows`; `None` where it tells no list of
/// faces, and then the catalog stays as it is.
pub fn read_faces(
    doc: &Json,
    rows: &Vec<(i64, String)>,
    name_clusters: bool,
    assign: bool,
) -> (faces: Option<Vec<FaceRow>>)
    ensures
        match (faces, items_of(member_at(doc@, "data"@, "faces"@))) {
            (Some(f), Some(items)) => face_rows_view(f@) == face_rows(
                rows@,
                items,
                name_clusters,
                assign,
                items.len(),
            ),
            (None, None) => true,
            _ => false,
        },
        faces matches Some(f) ==> (items_of(member_at(doc@, "data"@, "faces"@)) matches Some(items)
            && has_every_face(rows@, items, name_clusters, assign, f@)),
{
    let items = match doc.member_in("data", "faces") {
        Some(j) => match j.as_items() {
            Some(items) => items,
            None => {
                return None;
            },
        },
        None => {
            return None;
        },
    };
    let ghost view = jsons_view(items@);
    let paths = paths_of_rows(rows);
    let by_path = first_positions(&paths);
    let mut out: Vec<FaceRow> = Vec::new();
    assert(face_rows_view(out@) =~= Seq::empty());
    let mut i: usize = 0;
    while i < items.len()
        invariant
            i <= items.len(),
            view == jsons_view(items@),
            texts_view(paths@) == row_paths(rows@),
            paths.len() == rows.len(),
            forall|t: Seq<char>| #[trigger]
                looks_up(by_path@, t) == first_position(row_paths(rows@), t),
            face_rows_view(out@) == face_rows(rows@, view, name_clusters, assign, i as nat),
        decreases items.len() - i,
    {
        let item = &items[i];
        assert(view[i as int] == item@);
        let path = match member_text(item, "path") {
            Some(s) => s.clone(),
            None => String::new(),
        };
        assert(path@ == text_or(item@, "path"@, Seq::empty()));
        if let Some(r) = look_up(&by_path, path.as_str()) {
            proof {
                positions_hold_text(row_paths(rows@), path@);
            }
            let ghost before = face_rows_view(out@);
            let row = read_face(item, rows[r].0, name_clusters, assign);
            let ghost added = row@;
            out.push(row);
            assert(face_rows_view(out@) =~= before.push(added));
        }
        i = i + 1;
    }
    proof {
        every_face_with_a_known_path_has_its_row(rows@, view, name_clusters, assign, out@);
    }
    Some(out)
}

/// What a fingerprint request came to.
pub struct FingerprintAnswer {
    /// The messages to note.
    pub messages: Vec<String>,
    /// The list of fingerprints, where the run was good.
    pub fingerprints: Option<Json>,
}

/// The list of fingerprints that an answer tells; an empty list where it tells none.
pub open spec fn fingerprint_list(doc: JsonView) -> JsonView {
    match member_at(doc, "data"@, "fingerprints"@) {
        Some(list) => list,
        None => JsonView::Array(Seq::empty()),
    }
}

/// Reads the run of the sidecar for a fingerprint request. A failed run is passed over with its
/// message; an answer that is no JSON document is an error.
pub fn fingerprint_answer(res: SidecarResult) -> (answer: Result<FingerprintAnswer, String>)
    ensures
        match answer {
            Ok(a) => if !res.ok {
                a.fingerprints is None && texts_view(a.messages@) == seq![res.stderr@]
            } else {
                json_document(res.stdout@) matches Ok(doc) && (a.fingerprints matches Some(list)
                    && list@ == fingerprint_list(doc)) && texts_view(a.messages@) == match items_of(
                    member_at(doc, "data"@, "errors"@),
                ) {
                    Some(errors) => fingerprint_messages(errors, errors.len()),
                    None => Seq::empty(),
                }
            },
            Err(message) => res.ok && (json_document(res.stdout@) matches Err(e) && message@
                == "invalid sidecar JSON: "@ + e),
        },
{
    if !res.ok {
        let mut messages: Vec<String> = Vec::new();
        messages.push(res.stderr);
        assert(texts_view(messages@) =~= seq![res.stderr@]);
        return Ok(FingerprintAnswer { messages, fingerprints: None });
    }
    match sidecar_document(res.stdout.as_str()) {
        Ok(doc) => {
            let messages = fingerprint_errors(&doc);
            let list = match doc.member_in("data", "fingerprints") {
                Some(list) => list.copy(),
                None => {
                    let none = Json::Array(Vec::new());
                    proof {
                        if let JsonView::Array(a) = none@ {
                            assert(a =~= Seq::empty());
                        }
                    }
                    none
                },
            };
            Ok(FingerprintAnswer { messages, fingerprints: Some(list) })
        },
        Err(e) => Err(e),
    }
}

/// The paths among the first `n` that are not marked missing.
pub open spec fn present_texts(items: Seq<(String, bool)>, n: nat) -> Seq<Seq<char>>
    decreases n,
{
    if n == 0 {
        Seq::empty()
    } else {
        let rest = present_texts(items, (n - 1) as nat);
        if items[n - 1].1 {
            rest
        } else {
            rest.push(items[n - 1].0@)
        }
    }
}

/// The paths of the items that are not missing, of items with whether each is.
pub fn present_paths(items: &Vec<(String, bool)>) -> (paths: Vec<String>)
    ensures
        texts_view(paths@) == present_texts(items@, items@.len()),
{
    let mut out: Vec<String> = Vec::new();
    assert(texts_view(out@) =~= Seq::empty());
    let mut i: usize = 0;
    while i < items.len()
        invariant
            i <= items.len(),
            texts_view(out@) == present_texts(items@, i as nat),
        decreases items.len() - i,
    {
        if !items[i].1 {
            let ghost before = texts_view(out@);
            out.push(items[i].0.clone());
            assert(texts_view(out@) =~= before.push(items[i as int].0@));
        }
        i = i + 1;
    }
    out
}

/// The name of the file through which a request is handed over at a moment.
pub fn payload_file_name(nanos: u128) -> (name: String)
    ensures
        name@ == "rich-media-viewer-sidecar-"@ + text::decimal(nanos as nat) + ".json"@,
{
    let n = text::to_decimal(nanos);
    text::concat3("rich-media-viewer-sidecar-", n.as_str(), ".json")
}

/// Arguments with the file through which the request is handed over.
pub fn payload_args(args: Vec<String>, file: &str) -> (all: Vec<String>)
    ensures
        texts_view(all@) == texts_view(args@) + seq!["--json"@, "@"@ + file@],
{
    let mut all = args;
    let ghost before = texts_view(all@);
    all.push("--json".to_string());
    all.push(text::concat2("@", file));
    assert(texts_view(all@) =~= before + seq!["--json"@, "@"@ + file@]);
    all
}

} // verus!
