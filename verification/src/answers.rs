//! What becomes of the items of a sidecar's answer, one by one.

use vstd::prelude::*;

use crate::json::{find_member, json_document, member_at, member_of, JsonView};
use crate::keeping::first_and_last_positions;
use crate::order::{first_position, last_position};
use crate::paths::{clean_path, heic_extension, opt_view, texts_view, PathParts};
use crate::selection::positions;
use crate::sidecar::{
    answer_data, conversion_request, conversions_in, conversions_of, embedding_rows,
    embedding_rows_view, embedding_source, embedding_vector, empty_embeddings, face_embedding,
    face_row, face_rows, face_rows_view, fingerprint_list, fingerprint_messages, heic_texts,
    integers_in, number_texts, ok_data, paths_request, present_texts, query_embedding, row_paths,
    sidecar_path, text_or, EmbeddingRow, FaceRow,
};
use crate::text;

verus! {

/// Whether an object holds a member with this key and this value, and no earlier one with the
/// key.
pub open spec fn holds(json: JsonView, key: Seq<char>, value: JsonView) -> bool {
    json is Object && exists|i: int|
        0 <= i < json->Object_0.len() && (#[trigger] json->Object_0[i]) == (key, value)
            && forall|j: int| 0 <= j < i ==> (#[trigger] json->Object_0[j]).0 != key
}

/// Looking for a key finds the first member that has it, and nothing in a value that is no object
/// or has no such member.
pub proof fn member_is_the_first_with_its_key(json: JsonView, key: Seq<char>, value: JsonView)
    ensures
        member_of(json, key) == Some(value) <==> holds(json, key, value),
        member_of(json, key) is None <==> !(json is Object) || forall|i: int|
            0 <= i < json->Object_0.len() ==> (#[trigger] json->Object_0[i]).0 != key,
{
    if let JsonView::Object(members) = json {
        lemma_find_member(members, key, 0);
        let found = find_member(members, key, 0);
        if found == Some(value) {
            let i = choose|i: int|
                0 <= i < members.len() && (#[trigger] members[i]).0 == key && members[i].1 == value
                    && forall|j: int| 0 <= j < i ==> (#[trigger] members[j]).0 != key;
            assert(json->Object_0[i] == (key, value));
        }
        if holds(json, key, value) && found != Some(value) {
            let i = choose|i: int|
                0 <= i < json->Object_0.len() && (#[trigger] json->Object_0[i]) == (key, value)
                    && forall|j: int| 0 <= j < i ==> (#[trigger] json->Object_0[j]).0 != key;
            assert(members[i].0 == key);
            let other = found->0;
            let k = choose|k: int|
                0 <= k < members.len() && (#[trigger] members[k]).0 == key && members[k].1 == other
                    && forall|j: int| 0 <= j < k ==> (#[trigger] members[j]).0 != key;
            assert(members[k].0 == key);
            assert(k == i);
        }
    }
}

proof fn lemma_find_member(members: Seq<(Seq<char>, JsonView)>, key: Seq<char>, i: nat)
    ensures
        match find_member(members, key, i) {
            Some(v) => exists|k: int|
                i <= k < members.len() && (#[trigger] members[k]).0 == key && members[k].1 == v
                    && forall|j: int| i <= j < k ==> (#[trigger] members[j]).0 != key,
            None => forall|k: int| i <= k < members.len() ==> (#[trigger] members[k]).0 != key,
        },
    decreases members.len() - i,
{
    if i < members.len() {
        if members[i as int].0 == key {
            assert(members[i as int].1 == find_member(members, key, i)->0);
        } else {
            lemma_find_member(members, key, i + 1);
            if let Some(v) = find_member(members, key, i + 1) {
                let k = choose|k: int|
                    i + 1 <= k < members.len() && (#[trigger] members[k]).0 == key && members[k].1 == v
                        && forall|j: int| i + 1 <= j < k ==> (#[trigger] members[j]).0 != key;
                assert forall|j: int| i <= j < k implies (#[trigger] members[j]).0 != key by {
                    if j > i {
                        assert(i + 1 <= j < k);
                    }
                }
                assert(members[k].0 == key);
            }
        }
    }
}

/// The text of a member; no text where the member is missing or is none.
pub open spec fn text_in(item: JsonView, key: Seq<char>) -> Seq<char> {
    match member_of(item, key) {
        Some(JsonView::Text(t)) => t,
        _ => Seq::empty(),
    }
}

/// Whether one of the rows has the path.
pub open spec fn is_row_path(rows: Seq<(i64, String)>, path: Seq<char>) -> bool {
    exists|r: int| 0 <= r < rows.len() && (#[trigger] rows[r]).1@ == path
}

/// Whether `id` is that of the first row with the path.
pub open spec fn is_first_id(rows: Seq<(i64, String)>, path: Seq<char>, id: i64) -> bool {
    exists|r: int|
        0 <= r < rows.len() && (#[trigger] rows[r]).1@ == path && rows[r].0 == id && forall|j: int|
            0 <= j < r ==> (#[trigger] rows[j]).1@ != path
}

/// Whether `id` is that of the last row with the path.
pub open spec fn is_last_id(rows: Seq<(i64, String)>, path: Seq<char>, id: i64) -> bool {
    exists|r: int|
        0 <= r < rows.len() && (#[trigger] rows[r]).1@ == path && rows[r].0 == id && forall|j: int|
            r < j < rows.len() ==> (#[trigger] rows[j]).1@ != path
}

/// Whether `t` is the decimal text of a number, and missing where the value is no number.
pub open spec fn is_number(t: Option<String>, value: Option<JsonView>) -> bool {
    match value {
        Some(JsonView::Number(digits, _)) => t is Some && t->0@ == digits,
        _ => t is None,
    }
}

/// The entry of an array that a member is.
pub open spec fn entry_in(item: JsonView, key: Seq<char>, i: int) -> Option<JsonView> {
    match member_of(item, key) {
        Some(JsonView::Array(entries)) => if 0 <= i < entries.len() {
            Some(entries[i])
        } else {
            None
        },
        _ => None,
    }
}

/// Whether `v` are the numbers of the array that a member is, and nothing where an entry is no
/// number or the member is no array.
pub open spec fn are_numbers(v: Seq<String>, item: JsonView, key: Seq<char>) -> bool {
    match member_of(item, key) {
        Some(JsonView::Array(entries)) => if forall|i: int|
            0 <= i < entries.len() ==> (#[trigger] entries[i]) is Number {
            v.len() == entries.len() && forall|i: int|
                0 <= i < v.len() ==> (#[trigger] v[i])@ == entries[i]->Number_0
        } else {
            v.len() == 0
        },
        _ => v.len() == 0,
    }
}

/// Whether a row holds what an item of an answer tells of a face: the row of its path, the four
/// numbers of its box in their order, its confidence and its embedding.
pub open spec fn is_face_of(rows: Seq<(i64, String)>, item: JsonView, face: FaceRow) -> bool {
    &&& is_first_id(rows, text_in(item, "path"@), face.media_id)
    &&& is_number(face.x, entry_in(item, "bbox"@, 0))
    &&& is_number(face.y, entry_in(item, "bbox"@, 1))
    &&& is_number(face.width, entry_in(item, "bbox"@, 2))
    &&& is_number(face.height, entry_in(item, "bbox"@, 3))
    &&& is_number(face.confidence, member_of(item, "confidence"@))
    &&& are_numbers(face.embedding@, item, "embedding"@)
}

/// Whether the identity of a face is what was asked for: the name of its cluster, counted from
/// one, where clusters are named; else the nearest person where faces are assigned and it has an
/// embedding; else none.
pub open spec fn is_identity_of(face: FaceRow, item: JsonView, name_clusters: bool, assign: bool) -> bool {
    &&& name_clusters ==> face.identity is Named && face.identity->Named_0@ == "Person "@
        + text::signed_decimal(
        1 + match member_of(item, "cluster_id"@) {
            Some(JsonView::Number(_, Some(k))) => k,
            _ => 0,
        },
    )
    &&& !name_clusters ==> (face.identity is Nearest <==> assign && face.embedding.len() > 0)
    &&& !name_clusters ==> (face.identity is Unknown <==> !assign || face.embedding.len() == 0)
}

proof fn lemma_row_id(rows: Seq<(i64, String)>, path: Seq<char>)
    requires
        rows.len() <= usize::MAX,
    ensures
        first_position(row_paths(rows), path) is Some <==> is_row_path(rows, path),
        last_position(row_paths(rows), path) is Some <==> is_row_path(rows, path),
        first_position(row_paths(rows), path) matches Some(r) ==> is_first_id(
            rows,
            path,
            rows[r as int].0,
        ),
        last_position(row_paths(rows), path) matches Some(r) ==> is_last_id(
            rows,
            path,
            rows[r as int].0,
        ),
{
    let p = row_paths(rows);
    assert(p.len() == rows.len());
    first_and_last_positions(p, path);
    assert forall|j: int| 0 <= j < rows.len() implies p[j] == (#[trigger] rows[j]).1@ by {}
    if let Some(r) = first_position(p, path) {
        assert(rows[r as int].1@ == path);
    }
    if let Some(r) = last_position(p, path) {
        assert(rows[r as int].1@ == path);
    }
    if is_row_path(rows, path) {
        let r = choose|r: int| 0 <= r < rows.len() && (#[trigger] rows[r]).1@ == path;
        assert(p[r] == path);
    }
}

proof fn lemma_number_texts(items: Seq<JsonView>, n: nat)
    requires
        n <= items.len(),
    ensures
        number_texts(items, n) is Some <==> forall|i: int|
            0 <= i < n ==> (#[trigger] items[i]) is Number,
        number_texts(items, n) matches Some(t) ==> t.len() == n && forall|i: int|
            0 <= i < n ==> #[trigger] t[i] == items[i]->Number_0,
    decreases n,
{
    if n > 0 {
        lemma_number_texts(items, (n - 1) as nat);
        if number_texts(items, n) is None && items[n - 1] is Number {
            let i = choose|i: int| 0 <= i < n - 1 && !((#[trigger] items[i]) is Number);
            assert(!(items[i] is Number));
        }
    }
}

/// A list of numbers is read whole or not at all: it is read exactly where every entry is a
/// number, and then each stands at its place.
pub proof fn numbers_are_read_whole(items: Seq<JsonView>)
    ensures
        number_texts(items, items.len()) is Some <==> forall|i: int|
            0 <= i < items.len() ==> (#[trigger] items[i]) is Number,
        number_texts(items, items.len()) matches Some(t) ==> t.len() == items.len() && forall|i: int|
            0 <= i < t.len() ==> #[trigger] t[i] == items[i]->Number_0,
{
    lemma_number_texts(items, items.len());
}

proof fn lemma_face_rows(
    rows: Seq<(i64, String)>,
    items: Seq<JsonView>,
    name_clusters: bool,
    assign: bool,
    n: nat,
)
    requires
        rows.len() <= usize::MAX,
    ensures
        ({
            let known = positions(n, |i: int| is_row_path(rows, text_in(items[i], "path"@)));
            let faces = face_rows(rows, items, name_clusters, assign, n);
            &&& faces.len() == known.len()
            &&& forall|m: int|
                0 <= m < faces.len() ==> #[trigger] faces[m] == face_row(
                    items[known[m]],
                    rows[first_position(
                        row_paths(rows),
                        text_in(items[known[m]], "path"@),
                    )->0 as int].0,
                    name_clusters,
                    assign,
                ) && is_row_path(rows, text_in(items[known[m]], "path"@))
        }),
    decreases n,
{
    if n > 0 {
        lemma_face_rows(rows, items, name_clusters, assign, (n - 1) as nat);
        let t = text_in(items[n - 1], "path"@);
        assert(t == text_or(items[n - 1], "path"@, Seq::empty()));
        lemma_row_id(rows, t);
    }
}

/// Whether there is one row for each item of an answer whose path is that of some row, however many
/// share one path, and the `m`-th row is that of the `m`-th such item and holds what it tells.
pub open spec fn has_every_face(
    rows: Seq<(i64, String)>,
    items: Seq<JsonView>,
    name_clusters: bool,
    assign: bool,
    faces: Seq<FaceRow>,
) -> bool {
    let known = positions(items.len(), |i: int| is_row_path(rows, text_in(items[i], "path"@)));
    &&& faces.len() == known.len()
    &&& forall|m: int|
        0 <= m < faces.len() ==> is_face_of(rows, items[known[m]], #[trigger] faces[m])
            && is_identity_of(faces[m], items[known[m]], name_clusters, assign)
}

/// No face is dropped. See [`has_every_face`].
pub proof fn every_face_with_a_known_path_has_its_row(
    rows: Seq<(i64, String)>,
    items: Seq<JsonView>,
    name_clusters: bool,
    assign: bool,
    faces: Seq<FaceRow>,
)
    requires
        rows.len() <= usize::MAX,
        face_rows_view(faces) == face_rows(rows, items, name_clusters, assign, items.len()),
    ensures
        has_every_face(rows, items, name_clusters, assign, faces),
{
    let known = positions(items.len(), |i: int| is_row_path(rows, text_in(items[i], "path"@)));
    lemma_face_rows(rows, items, name_clusters, assign, items.len());
    assert forall|m: int| 0 <= m < faces.len() implies is_face_of(
        rows,
        items[known[m]],
        #[trigger] faces[m],
    ) && is_identity_of(faces[m], items[known[m]], name_clusters, assign) by {
        let item = items[known[m]];
        let face = faces[m];
        assert(face_rows_view(faces)[m] == face@);
        lemma_row_id(rows, text_in(item, "path"@));
        assert(face@.embedding == face_embedding(item));
        assert(face@.embedding == texts_view(face.embedding@));
        assert forall|i: int| 0 <= i < face.embedding.len() implies (#[trigger] face.embedding[i])@
            == face@.embedding[i] by {}
        if let Some(JsonView::Array(entries)) = member_of(item, "embedding"@) {
            lemma_number_texts(entries, entries.len());
        }
        assert(face@.x == opt_view(face.x));
        assert(face@.y == opt_view(face.y));
        assert(face@.width == opt_view(face.width));
        assert(face@.height == opt_view(face.height));
        assert(face@.confidence == opt_view(face.confidence));
        assert(are_numbers(face.embedding@, item, "embedding"@));
        assert(is_face_of(rows, item, face));
    }
}

/// Whether an item of an answer has a vector: an array with at least one entry.
pub open spec fn has_vector(item: JsonView) -> bool {
    member_of(item, "embedding"@) matches Some(JsonView::Array(v)) && v.len() > 0
}

/// The items of an answer whose source is the path of some row and which have a vector.
pub open spec fn tells_vector(rows: Seq<(i64, String)>, items: Seq<JsonView>) -> spec_fn(int) -> bool {
    |i: int| is_row_path(rows, text_in(items[i], "source"@)) && has_vector(items[i])
}

/// Whether a row holds what an item of an answer tells of a vector: the last row of its source,
/// its model, where it names one, and the whole vector.
pub open spec fn is_vector_of(
    rows: Seq<(i64, String)>,
    item: JsonView,
    media_id: i64,
    model: Seq<char>,
    vector: Seq<JsonView>,
) -> bool {
    &&& is_last_id(rows, text_in(item, "source"@), media_id)
    &&& member_of(item, "embedding"@) == Some(JsonView::Array(vector))
    &&& model == match member_of(item, "model"@) {
        Some(JsonView::Text(name)) => name,
        _ => "unknown"@,
    }
}

proof fn lemma_embedding_rows(rows: Seq<(i64, String)>, items: Seq<JsonView>, n: nat)
    requires
        rows.len() <= usize::MAX,
    ensures
        embedding_rows(rows, items, n).len() == positions(n, tells_vector(rows, items)).len(),
        forall|m: int|
            0 <= m < embedding_rows(rows, items, n).len() ==> is_vector_of(
                rows,
                items[positions(n, tells_vector(rows, items))[m]],
                (#[trigger] embedding_rows(rows, items, n)[m]).media_id,
                embedding_rows(rows, items, n)[m].model,
                embedding_rows(rows, items, n)[m].vector,
            ),
        empty_embeddings(rows, items, n) == positions(
            n,
            |i: int| is_row_path(rows, text_in(items[i], "source"@)) && !has_vector(items[i]),
        ).len(),
    decreases n,
{
    if n > 0 {
        lemma_embedding_rows(rows, items, (n - 1) as nat);
        let item = items[n - 1];
        let t = text_in(item, "source"@);
        assert(t == text_or(item, "source"@, Seq::empty()));
        lemma_row_id(rows, t);
        let before = positions((n - 1) as nat, tells_vector(rows, items));
        let known = positions(n, tells_vector(rows, items));
        let rest = embedding_rows(rows, items, (n - 1) as nat);
        let out = embedding_rows(rows, items, n);
        assert(has_vector(item) <==> embedding_vector(item) is Some);
        assert(embedding_source(rows, item) is Some <==> is_row_path(rows, t));
        if is_row_path(rows, t) && has_vector(item) {
            assert(known == before.push(n - 1));
            assert(out == rest.push(out.last()));
            assert(is_vector_of(
                rows,
                item,
                out.last().media_id,
                out.last().model,
                out.last().vector,
            ));
        } else {
            assert(known == before);
            assert(out == rest);
        }
        assert forall|m: int| 0 <= m < out.len() implies is_vector_of(
            rows,
            items[known[m]],
            (#[trigger] out[m]).media_id,
            out[m].model,
            out[m].vector,
        ) by {
            if m < rest.len() {
                assert(out[m] == rest[m]);
                assert(known[m] == before[m]);
            }
        }
    }
}

/// Whether there is one row for each item of an answer whose source is the path of some row and
/// which has a vector, in order, and it holds what the item tells.
pub open spec fn has_every_vector(
    rows: Seq<(i64, String)>,
    items: Seq<JsonView>,
    out: Seq<EmbeddingRow>,
) -> bool {
    &&& out.len() == positions(items.len(), tells_vector(rows, items)).len()
    &&& forall|m: int|
        0 <= m < out.len() ==> is_vector_of(
            rows,
            items[positions(items.len(), tells_vector(rows, items))[m]],
            (#[trigger] out[m]).media_id,
            out[m].model@,
            crate::json::jsons_view(out[m].vector@),
        )
}

/// No vector is dropped, and every item with a known source that has no vector is counted. See
/// [`has_every_vector`].
pub proof fn every_vector_with_a_known_source_has_its_row(
    rows: Seq<(i64, String)>,
    items: Seq<JsonView>,
    out: Seq<EmbeddingRow>,
)
    requires
        rows.len() <= usize::MAX,
        embedding_rows_view(out) == embedding_rows(rows, items, items.len()),
    ensures
        has_every_vector(rows, items, out),
        empty_embeddings(rows, items, items.len()) == positions(
            items.len(),
            |i: int| is_row_path(rows, text_in(items[i], "source"@)) && !has_vector(items[i]),
        ).len(),
{
    lemma_embedding_rows(rows, items, items.len());
    let views = embedding_rows(rows, items, items.len());
    assert forall|m: int| 0 <= m < out.len() implies is_vector_of(
        rows,
        items[positions(items.len(), tells_vector(rows, items))[m]],
        (#[trigger] out[m]).media_id,
        out[m].model@,
        crate::json::jsons_view(out[m].vector@),
    ) by {
        assert(embedding_rows_view(out)[m] == out[m]@);
        assert(views[m] == out[m]@);
    }
}

/// Whether an item of an answer tells of the conversion of `source` into `converted`.
pub open spec fn tells_conversion(item: JsonView, source: Seq<char>, converted: Seq<char>) -> bool {
    member_of(item, "source"@) matches Some(JsonView::Text(s)) && (member_of(item, "converted"@)
        matches Some(JsonView::Text(c)) && clean_path(s) == source && clean_path(c) == converted)
}

/// Whether an item of an answer tells of a conversion of `source`.
pub open spec fn tells_source(item: JsonView, source: Seq<char>) -> bool {
    member_of(item, "source"@) matches Some(JsonView::Text(s)) && member_of(
        item,
        "converted"@,
    ) matches Some(JsonView::Text(_)) && clean_path(s) == source
}

/// Whether the last of the first `n` items that tell of a conversion of `source` tells that it
/// became `converted`.
pub open spec fn last_conversion(
    items: Seq<JsonView>,
    n: nat,
    source: Seq<char>,
    converted: Seq<char>,
) -> bool {
    exists|i: int|
        0 <= i < n && tells_conversion(#[trigger] items[i], source, converted) && forall|j: int|
            i < j < n ==> !tells_source(#[trigger] items[j], source)
}

/// A file has a converted one exactly where an item of the answer tells both paths, and it is
/// the one that the last such item tells; each path is cleaned.
pub proof fn conversions_are_those_told(items: Seq<JsonView>, n: nat, source: Seq<char>)
    requires
        n <= items.len(),
    ensures
        conversions_of(items, n).contains_key(source) <==> exists|i: int|
            0 <= i < n && tells_source(#[trigger] items[i], source),
        conversions_of(items, n).contains_key(source) ==> last_conversion(
            items,
            n,
            source,
            conversions_of(items, n)[source],
        ),
    decreases n,
{
    if n > 0 {
        let m = (n - 1) as nat;
        conversions_are_those_told(items, m, source);
        let rest = conversions_of(items, m);
        let all = conversions_of(items, n);
        if tells_source(items[m as int], source) {
            assert(tells_conversion(items[m as int], source, all[source]));
            assert(last_conversion(items, n, source, all[source]));
        } else {
            if rest.contains_key(source) {
                let converted = rest[source];
                let i = choose|i: int|
                    0 <= i < m && tells_conversion(#[trigger] items[i], source, converted)
                        && forall|j: int| i < j < m ==> !tells_source(#[trigger] items[j], source);
                assert(all[source] == converted);
                assert(tells_conversion(items[i], source, converted));
            }
        }
    }
}

/// The sidecar is given the converted file where there is one, and else the file itself.
pub proof fn sidecar_is_given_the_converted_file(
    conversions: Map<Seq<char>, Seq<char>>,
    path: Seq<char>,
    converted: Seq<char>,
)
    ensures
        sidecar_path(conversions.insert(path, converted), path) == converted,
        sidecar_path(conversions.remove(path), path) == path,
        forall|other: Seq<char>|
            other != path ==> #[trigger] sidecar_path(conversions.insert(path, converted), other)
                == sidecar_path(conversions, other),
{
}

/// One message for each error that is told, in order.
pub proof fn every_error_has_its_message(errors: Seq<JsonView>, n: nat)
    ensures
        fingerprint_messages(errors, n).len() == n,
        forall|i: int|
            0 <= i < n ==> #[trigger] fingerprint_messages(errors, n)[i]
                == "visual fingerprint failed: "@ + crate::json::json_rendered(errors[i]),
    decreases n,
{
    if n > 0 {
        every_error_has_its_message(errors, (n - 1) as nat);
    }
}

/// Every integer of a list is read, in order, and nothing else.
pub proof fn every_integer_is_read(items: Seq<JsonView>, n: nat)
    ensures
        ({
            let integers = positions(
                n,
                |i: int| items[i] is Number && items[i]->Number_1 is Some,
            );
            &&& integers_in(items, n).len() == integers.len()
            &&& forall|m: int|
                0 <= m < integers.len() ==> Some(#[trigger] integers_in(items, n)[m])
                    == items[integers[m]]->Number_1
        }),
    decreases n,
{
    if n > 0 {
        every_integer_is_read(items, (n - 1) as nat);
    }
}

/// The paths of a request are those of the items that are not missing, in order.
pub proof fn every_present_path_is_asked_for(items: Seq<(String, bool)>, n: nat)
    ensures
        ({
            let present = positions(n, |i: int| !items[i].1);
            &&& present_texts(items, n).len() == present.len()
            &&& forall|m: int|
                0 <= m < present.len() ==> #[trigger] present_texts(items, n)[m]
                    == items[present[m]].0@
        }),
    decreases n,
{
    if n > 0 {
        every_present_path_is_asked_for(items, (n - 1) as nat);
    }
}

/// The paths to convert are those with the extension of such a file, in order, each whole.
pub proof fn every_heic_file_is_converted(parts: Seq<PathParts>, n: nat)
    ensures
        ({
            let heic = positions(n, |i: int| heic_extension(opt_view(parts[i].extension)));
            &&& heic_texts(parts, n).len() == heic.len()
            &&& forall|m: int|
                0 <= m < heic.len() ==> #[trigger] heic_texts(parts, n)[m] == parts[heic[m]].text@
        }),
    decreases n,
{
    if n > 0 {
        every_heic_file_is_converted(parts, (n - 1) as nat);
    }
}

/// An answer gives its data exactly where it says that all is well and has data; else the message
/// of its error, or that there is none.
pub proof fn only_a_good_answer_gives_data(doc: JsonView)
    ensures
        ok_data(doc) is Ok <==> member_of(doc, "ok"@) == Some(JsonView::Bool(true)) && member_of(
            doc,
            "data"@,
        ) is Some,
        ok_data(doc) matches Ok(data) ==> member_of(doc, "data"@) == Some(data),
        member_of(doc, "ok"@) == Some(JsonView::Bool(true)) && ok_data(doc) is Err ==> ok_data(doc)
            == Err::<JsonView, Seq<char>>("sidecar response missing data"@),
        member_of(doc, "ok"@) != Some(JsonView::Bool(true)) ==> match member_of(doc, "error"@) {
            Some(error) => match member_of(error, "message"@) {
                Some(JsonView::Text(message)) => ok_data(doc) == Err::<JsonView, Seq<char>>(message),
                _ => ok_data(doc) == Err::<JsonView, Seq<char>>("sidecar returned ok=false"@),
            },
            None => ok_data(doc) == Err::<JsonView, Seq<char>>("sidecar returned ok=false"@),
        },
{
}

/// A request for paths holds them all, in order, under one key.
pub proof fn request_holds_its_paths(cache_dir: Seq<char>, paths: Seq<Seq<char>>, i: int)
    requires
        0 <= i < paths.len(),
    ensures
        entry_in(paths_request(paths), "paths"@, i) == Some(JsonView::Text(paths[i])),
        entry_in(paths_request(paths), "paths"@, paths.len() as int) is None,
        entry_in(conversion_request(cache_dir, paths), "paths"@, i) == Some(
            JsonView::Text(paths[i]),
        ),
        entry_in(conversion_request(cache_dir, paths), "paths"@, paths.len() as int) is None,
        member_of(conversion_request(cache_dir, paths), "cache_dir"@) == Some(
            JsonView::Text(cache_dir),
        ),
{
    reveal_strlit("paths");
    reveal_strlit("cache_dir");
    reveal_with_fuel(find_member, 3);
    assert("cache_dir"@.len() != "paths"@.len());
}

/// The embedding of a query is that of the first of the embeddings that the answer lists.
pub proof fn query_takes_the_first_embedding(doc: JsonView)
    ensures
        query_embedding(doc) matches Some(v) ==> match member_at(doc, "data"@, "embeddings"@) {
            Some(JsonView::Array(items)) => items.len() > 0 && member_of(items[0], "embedding"@)
                == Some(v),
            Some(other) => member_of(other, "0"@) matches Some(item) && member_of(
                item,
                "embedding"@,
            ) == Some(v),
            None => false,
        },
        query_embedding(doc) is None ==> match member_at(doc, "data"@, "embeddings"@) {
            Some(JsonView::Array(items)) => items.len() == 0 || member_of(items[0], "embedding"@) is None,
            Some(other) => member_of(other, "0"@) matches Some(item) ==> member_of(
                item,
                "embedding"@,
            ) is None,
            None => true,
        },
{
}

/// The fingerprints of an answer are those under its data; where there are none, the list is
/// empty.
pub proof fn fingerprints_are_those_told(doc: JsonView)
    ensures
        member_at(doc, "data"@, "fingerprints"@) matches Some(list) ==> fingerprint_list(doc) == list,
        member_at(doc, "data"@, "fingerprints"@) is None ==> fingerprint_list(doc) is Array
            && fingerprint_list(doc)->Array_0.len() == 0,
{
}

/// The conversions of an answer are those of the list under its data; none where there is no list.
pub proof fn conversions_are_read_from_the_data(doc: JsonView)
    ensures
        member_at(doc, "data"@, "conversions"@) matches Some(JsonView::Array(items))
            ==> conversions_in(doc) == conversions_of(items, items.len()),
        !(member_at(doc, "data"@, "conversions"@) matches Some(JsonView::Array(_)))
            ==> conversions_in(doc) == Map::<Seq<char>, Seq<char>>::empty(),
{
}

/// An answer is read without the white space around it; one that is no document is told with what
/// is wrong and with its first five hundred letters.
pub proof fn answer_is_read_trimmed(stdout: Seq<char>)
    ensures
        json_document(text::trimmed(stdout)) matches Ok(doc) ==> answer_data(stdout) == ok_data(doc),
        json_document(text::trimmed(stdout)) matches Err(e) ==> answer_data(stdout) == Err::<
            JsonView,
            Seq<char>,
        >("invalid JSON from sidecar: "@ + e + "; stdout="@ + text::head(stdout, 500)),
{
}

} // verus!
