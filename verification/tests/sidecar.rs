use rich_media_viewer::json::Json;
use rich_media_viewer::paths::PathParts;
use rich_media_viewer::sidecar::{
    conversion_payload, converted_heic_paths, display_path, face_sidecar_answer,
    fingerprint_answer, heic_paths, matching_face_ids, parse_sidecar_ok_data, paths_payload,
    payload_args, payload_file_name, present_paths, read_embeddings, read_faces,
    read_query_embedding, sidecar_document, sidecar_media_rows, sidecar_ok_data, vector_texts,
    FaceIdentity, SidecarResult,
};

fn document(text: &str) -> Json {
    sidecar_document(text).ok().unwrap()
}

fn texts(list: &[&str]) -> Vec<String> {
    list.iter().map(|s| s.to_string()).collect()
}

fn good(stdout: &str) -> SidecarResult {
    SidecarResult { ok: true, stdout: stdout.to_string(), stderr: String::new() }
}

fn failed(stderr: &str) -> SidecarResult {
    SidecarResult { ok: false, stdout: "{}".to_string(), stderr: stderr.to_string() }
}

#[test]
fn documents_keep_every_kind_of_value() {
    let doc = document(r#"{"a":[null,true,-3,2.5,"x\n",{"b":[]}],"big":18446744073709551615}"#);
    let items = doc.member("a").unwrap().as_items().unwrap();
    assert!(matches!(items[0], Json::Null));
    assert_eq!(items[1].as_truth(), Some(true));
    assert!(matches!(&items[2], Json::Number(t, Some(-3)) if t == "-3"));
    assert!(matches!(&items[3], Json::Number(t, None) if t == "2.5"));
    assert_eq!(items[4].as_text().map(|s| s.as_str()), Some("x\n"));
    assert_eq!(items[5].member("b").unwrap().as_items().unwrap().len(), 0);
    assert!(matches!(doc.member("big").unwrap(), Json::Number(_, None)));
    assert!(doc.member("c").is_none());
    assert!(doc.member_in("a", "b").is_none());
}

#[test]
fn rendered_text_is_what_the_json_crate_writes() {
    for sample in [
        "null", "true", "[]", "{}", "-0.0", "1e300", "[1,2.5,\"a\\\"b\\\\\\u0001\\u20ac\"]",
        "{\"b\":1,\"a\":[{\"x\":null},false],\"\":\"\\t\"}", "0.1", "12345678901234567890",
    ] {
        let value: serde_json::Value = serde_json::from_str(sample).unwrap();
        let doc = document(sample);
        assert_eq!(doc.render(), value.to_string(), "{sample}");
        assert_eq!(doc.copy().render(), value.to_string(), "{sample}");
    }
}

#[test]
fn strings_are_escaped_as_json_asks() {
    let quoted = |t: &str| Json::Text(t.to_string()).render();
    assert_eq!(quoted("a\"b\\c/d"), "\"a\\\"b\\\\c/d\"");
    assert_eq!(quoted("\u{8}\t\n\u{c}\r"), "\"\\b\\t\\n\\f\\r\"");
    assert_eq!(quoted("\u{0}\u{b}\u{1f}"), "\"\\u0000\\u000b\\u001f\"");
    assert_eq!(quoted(" \u{7f}\u{80}\u{2028}\u{1f600}"), "\" \u{7f}\u{80}\u{2028}\u{1f600}\"");
    assert_eq!(quoted(""), "\"\"");
}

#[test]
fn good_answers_give_their_data() {
    let data = parse_sidecar_ok_data("  {\"ok\":true,\"data\":{\"x\":1}}\n").ok().unwrap();
    assert_eq!(data.render(), "{\"x\":1}");
    let none = sidecar_ok_data(&document("{\"ok\":true}"));
    assert_eq!(none.err().as_deref(), Some("sidecar response missing data"));
}

#[test]
fn bad_answers_give_their_message() {
    let message = |text: &str| parse_sidecar_ok_data(text).err().unwrap();
    assert_eq!(message("{\"ok\":false,\"error\":{\"message\":\"no model\"}}"), "no model");
    assert_eq!(message("{\"ok\":false,\"error\":{\"message\":3}}"), "sidecar returned ok=false");
    assert_eq!(message("{\"ok\":\"true\",\"data\":1}"), "sidecar returned ok=false");
    assert_eq!(message("[]"), "sidecar returned ok=false");
    let broken = "x".repeat(600);
    let expected = format!(
        "invalid JSON from sidecar: {}; stdout={}",
        serde_json::from_str::<serde_json::Value>(&broken).unwrap_err(),
        "x".repeat(500)
    );
    assert_eq!(message(&broken), expected);
    assert_eq!(
        sidecar_document("{").err().unwrap(),
        format!("invalid sidecar JSON: {}", serde_json::from_str::<serde_json::Value>("{").unwrap_err())
    );
}

#[test]
fn face_answers_need_a_line() {
    assert_eq!(
        face_sidecar_answer(" \n".to_string()).err().as_deref(),
        Some("face sidecar exited without a response")
    );
    let bad = face_sidecar_answer("{\"ok\":false}\n".to_string()).ok().unwrap();
    assert!(!bad.ok);
    assert_eq!(bad.stdout, "{\"ok\":false}\n");
    let good = face_sidecar_answer("{\"ok\":true,\"data\":{}}".to_string()).ok().unwrap();
    assert!(good.ok);
    assert_eq!(good.stderr, "");
}

#[test]
fn requests_are_written_as_json() {
    assert_eq!(paths_payload(&texts(&["/a \"b\".jpg", "C:\\x"])), r#"{"paths":["/a \"b\".jpg","C:\\x"]}"#);
    assert_eq!(paths_payload(&Vec::new()), r#"{"paths":[]}"#);
    assert_eq!(
        conversion_payload("/cache", &texts(&["/a.heic"])),
        r#"{"cache_dir":"/cache","paths":["/a.heic"]}"#
    );
    assert_eq!(payload_file_name(17), "rich-media-viewer-sidecar-17.json");
    assert_eq!(
        payload_args(texts(&["embed"]), "/tmp/x.json"),
        texts(&["embed", "--json", "@/tmp/x.json"])
    );
}

#[test]
fn heic_images_are_picked_for_conversion() {
    let part = |text: &str, extension: Option<&str>| PathParts {
        components: Vec::new(),
        file_name: None,
        extension: extension.map(|e| e.to_string()),
        text: text.to_string(),
    };
    let list = vec![part("/a.HEIC", Some("HEIC")), part("/b.jpg", Some("jpg")), part("/c", None), part("/d.heif", Some("heif"))];
    assert_eq!(heic_paths(&list), texts(&["/a.HEIC", "/d.heif"]));
    let items = vec![("/a".to_string(), false), ("/b".to_string(), true), ("/c".to_string(), false)];
    assert_eq!(present_paths(&items), texts(&["/a", "/c"]));
}

#[test]
fn conversions_replace_paths() {
    let answer = r#"{"ok":true,"data":{"conversions":[
        {"source":"\\\\?\\C:\\a.heic","converted":"C:\\c\\a.jpg"},
        {"source":"/x.heic"},{"converted":"/y.jpg"},{"source":1,"converted":"/z.jpg"},
        {"source":"/b.heic","converted":"/c/b.jpg"},{"source":"/b.heic","converted":"/c/b2.jpg"}]}}"#;
    let map = converted_heic_paths(&good(answer)).ok().unwrap();
    assert_eq!(display_path(&map, "C:\\a.heic").as_deref(), Some("C:\\c\\a.jpg"));
    assert_eq!(display_path(&map, "/x.heic"), None);
    let rows = vec![(1, "/b.heic".to_string()), (2, "/n.jpg".to_string())];
    assert_eq!(
        sidecar_media_rows(&rows, &map),
        vec![(1, "/c/b2.jpg".to_string()), (2, "/n.jpg".to_string())]
    );
}

#[test]
fn failed_conversions_give_a_message() {
    assert_eq!(converted_heic_paths(&failed(" \n")).err().unwrap(), "HEIC conversion failed");
    assert_eq!(converted_heic_paths(&failed(" no codec \n")).err().unwrap(), "no codec");
    assert!(converted_heic_paths(&good("{")).err().unwrap().starts_with("invalid HEIC conversion JSON: "));
    let empty = converted_heic_paths(&good("{\"data\":{}}")).ok().unwrap();
    assert_eq!(display_path(&empty, "/a.heic"), None);
}

#[test]
fn fingerprint_answers_are_read() {
    let a = fingerprint_answer(good(r#"{"data":{"errors":[{"path":"/a","message":"bad"},"x"],"fingerprints":[{"path":"/b"}]}}"#)).ok().unwrap();
    assert_eq!(
        a.messages,
        texts(&[
            "visual fingerprint failed: {\"message\":\"bad\",\"path\":\"/a\"}",
            "visual fingerprint failed: \"x\"",
        ])
    );
    assert_eq!(a.fingerprints.unwrap().render(), "[{\"path\":\"/b\"}]");
    let none = fingerprint_answer(good("{}")).ok().unwrap();
    assert!(none.messages.is_empty());
    assert_eq!(none.fingerprints.unwrap().render(), "[]");
    let bad = fingerprint_answer(failed("crashed")).ok().unwrap();
    assert_eq!(bad.messages, texts(&["crashed"]));
    assert!(bad.fingerprints.is_none());
    assert!(fingerprint_answer(good("nope")).err().unwrap().starts_with("invalid sidecar JSON: "));
}

#[test]
fn embeddings_are_matched_with_their_files() {
    let rows = vec![(1, "/a".to_string()), (2, "/b".to_string()), (3, "/a".to_string())];
    let doc = document(r#"{"data":{"embeddings":[
        {"source":"/a","model":"clip","embedding":[1,0.5]},
        {"source":"/b","embedding":[2]},
        {"source":"/b","model":"m","embedding":[]},
        {"source":"/b","model":"m"},
        {"source":"/z","embedding":[]},
        {"embedding":[1]}]}}"#);
    let batch = read_embeddings(&doc, &rows);
    assert_eq!(batch.skipped, 2);
    assert_eq!(batch.rows.len(), 2);
    assert_eq!((batch.rows[0].media_id, batch.rows[0].model.as_str()), (3, "clip"));
    assert_eq!((batch.rows[1].media_id, batch.rows[1].model.as_str()), (2, "unknown"));
    assert_eq!(vector_texts(&batch.rows[0].vector), Some(texts(&["1", "0.5"])));
    let nothing = read_embeddings(&document("{\"data\":{\"embeddings\":5}}"), &rows);
    assert_eq!((nothing.rows.len(), nothing.skipped), (0, 0));
}

#[test]
fn vectors_hold_numbers_only() {
    assert!(vector_texts(document("[1,\"2\"]").as_items().unwrap()).is_none());
    assert_eq!(vector_texts(document("[]").as_items().unwrap()), Some(Vec::new()));
}

#[test]
fn query_embedding_is_the_first_one() {
    let v = read_query_embedding(&document(r#"{"data":{"embeddings":[{"embedding":[1,2]},{"embedding":[3]}]}}"#));
    assert_eq!(v.ok().unwrap().render(), "[1,2]");
    let keyed = read_query_embedding(&document(r#"{"data":{"embeddings":{"0":{"embedding":null}}}}"#));
    assert_eq!(keyed.ok().unwrap().render(), "null");
    for text in ["{}", r#"{"data":{"embeddings":[]}}"#, r#"{"data":{"embeddings":[{}]}}"#] {
        assert_eq!(
            read_query_embedding(&document(text)).err().as_deref(),
            Some("sidecar did not return a query embedding")
        );
    }
}

#[test]
fn matching_faces_are_integers() {
    assert_eq!(matching_face_ids(&document(r#"{"matching_face_ids":[4,"5",6.5,-7,null]}"#)), vec![4, -7]);
    assert_eq!(matching_face_ids(&document("{}")), Vec::<i64>::new());
}

#[test]
fn faces_are_read_with_their_file() {
    let rows = vec![(10, "/a".to_string()), (20, "/b".to_string()), (30, "/a".to_string())];
    let doc = document(r#"{"data":{"faces":[
        {"path":"/a","embedding":[0.5,1],"bbox":[1,2,3.5,"w"],"confidence":0.9,"cluster_id":4},
        {"path":"/zzz","embedding":[1]},
        {"path":"/b","embedding":["x"],"bbox":7}]}}"#);
    let faces = read_faces(&doc, &rows, false, true).unwrap();
    assert_eq!(faces.len(), 2);
    assert_eq!(faces[0].media_id, 10);
    assert!(matches!(faces[0].identity, FaceIdentity::Nearest));
    assert_eq!(faces[0].embedding, texts(&["0.5", "1"]));
    assert_eq!(faces[0].x.as_deref(), Some("1"));
    assert_eq!(faces[0].width.as_deref(), Some("3.5"));
    assert_eq!(faces[0].height, None);
    assert_eq!(faces[0].confidence.as_deref(), Some("0.9"));
    assert_eq!(faces[1].media_id, 20);
    assert!(matches!(faces[1].identity, FaceIdentity::Unknown));
    assert!(faces[1].embedding.is_empty());
    assert_eq!(faces[1].confidence, None);
    let plain = read_faces(&doc, &rows, false, false).unwrap();
    assert!(matches!(plain[0].identity, FaceIdentity::Unknown));
    let named = read_faces(&doc, &rows, true, true).unwrap();
    assert!(matches!(&named[0].identity, FaceIdentity::Named(n) if n == "Person 5"));
    assert!(matches!(&named[1].identity, FaceIdentity::Named(n) if n == "Person 1"));
    assert!(read_faces(&document("{\"data\":{\"faces\":{}}}"), &rows, false, true).is_none());
}
