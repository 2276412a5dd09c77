use rich_media_viewer::vectors::{comparable_vector, parse_vec, vec_to_blob, StoredVector};

fn bits(list: &[f32]) -> Vec<u32> {
    list.iter().map(|x| x.to_bits()).collect()
}

fn bytes(list: &[f32]) -> Vec<u8> {
    list.iter().flat_map(|x| x.to_le_bytes()).collect()
}

#[test]
fn components_lie_lowest_byte_first() {
    let v = [1.0f32, -2.5, 0.0, f32::MAX];
    assert_eq!(vec_to_blob(&bits(&v)), bytes(&v));
    assert_eq!(vec_to_blob(&vec![0x0403_0201]), vec![1, 2, 3, 4]);
}

#[test]
fn stored_vectors_read_back() {
    for v in [vec![], vec![0.25f32], vec![1.0, 2.0, 3.0]] {
        match parse_vec(&bytes(&v)) {
            Some(StoredVector::Binary(b)) => assert_eq!(b, bits(&v)),
            _ => panic!("not binary"),
        }
    }
}

#[test]
fn bytes_that_start_like_a_list_are_read_as_one() {
    match parse_vec(&b"[1, -2.5, 3e2]".to_vec()) {
        Some(StoredVector::Decimal(t)) => {
            let numbers: Vec<f64> = t.iter().map(|s| s.parse().unwrap()).collect();
            assert_eq!(numbers, vec![1.0, -2.5, 300.0]);
        }
        _ => panic!("not a list"),
    }
    assert!(matches!(parse_vec(&b"[1] ".to_vec()), Some(StoredVector::Decimal(t)) if t == vec!["1".to_string()]));
    assert!(parse_vec(&vec![0x5b, 0, 0, 0]).is_none());
}

#[test]
fn other_bytes_hold_no_vector() {
    for b in [&b"[1,2"[..], b"{}x", b"[\"1\"]", b"[null]  ", b"[[1]]", b"\xff\xfe\xfd", b"12345"] {
        let direct: Option<Vec<f32>> = serde_json::from_slice(b).ok();
        let is_binary = b.len() % 4 == 0 && b.first() != Some(&b'[');
        assert_eq!(parse_vec(&b.to_vec()).is_some(), is_binary || direct.is_some(), "{b:?}");
    }
}

#[test]
fn vectors_compare_only_with_as_many_components() {
    let two = bytes(&[1.0, 2.0]);
    assert!(comparable_vector(&two, 2).is_some());
    assert!(comparable_vector(&two, 3).is_none());
    let listed = b"[0.5,1]".to_vec();
    match comparable_vector(&listed, 2) {
        Some(v) => assert_eq!(v.dimensions(), 2),
        None => panic!("no vector"),
    }
    assert!(comparable_vector(&b"[0.5]".to_vec(), 2).is_none());
    assert!(comparable_vector(&b"nope!".to_vec(), 2).is_none());
}

#[test]
fn only_decimal_vectors_are_stored_anew() {
    let components = bits(&[0.5, 1.0]);
    let listed = comparable_vector(&b"[0.5,1]".to_vec(), 2).unwrap();
    let anew = listed.compacted(&components).unwrap();
    assert_eq!(anew, bytes(&[0.5, 1.0]));
    let stored = comparable_vector(&anew, 2).unwrap();
    assert!(matches!(&stored, StoredVector::Binary(b) if *b == components));
    assert_eq!(stored.compacted(&components), None);
}
