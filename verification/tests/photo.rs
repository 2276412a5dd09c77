use rich_media_viewer::photo::{
    capture_time, no_photo_facts, parse_exif, photo_facts, ExifPosition, ExifTexts,
};

fn entry(tag: u16, kind: u16, count: u32, value: u32) -> Vec<u8> {
    let mut out = Vec::new();
    out.extend_from_slice(&tag.to_le_bytes());
    out.extend_from_slice(&kind.to_le_bytes());
    out.extend_from_slice(&count.to_le_bytes());
    out.extend_from_slice(&value.to_le_bytes());
    out
}

fn folder(entries: &[Vec<u8>]) -> Vec<u8> {
    let mut out = (entries.len() as u16).to_le_bytes().to_vec();
    for e in entries {
        out.extend_from_slice(e);
    }
    out.extend_from_slice(&0u32.to_le_bytes());
    out
}

fn rationals(values: &[(u32, u32)]) -> Vec<u8> {
    values.iter().flat_map(|(n, d)| [n.to_le_bytes(), d.to_le_bytes()].concat()).collect()
}

/// A TIFF file whose fields are given; the data area starts at byte 200.
fn image(taken: &[u8; 20], south: u8, west: u8, rational_count: u32) -> Vec<u8> {
    let make_at: u32 = 200;
    let taken_at: u32 = 220;
    let lat_at: u32 = 240;
    let lng_at: u32 = 264;
    let first = folder(&[
        entry(0x010f, 2, 6, make_at),
        entry(0x8769, 4, 1, 50),
        entry(0x8825, 4, 1, 80),
    ]);
    let exif = folder(&[entry(0x9003, 2, 20, taken_at)]);
    let gps = folder(&[
        entry(1, 2, 2, south as u32),
        entry(2, 5, rational_count, lat_at),
        entry(3, 2, 2, west as u32),
        entry(4, 5, 3, lng_at),
    ]);
    let mut out = b"II*\0\x08\0\0\0".to_vec();
    out.extend_from_slice(&first);
    out.resize(50, 0);
    out.extend_from_slice(&exif);
    out.resize(80, 0);
    out.extend_from_slice(&gps);
    out.resize(200, 0);
    out.extend_from_slice(b"Canon\0");
    out.resize(220, 0);
    out.extend_from_slice(taken);
    out.extend_from_slice(&rationals(&[(33, 1), (30, 1), (9, 2)]));
    out.extend_from_slice(&rationals(&[(70, 1), (15, 1), (0, 1)]));
    out
}

#[test]
fn exif_data_of_an_image_is_read() {
    let p = parse_exif(&image(b"2021:05:06 07:08:09\0", b'S', b'W', 3)).unwrap();
    assert_eq!(p.make.as_deref(), Some("\"Canon\""));
    assert_eq!(p.model, None);
    assert_eq!(p.lens_model, None);
    assert_eq!(p.captured_at, Some(1620284889));
    let lat = p.latitude.unwrap();
    assert_eq!((lat.degrees, lat.minutes, lat.seconds), ((33, 1), (30, 1), (9, 2)));
    assert!(lat.negative);
    assert!(p.longitude.unwrap().negative);
}

#[test]
fn camera_and_lens_are_read_from_their_fields() {
    let first = folder(&[
        entry(0x0110, 2, 4, u32::from_le_bytes(*b"X1a\0")),
        entry(0x8769, 4, 1, 60),
    ]);
    let exif = folder(&[entry(0xa434, 2, 3, u32::from_le_bytes(*b"50\0\0"))]);
    let mut bytes = b"II*\0\x08\0\0\0".to_vec();
    bytes.extend_from_slice(&first);
    bytes.resize(60, 0);
    bytes.extend_from_slice(&exif);
    let p = parse_exif(&bytes).unwrap();
    assert_eq!(p.make, None);
    assert_eq!(p.model.as_deref(), Some("\"X1a\""));
    assert_eq!(p.lens_model.as_deref(), Some("\"50\""));
    assert!(p.captured_at.is_none() && p.latitude.is_none() && p.longitude.is_none());
}

#[test]
fn northern_and_eastern_places_are_positive() {
    let p = parse_exif(&image(b"bad date, as it is.\0", b'N', b'E', 3)).unwrap();
    assert_eq!(p.captured_at, None);
    assert!(!p.latitude.unwrap().negative);
    assert!(!p.longitude.unwrap().negative);
}

#[test]
fn places_need_three_rationals() {
    let p = parse_exif(&image(b"2021:05:06 07:08:09\0", b'S', b'W', 2)).unwrap();
    assert!(p.latitude.is_none());
    assert!(p.longitude.is_some());
}

#[test]
fn bytes_without_exif_data_tell_nothing() {
    assert!(parse_exif(b"no image at all").is_none());
    assert!(parse_exif(&[]).is_none());
    let p = no_photo_facts();
    assert!(p.make.is_none() && p.model.is_none() && p.lens_model.is_none());
    assert!(p.captured_at.is_none() && p.latitude.is_none() && p.longitude.is_none());
}

#[test]
fn capture_times_are_written_two_ways() {
    assert_eq!(capture_time(&Some("2021-05-06 07:08:09".to_string())), Some(1620284889));
    assert_eq!(capture_time(&Some("2021:05:06 07:08:09".to_string())), Some(1620284889));
    assert_eq!(capture_time(&Some("1970-01-01 00:00:00".to_string())), Some(0));
    assert_eq!(capture_time(&Some("2021-02-30 00:00:00".to_string())), None);
    assert_eq!(capture_time(&Some("yesterday".to_string())), None);
    assert_eq!(capture_time(&None), None);
}

#[test]
fn facts_follow_from_the_fields() {
    let texts = ExifTexts {
        make: Some("m".to_string()),
        model: Some("n".to_string()),
        lens_model: Some("l".to_string()),
        taken: None,
        latitude_ref: Some("W".to_string()),
        longitude_ref: None,
    };
    let position = ExifPosition {
        latitude: Some(vec![(1, 2), (3, 4), (5, 6), (7, 8)]),
        longitude: None,
    };
    let p = photo_facts(&texts, &position, Some(5));
    assert_eq!(p.make.as_deref(), Some("m"));
    assert_eq!(p.lens_model.as_deref(), Some("l"));
    assert_eq!(p.captured_at, Some(5));
    let lat = p.latitude.unwrap();
    assert_eq!(lat.seconds, (5, 6));
    assert!(!lat.negative);
    assert!(p.longitude.is_none());
}
