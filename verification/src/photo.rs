//! What the Exif data of an image tells of the photo.

use vstd::prelude::*;

use crate::candidates::clone_opt;
use crate::paths::opt_view;
use crate::text;

verus! {

/// The Exif fields that the catalog reads as texts, as they stand in an image.
pub struct ExifTexts {
    pub make: Option<String>,
    pub model: Option<String>,
    pub lens_model: Option<String>,
    pub taken: Option<String>,
    pub latitude_ref: Option<String>,
    pub longitude_ref: Option<String>,
}

/// What an [`ExifTexts`] stands for.
pub struct ExifTextsView {
    pub make: Option<Seq<char>>,
    pub model: Option<Seq<char>>,
    pub lens_model: Option<Seq<char>>,
    pub taken: Option<Seq<char>>,
    pub latitude_ref: Option<Seq<char>>,
    pub longitude_ref: Option<Seq<char>>,
}

impl View for ExifTexts {
    type V = ExifTextsView;

    open spec fn view(&self) -> ExifTextsView {
        ExifTextsView {
            make: opt_view(self.make),
            model: opt_view(self.model),
            lens_model: opt_view(self.lens_model),
            taken: opt_view(self.taken),
            latitude_ref: opt_view(self.latitude_ref),
            longitude_ref: opt_view(self.longitude_ref),
        }
    }
}

/// The position that stands in an image: the unsigned rationals of its latitude and of its
/// longitude, each a numerator and a denominator.
pub struct ExifPosition {
    pub latitude: Option<Vec<(u32, u32)>>,
    pub longitude: Option<Vec<(u32, u32)>>,
}

/// What an [`ExifPosition`] stands for.
pub struct ExifPositionView {
    pub latitude: Option<Seq<(u32, u32)>>,
    pub longitude: Option<Seq<(u32, u32)>>,
}

/// What an optional list of rationals stands for.
pub open spec fn rationals_view(v: Option<Vec<(u32, u32)>>) -> Option<Seq<(u32, u32)>> {
    match v {
        Some(r) => Some(r@),
        None => None,
    }
}

impl View for ExifPosition {
    type V = ExifPositionView;

    open spec fn view(&self) -> ExifPositionView {
        ExifPositionView {
            latitude: rationals_view(self.latitude),
            longitude: rationals_view(self.longitude),
        }
    }
}

/// Exif data that the reader of the `exif` crate has taken from an image.
#[verifier::external_type_specification]
#[verifier::external_body]
pub struct ExExif(exif::Exif);

/// The directory of the primary image in which an Exif field stands.
#[derive(Clone, Copy, PartialEq, Eq, Structural)]
pub enum ExifGroup {
    /// The fields of the image file.
    Image,
    /// The fields of the photo.
    Photo,
    /// The fields of the place.
    Gps,
}

/// What an Exif field holds.
pub struct ExifField {
    /// The value as it is shown, with its unit.
    pub text: Seq<char>,
    /// The value where it is a list of unsigned rationals.
    pub rationals: Option<Seq<(u32, u32)>>,
}

/// The fields of the primary image that Exif data holds, each by its directory and its number.
pub uninterp spec fn exif_fields(data: exif::Exif) -> Map<(ExifGroup, u16), ExifField>;

/// The fields that the reader of the `exif` crate finds in the bytes of an image, or `None` where
/// it finds no Exif data.
pub uninterp spec fn exif_container(bytes: Seq<u8>) -> Option<Map<(ExifGroup, u16), ExifField>>;

/// `exif::Reader::read_from_container` on the bytes of an image; `None` where it gives an error.
/// Which fields it finds is a function of the bytes; what stands in them is not stated.
#[verifier::external_body]
fn read_container(bytes: &[u8]) -> (data: Option<exif::Exif>)
    ensures
        match (data, exif_container(bytes@)) {
            (Some(d), Some(fields)) => exif_fields(d) == fields,
            (None, None) => true,
            _ => false,
        },
{
    exif::Reader::new().read_from_container(&mut std::io::Cursor::new(bytes)).ok()
}

/// The text of the field with the given number, if there is such a field.
pub open spec fn field_text(
    fields: Map<(ExifGroup, u16), ExifField>,
    group: ExifGroup,
    number: u16,
) -> Option<Seq<char>> {
    if fields.contains_key((group, number)) {
        Some(fields[(group, number)].text)
    } else {
        None
    }
}

/// The rationals of the field with the given number, if there is such a field and it holds some.
pub open spec fn field_rationals(
    fields: Map<(ExifGroup, u16), ExifField>,
    group: ExifGroup,
    number: u16,
) -> Option<Seq<(u32, u32)>> {
    if fields.contains_key((group, number)) {
        fields[(group, number)].rationals
    } else {
        None
    }
}

/// `exif::Exif::get_field` for a field of the primary image, shown by `display_value` with its
/// unit; `None` where there is no such field.
#[verifier::external_body]
fn read_text(data: &exif::Exif, group: ExifGroup, number: u16) -> (text: Option<String>)
    ensures
        opt_view(text) == field_text(exif_fields(*data), group, number),
{
    let context = match group {
        ExifGroup::Image => exif::Context::Tiff,
        ExifGroup::Photo => exif::Context::Exif,
        ExifGroup::Gps => exif::Context::Gps,
    };
    let field = data.get_field(exif::Tag(context, number), exif::In::PRIMARY)?;
    Some(field.display_value().with_unit(data).to_string())
}

/// `exif::Exif::get_field` for a field of the primary image that holds unsigned rationals, each
/// as its numerator and its denominator; `None` where there is no such field or it holds another
/// kind of value.
#[verifier::external_body]
fn read_rationals(data: &exif::Exif, group: ExifGroup, number: u16) -> (r: Option<Vec<(u32, u32)>>)
    ensures
        rationals_view(r) == field_rationals(exif_fields(*data), group, number),
{
    let context = match group {
        ExifGroup::Image => exif::Context::Tiff,
        ExifGroup::Photo => exif::Context::Exif,
        ExifGroup::Gps => exif::Context::Gps,
    };
    match &data.get_field(exif::Tag(context, number), exif::In::PRIMARY)?.value {
        exif::Value::Rational(v) => Some(v.iter().map(|r| (r.num, r.denom)).collect()),
        _ => None,
    }
}

/// The number of the field with the maker of the camera.
pub const MAKE: u16 = 0x010f;

/// The number of the field with the model of the camera.
pub const MODEL: u16 = 0x0110;

/// The number of the field with the time at which the photo was taken.
pub const DATE_TIME_ORIGINAL: u16 = 0x9003;

/// The number of the field with the model of the lens.
pub const LENS_MODEL: u16 = 0xa434;

/// The number of the field that tells north from south.
pub const GPS_LATITUDE_REF: u16 = 0x0001;

/// The number of the field with the latitude.
pub const GPS_LATITUDE: u16 = 0x0002;

/// The number of the field that tells east from west.
pub const GPS_LONGITUDE_REF: u16 = 0x0003;

/// The number of the field with the longitude.
pub const GPS_LONGITUDE: u16 = 0x0004;

/// The texts that the catalog reads from the fields of an image.
pub open spec fn texts_of(fields: Map<(ExifGroup, u16), ExifField>) -> ExifTextsView {
    ExifTextsView {
        make: field_text(fields, ExifGroup::Image, MAKE),
        model: field_text(fields, ExifGroup::Image, MODEL),
        lens_model: field_text(fields, ExifGroup::Photo, LENS_MODEL),
        taken: field_text(fields, ExifGroup::Photo, DATE_TIME_ORIGINAL),
        latitude_ref: field_text(fields, ExifGroup::Gps, GPS_LATITUDE_REF),
        longitude_ref: field_text(fields, ExifGroup::Gps, GPS_LONGITUDE_REF),
    }
}

/// The position that the catalog reads from the fields of an image.
pub open spec fn position_of(fields: Map<(ExifGroup, u16), ExifField>) -> ExifPositionView {
    ExifPositionView {
        latitude: field_rationals(fields, ExifGroup::Gps, GPS_LATITUDE),
        longitude: field_rationals(fields, ExifGroup::Gps, GPS_LONGITUDE),
    }
}

/// The seconds since the start of 1970 that `chrono` reads from a text by a format, the text taken
/// as a time in UTC.
pub uninterp spec fn calendar_seconds(text: Seq<char>, format: Seq<char>) -> Option<i64>;

/// `chrono::NaiveDateTime::parse_from_str`, with the time it gives counted in UTC seconds; `None`
/// where it gives an error. Both are a function of the text and the format; the calendar itself
/// is not stated.
#[verifier::external_body]
fn read_calendar(text: &str, format: &str) -> (seconds: Option<i64>)
    ensures
        seconds == calendar_seconds(text@, format@),
{
    match chrono::NaiveDateTime::parse_from_str(text, format) {
        Ok(time) => Some(time.and_utc().timestamp()),
        Err(_) => None,
    }
}

/// The time of a photo, as seconds since the start of 1970: dates are written with dashes, or
/// with colons.
pub open spec fn capture_seconds(taken: Option<Seq<char>>) -> Option<i64> {
    match taken {
        Some(t) => match calendar_seconds(t, "%Y-%m-%d %H:%M:%S"@) {
            Some(s) => Some(s),
            None => calendar_seconds(t, "%Y:%m:%d %H:%M:%S"@),
        },
        None => None,
    }
}

/// See [`capture_seconds`].
pub fn capture_time(taken: &Option<String>) -> (t: Option<i64>)
    ensures
        t == capture_seconds(opt_view(*taken)),
{
    match taken {
        Some(t) => match read_calendar(t.as_str(), "%Y-%m-%d %H:%M:%S") {
            Some(s) => Some(s),
            None => read_calendar(t.as_str(), "%Y:%m:%d %H:%M:%S"),
        },
        None => None,
    }
}

/// A latitude or longitude in degrees, minutes and seconds, each a fraction.
#[derive(Clone, Copy)]
pub struct Place {
    pub degrees: (u32, u32),
    pub minutes: (u32, u32),
    pub seconds: (u32, u32),
    /// Whether it lies south of the equator, or west of the prime meridian.
    pub negative: bool,
}

/// The place that rationals and a reference tell: there have to be three rationals, and `mark`
/// in the reference makes the place negative.
pub open spec fn place_of(
    rationals: Option<Seq<(u32, u32)>>,
    reference: Option<Seq<char>>,
    mark: char,
) -> Option<Place> {
    match rationals {
        Some(r) => if r.len() >= 3 {
            Some(
                Place {
                    degrees: r[0],
                    minutes: r[1],
                    seconds: r[2],
                    negative: reference matches Some(t) && t.contains(mark),
                },
            )
        } else {
            None
        },
        None => None,
    }
}

fn read_place(
    rationals: &Option<Vec<(u32, u32)>>,
    reference: &Option<String>,
    mark: char,
) -> (p: Option<Place>)
    ensures
        p == place_of(rationals_view(*rationals), opt_view(*reference), mark),
{
    match rationals {
        Some(r) => if r.len() >= 3 {
            let negative = match reference {
                Some(t) => text::contains_char(t.as_str(), mark),
                None => false,
            };
            Some(Place { degrees: r[0], minutes: r[1], seconds: r[2], negative })
        } else {
            None
        },
        None => None,
    }
}

/// What an image tells of the photo.
pub struct PhotoFacts {
    pub make: Option<String>,
    pub model: Option<String>,
    pub lens_model: Option<String>,
    pub captured_at: Option<i64>,
    pub latitude: Option<Place>,
    pub longitude: Option<Place>,
}

/// What a [`PhotoFacts`] stands for.
pub struct PhotoView {
    pub make: Option<Seq<char>>,
    pub model: Option<Seq<char>>,
    pub lens_model: Option<Seq<char>>,
    pub captured_at: Option<i64>,
    pub latitude: Option<Place>,
    pub longitude: Option<Place>,
}

impl View for PhotoFacts {
    type V = PhotoView;

    open spec fn view(&self) -> PhotoView {
        PhotoView {
            make: opt_view(self.make),
            model: opt_view(self.model),
            lens_model: opt_view(self.lens_model),
            captured_at: self.captured_at,
            latitude: self.latitude,
            longitude: self.longitude,
        }
    }
}

/// What Exif fields tell of a photo that was taken at the given time: `S` marks a southern
/// latitude, `W` a western longitude.
pub open spec fn photo_of(
    t: ExifTextsView,
    p: ExifPositionView,
    captured_at: Option<i64>,
) -> PhotoView {
    PhotoView {
        make: t.make,
        model: t.model,
        lens_model: t.lens_model,
        captured_at,
        latitude: place_of(p.latitude, t.latitude_ref, 'S'),
        longitude: place_of(p.longitude, t.longitude_ref, 'W'),
    }
}

/// What is known of a file without Exif data.
pub open spec fn no_photo() -> PhotoView {
    PhotoView {
        make: None,
        model: None,
        lens_model: None,
        captured_at: None,
        latitude: None,
        longitude: None,
    }
}

/// See [`photo_of`].
pub fn photo_facts(t: &ExifTexts, p: &ExifPosition, captured_at: Option<i64>) -> (f: PhotoFacts)
    ensures
        f@ == photo_of(t@, p@, captured_at),
        f.latitude is Some ==> (f.latitude->0.negative <==> t.latitude_ref is Some
            && t.latitude_ref->0@.contains('S')),
        f.longitude is Some ==> (f.longitude->0.negative <==> t.longitude_ref is Some
            && t.longitude_ref->0@.contains('W')),
{
    let f = PhotoFacts {
        make: clone_opt(&t.make),
        model: clone_opt(&t.model),
        lens_model: clone_opt(&t.lens_model),
        captured_at,
        latitude: read_place(&p.latitude, &t.latitude_ref, 'S'),
        longitude: read_place(&p.longitude, &t.longitude_ref, 'W'),
    };
    proof {
        each_coordinate_has_its_own_sign(*t, *p, captured_at, f);
    }
    f
}

/// Nothing known of a photo. See [`no_photo`].
pub fn no_photo_facts() -> (p: PhotoFacts)
    ensures
        p@ == no_photo(),
        p.make is None && p.model is None && p.lens_model is None,
        p.captured_at is None && p.latitude is None && p.longitude is None,
{
    PhotoFacts {
        make: None,
        model: None,
        lens_model: None,
        captured_at: None,
        latitude: None,
        longitude: None,
    }
}

/// What the bytes of an image tell of the photo, or `None` where they hold no Exif data.
pub fn parse_exif(bytes: &[u8]) -> (p: Option<PhotoFacts>)
    ensures
        match (p, exif_container(bytes@)) {
            (Some(f), Some(fields)) => f@ == photo_of(
                texts_of(fields),
                position_of(fields),
                capture_seconds(texts_of(fields).taken),
            ),
            (None, None) => true,
            _ => false,
        },
{
    match read_container(bytes) {
        Some(data) => {
            let t = ExifTexts {
                make: read_text(&data, ExifGroup::Image, MAKE),
                model: read_text(&data, ExifGroup::Image, MODEL),
                lens_model: read_text(&data, ExifGroup::Photo, LENS_MODEL),
                taken: read_text(&data, ExifGroup::Photo, DATE_TIME_ORIGINAL),
                latitude_ref: read_text(&data, ExifGroup::Gps, GPS_LATITUDE_REF),
                longitude_ref: read_text(&data, ExifGroup::Gps, GPS_LONGITUDE_REF),
            };
            let place = ExifPosition {
                latitude: read_rationals(&data, ExifGroup::Gps, GPS_LATITUDE),
                longitude: read_rationals(&data, ExifGroup::Gps, GPS_LONGITUDE),
            };
            let captured_at = capture_time(&t.taken);
            Some(photo_facts(&t, &place, captured_at))
        },
        None => None,
    }
}

/// The signs of a position are told apart: a latitude is known exactly where it has three
/// rationals or more, and is negative exactly where its own reference holds `S`, whatever the
/// longitude and its reference are; a longitude likewise, where its own reference holds `W`.
pub proof fn each_coordinate_has_its_own_sign(
    t: ExifTexts,
    p: ExifPosition,
    captured_at: Option<i64>,
    f: PhotoFacts,
)
    requires
        f@ == photo_of(t@, p@, captured_at),
    ensures
        f.latitude is Some <==> p.latitude is Some && p.latitude->0.len() >= 3,
        f.latitude is Some ==> (f.latitude->0.negative <==> t.latitude_ref is Some
            && t.latitude_ref->0@.contains('S')),
        f.longitude is Some <==> p.longitude is Some && p.longitude->0.len() >= 3,
        f.longitude is Some ==> (f.longitude->0.negative <==> t.longitude_ref is Some
            && t.longitude_ref->0@.contains('W')),
{
    assert(f@.latitude == f.latitude && f@.longitude == f.longitude);
}

/// Degrees, minutes and seconds of a coordinate are its own first three rationals, in that order,
/// and every other fact is told by its own field alone.
pub proof fn each_fact_has_its_own_field(
    t: ExifTexts,
    p: ExifPosition,
    captured_at: Option<i64>,
    f: PhotoFacts,
)
    requires
        f@ == photo_of(t@, p@, captured_at),
    ensures
        f.latitude matches Some(a) ==> p.latitude is Some && a.degrees == p.latitude->0[0]
            && a.minutes == p.latitude->0[1] && a.seconds == p.latitude->0[2],
        f.longitude matches Some(a) ==> p.longitude is Some && a.degrees == p.longitude->0[0]
            && a.minutes == p.longitude->0[1] && a.seconds == p.longitude->0[2],
        f.make is Some <==> t.make is Some,
        f.make is Some ==> f.make->0@ == t.make->0@,
        f.model is Some <==> t.model is Some,
        f.model is Some ==> f.model->0@ == t.model->0@,
        f.lens_model is Some <==> t.lens_model is Some,
        f.lens_model is Some ==> f.lens_model->0@ == t.lens_model->0@,
        f.captured_at == captured_at,
{
    assert(f@.latitude == f.latitude && f@.longitude == f.longitude);
    assert(f@.captured_at == f.captured_at);
    assert(f@.make == opt_view(f.make) && t@.make == opt_view(t.make));
    assert(f@.model == opt_view(f.model) && t@.model == opt_view(t.model));
    assert(f@.lens_model == opt_view(f.lens_model) && t@.lens_model == opt_view(t.lens_model));
}

/// Each text and each coordinate is read from one field alone: images that agree on that field
/// agree on what is read from it, whatever else they hold.
pub proof fn each_reading_depends_on_one_field(
    a: Map<(ExifGroup, u16), ExifField>,
    b: Map<(ExifGroup, u16), ExifField>,
)
    ensures
        same_field(a, b, ExifGroup::Image, 0x010f) ==> texts_of(a).make == texts_of(b).make,
        same_field(a, b, ExifGroup::Image, 0x0110) ==> texts_of(a).model == texts_of(b).model,
        same_field(a, b, ExifGroup::Photo, 0xa434) ==> texts_of(a).lens_model == texts_of(
            b,
        ).lens_model,
        same_field(a, b, ExifGroup::Photo, 0x9003) ==> texts_of(a).taken == texts_of(b).taken,
        same_field(a, b, ExifGroup::Gps, 1) ==> texts_of(a).latitude_ref == texts_of(
            b,
        ).latitude_ref,
        same_field(a, b, ExifGroup::Gps, 2) ==> position_of(a).latitude == position_of(b).latitude,
        same_field(a, b, ExifGroup::Gps, 3) ==> texts_of(a).longitude_ref == texts_of(
            b,
        ).longitude_ref,
        same_field(a, b, ExifGroup::Gps, 4) ==> position_of(a).longitude == position_of(
            b,
        ).longitude,
{
}

/// Whether a field is the same in two images: missing in both, or equal.
pub open spec fn same_field(
    a: Map<(ExifGroup, u16), ExifField>,
    b: Map<(ExifGroup, u16), ExifField>,
    group: ExifGroup,
    number: u16,
) -> bool {
    &&& a.contains_key((group, number)) <==> b.contains_key((group, number))
    &&& a.contains_key((group, number)) ==> a[(group, number)] == b[(group, number)]
}

/// A field that an image holds is told as it stands.
pub proof fn held_field_is_told(fields: Map<(ExifGroup, u16), ExifField>)
    ensures
        forall|group: ExifGroup, number: u16|
            #[trigger] fields.contains_key((group, number)) ==> {
                let held = fields[(group, number)];
                let t = texts_of(fields);
                let p = position_of(fields);
                &&& group == ExifGroup::Image && number == 0x010f ==> t.make == Some(held.text)
                &&& group == ExifGroup::Image && number == 0x0110 ==> t.model == Some(held.text)
                &&& group == ExifGroup::Photo && number == 0xa434 ==> t.lens_model == Some(held.text)
                &&& group == ExifGroup::Photo && number == 0x9003 ==> t.taken == Some(held.text)
                &&& group == ExifGroup::Gps && number == 1 ==> t.latitude_ref == Some(held.text)
                &&& group == ExifGroup::Gps && number == 2 ==> p.latitude == held.rationals
                &&& group == ExifGroup::Gps && number == 3 ==> t.longitude_ref == Some(held.text)
                &&& group == ExifGroup::Gps && number == 4 ==> p.longitude == held.rationals
            },
        !fields.contains_key((ExifGroup::Image, 0x010f)) ==> texts_of(fields).make is None,
        !fields.contains_key((ExifGroup::Image, 0x0110)) ==> texts_of(fields).model is None,
        !fields.contains_key((ExifGroup::Photo, 0xa434)) ==> texts_of(fields).lens_model is None,
        !fields.contains_key((ExifGroup::Photo, 0x9003)) ==> texts_of(fields).taken is None,
        !fields.contains_key((ExifGroup::Gps, 1)) ==> texts_of(fields).latitude_ref is None,
        !fields.contains_key((ExifGroup::Gps, 2)) ==> position_of(fields).latitude is None,
        !fields.contains_key((ExifGroup::Gps, 3)) ==> texts_of(fields).longitude_ref is None,
        !fields.contains_key((ExifGroup::Gps, 4)) ==> position_of(fields).longitude is None,
{
}

/// A photo has a time exactly where the text of its time is a date in one of the two forms, and
/// a date with dashes is taken first.
pub proof fn time_is_read_in_two_forms(taken: Seq<char>)
    ensures
        capture_seconds(None) is None,
        capture_seconds(Some(taken)) is Some <==> calendar_seconds(taken, "%Y-%m-%d %H:%M:%S"@) is Some
            || calendar_seconds(taken, "%Y:%m:%d %H:%M:%S"@) is Some,
        calendar_seconds(taken, "%Y-%m-%d %H:%M:%S"@) is Some ==> capture_seconds(Some(taken))
            == calendar_seconds(taken, "%Y-%m-%d %H:%M:%S"@),
        calendar_seconds(taken, "%Y-%m-%d %H:%M:%S"@) is None ==> capture_seconds(Some(taken))
            == calendar_seconds(taken, "%Y:%m:%d %H:%M:%S"@),
{
}

} // verus!
