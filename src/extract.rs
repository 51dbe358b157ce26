//! Finding the date of a file's content: embedded metadata first, the
//! modification time last.
use crate::category::{category_of, classify, lemma_classify_ignores_case, same_ignoring_case, FileCategory};
use crate::date::{date_view, exif_timestamp_date, parse_exif_timestamp, utc_date_of, utc_date_of_timestamp, DateParts};
use vstd::prelude::*;
use vstd::utf8::{decode_utf8, valid_utf8};

verus! {

/// The EXIF fields that may hold a date, in order of preference.
#[derive(Clone, Copy, Debug, PartialEq, Eq, Structural)]
pub enum DateField {
    /// When the picture was taken.
    Original,
    /// When the file was last changed.
    Generic,
    /// When the picture was digitized.
    Digitized,
}

/// The date an ID3 tag records: a year, with month and day when known.
#[derive(Clone, Copy, Debug, PartialEq, Eq, Structural)]
pub struct RecordedDate {
    pub year: i32,
    pub month: Option<u8>,
    pub day: Option<u8>,
}

/// The ASCII values of a date field of the primary image in the EXIF data
/// of an image file's bytes; `None` where the file holds no EXIF data, or
/// the field is absent or not ASCII.
pub uninterp spec fn exif_field_values(data: Seq<u8>, field: DateField) -> Option<Seq<Seq<u8>>>;

/// The recording date of the ID3 tag in a file's bytes; `None` where there
/// is no readable tag or it records no such date.
pub uninterp spec fn id3_recorded_of(data: Seq<u8>) -> Option<RecordedDate>;

/// The bare year of the ID3 tag in a file's bytes; `None` where there is no
/// readable tag or it records no year.
pub uninterp spec fn id3_year_of(data: Seq<u8>) -> Option<i32>;

/// Relies on exif's `Reader::read_from_container` and `Exif::get_field`:
/// the ASCII values of `field` in the primary image.
#[verifier::external_body]
fn exif_field(data: &Vec<u8>, field: DateField) -> (r: Option<Vec<Vec<u8>>>)
    ensures
        values_view(r) == exif_field_values(data@, field),
{
    let tag = match field {
        DateField::Original => exif::Tag::DateTimeOriginal,
        DateField::Generic => exif::Tag::DateTime,
        DateField::Digitized => exif::Tag::DateTimeDigitized,
    };
    let reader = exif::Reader::new();
    let e = reader.read_from_container(&mut std::io::Cursor::new(data.as_slice())).ok()?;
    match &e.get_field(tag, exif::In::PRIMARY)?.value {
        exif::Value::Ascii(v) => Some(v.clone()),
        _ => None,
    }
}

/// Relies on id3's `Tag::read_from2` and `TagLike::date_recorded`: the
/// recording date of the tag in a file's bytes.
#[verifier::external_body]
fn id3_recorded(data: &Vec<u8>) -> (r: Option<RecordedDate>)
    ensures
        r == id3_recorded_of(data@),
{
    let tag = id3::Tag::read_from2(std::io::Cursor::new(data.as_slice())).ok()?;
    let ts = id3::TagLike::date_recorded(&tag)?;
    Some(RecordedDate { year: ts.year, month: ts.month, day: ts.day })
}

/// Relies on id3's `Tag::read_from2` and `TagLike::year`: the bare year of
/// the tag in a file's bytes.
#[verifier::external_body]
fn id3_year(data: &Vec<u8>) -> (r: Option<i32>)
    ensures
        r == id3_year_of(data@),
{
    let tag = id3::Tag::read_from2(std::io::Cursor::new(data.as_slice())).ok()?;
    id3::TagLike::year(&tag)
}

/// Relies on std's `String::from_utf8`: the text the bytes encode, `None`
/// where they are not UTF-8.
#[verifier::external_body]
fn utf8_text(bytes: &Vec<u8>) -> (r: Option<String>)
    ensures
        r is Some <==> valid_utf8(bytes@),
        r matches Some(s) ==> s@ == decode_utf8(bytes@),
{
    String::from_utf8(bytes.clone()).ok()
}

/// The date held by an EXIF field whose ASCII values are `values`: the
/// first value, read as UTF-8 text and parsed as a timestamp.
pub open spec fn exif_values_date(values: Option<Seq<Seq<u8>>>) -> Option<(int, int, int)> {
    match values {
        Some(vs) => if vs.len() > 0 && valid_utf8(vs[0]) {
            exif_timestamp_date(decode_utf8(vs[0]))
        } else {
            None
        },
        None => None,
    }
}

pub open spec fn values_view(values: Option<Vec<Vec<u8>>>) -> Option<Seq<Seq<u8>>> {
    match values {
        Some(vs) => Some(vs@.map_values(|v: Vec<u8>| v@)),
        None => None,
    }
}

/// The date held by an EXIF date field, given the field's ASCII values.
pub fn exif_field_date(values: &Option<Vec<Vec<u8>>>) -> (r: Option<DateParts>)
    ensures
        date_view(r) == exif_values_date(values_view(*values)),
{
    match values {
        Some(vs) => {
            if vs.len() == 0 {
                return None;
            }
            match utf8_text(&vs[0]) {
                Some(text) => parse_exif_timestamp(text.as_str()),
                None => None,
            }
        },
        None => None,
    }
}

/// The date of an audio tag: the recording date, month and day taken as 1
/// where absent; else January 1 of the bare year.
pub open spec fn audio_tag_date(recorded: Option<RecordedDate>, year: Option<i32>) -> Option<(int, int, int)> {
    match recorded {
        Some(d) => Some((
            d.year as int,
            match d.month { Some(m) => m as int, None => 1 },
            match d.day { Some(x) => x as int, None => 1 },
        )),
        None => match year {
            Some(y) => Some((y as int, 1, 1)),
            None => None,
        },
    }
}

/// The date of an audio file from what its tag records.
pub fn audio_date(recorded: Option<RecordedDate>, year: Option<i32>) -> (r: Option<DateParts>)
    ensures
        date_view(r) == audio_tag_date(recorded, year),
{
    match recorded {
        Some(d) => {
            let month: u32 = match d.month { Some(m) => m as u32, None => 1 };
            let day: u32 = match d.day { Some(x) => x as u32, None => 1 };
            Some(DateParts { year: d.year, month, day })
        },
        None => match year {
            Some(y) => Some(DateParts { year: y, month: 1, day: 1 }),
            None => None,
        },
    }
}

/// The first value that a probe found, in order; `fallback` where none did.
pub open spec fn first_found<T>(probes: Seq<Option<T>>, fallback: Option<T>) -> Option<T>
    decreases probes.len(),
{
    if probes.len() == 0 {
        fallback
    } else if probes[0] is Some {
        probes[0]
    } else {
        first_found(probes.drop_first(), fallback)
    }
}

/// Picks the result of the first probe that found a date, else `fallback`.
pub fn resolve_date(probes: &Vec<Option<DateParts>>, fallback: Option<DateParts>) -> (r: Option<DateParts>)
    ensures
        r == first_found(probes@, fallback),
{
    let mut i: usize = 0;
    assert(probes@.subrange(0, probes@.len() as int) =~= probes@);
    while i < probes.len()
        invariant
            i <= probes@.len(),
            first_found(probes@, fallback) == first_found(probes@.subrange(i as int, probes@.len() as int), fallback),
        decreases probes@.len() - i,
    {
        let ghost rest = probes@.subrange(i as int, probes@.len() as int);
        if probes[i].is_some() {
            return probes[i];
        }
        assert(rest.drop_first() =~= probes@.subrange(i + 1, probes@.len() as int));
        i = i + 1;
    }
    assert(probes@.subrange(i as int, probes@.len() as int) =~= Seq::<Option<DateParts>>::empty());
    fallback
}

/// Where no probe finds anything, the fallback is the result.
pub proof fn lemma_no_metadata_gives_fallback<T>(probes: Seq<Option<T>>, fallback: Option<T>)
    requires
        forall|i: int| 0 <= i < probes.len() ==> #[trigger] probes[i] is None,
    ensures
        first_found(probes, fallback) == fallback,
    decreases probes.len(),
{
    if probes.len() > 0 {
        assert(probes[0] is None);
        let rest = probes.drop_first();
        assert forall|i: int| 0 <= i < rest.len() implies #[trigger] rest[i] is None by {
            assert(rest[i] == probes[i + 1]);
        }
        lemma_no_metadata_gives_fallback(rest, fallback);
    }
}

/// A probe that finds something takes precedence over every later probe and
/// the fallback: the result is what the first successful probe found.
pub proof fn lemma_earlier_probe_wins<T>(probes: Seq<Option<T>>, fallback: Option<T>, k: int)
    requires
        0 <= k < probes.len(),
        probes[k] is Some,
        forall|i: int| 0 <= i < k ==> #[trigger] probes[i] is None,
    ensures
        first_found(probes, fallback) == probes[k],
    decreases k,
{
    if k > 0 {
        assert(probes[0] is None);
        let rest = probes.drop_first();
        assert forall|i: int| 0 <= i < k - 1 implies #[trigger] rest[i] is None by {
            assert(rest[i] == probes[i + 1]);
        }
        assert(rest[k - 1] == probes[k]);
        lemma_earlier_probe_wins(rest, fallback, k - 1);
    }
}

proof fn lemma_result_from_probes<T>(probes: Seq<Option<T>>, fallback: Option<T>)
    ensures
        fallback is Some ==> first_found(probes, fallback) is Some,
    decreases probes.len(),
{
    if probes.len() > 0 && probes[0] is None {
        lemma_result_from_probes(probes.drop_first(), fallback);
    }
}

pub open spec fn date_views(probes: Seq<Option<DateParts>>) -> Seq<Option<(int, int, int)>> {
    probes.map_values(|p: Option<DateParts>| date_view(p))
}

proof fn lemma_first_found_view(probes: Seq<Option<DateParts>>, fallback: Option<DateParts>)
    ensures
        date_view(first_found(probes, fallback)) == first_found(date_views(probes), date_view(fallback)),
    decreases probes.len(),
{
    if probes.len() > 0 {
        assert(date_views(probes.drop_first()) =~= date_views(probes).drop_first());
        lemma_first_found_view(probes.drop_first(), fallback);
    }
}

/// The dates that a file's embedded metadata yields, in order of
/// preference: for a photo its EXIF capture time, generic timestamp and
/// digitizing time; for an audio file what its ID3 tag records; nothing for
/// any other file.
pub open spec fn metadata_dates(extension: Seq<char>, data: Seq<u8>) -> Seq<Option<(int, int, int)>> {
    match category_of(extension) {
        FileCategory::Photo => seq![
            exif_values_date(exif_field_values(data, DateField::Original)),
            exif_values_date(exif_field_values(data, DateField::Generic)),
            exif_values_date(exif_field_values(data, DateField::Digitized)),
        ],
        FileCategory::Audio => seq![audio_tag_date(id3_recorded_of(data), id3_year_of(data))],
        FileCategory::Unclassified => seq![],
    }
}

/// The best known date of a file's content: the first date its metadata
/// yields, else the UTC date of its modification time `secs`.
pub open spec fn content_date(extension: Seq<char>, data: Seq<u8>, secs: int) -> Option<(int, int, int)> {
    first_found(metadata_dates(extension, data), utc_date_of(secs))
}

/// The best known date of a file's content, from its extension, its bytes
/// and its modification time `modified_secs` (seconds since the Unix epoch):
/// for a photo the first of its EXIF date fields that parses, for an audio
/// file the date its ID3 tag records, and otherwise, or where those yield
/// nothing, the UTC date of its modification time. `None` only where that
/// time lies outside the calendar's range.
pub fn extract_date(extension: &str, contents: &Vec<u8>, modified_secs: i64) -> (r: Option<DateParts>)
    ensures
        date_view(r) == content_date(extension@, contents@, modified_secs as int),
        utc_date_of(modified_secs as int) is Some ==> r is Some,
{
    let fallback = utc_date_of_timestamp(modified_secs);
    let mut probes: Vec<Option<DateParts>> = Vec::new();
    match classify(extension) {
        FileCategory::Photo => {
            probes.push(exif_field_date(&exif_field(contents, DateField::Original)));
            probes.push(exif_field_date(&exif_field(contents, DateField::Generic)));
            probes.push(exif_field_date(&exif_field(contents, DateField::Digitized)));
        },
        FileCategory::Audio => {
            probes.push(audio_date(id3_recorded(contents), id3_year(contents)));
        },
        FileCategory::Unclassified => {},
    }
    proof {
        assert(date_views(probes@) =~= metadata_dates(extension@, contents@));
        lemma_first_found_view(probes@, fallback);
        lemma_result_from_probes(probes@, fallback);
    }
    resolve_date(&probes, fallback)
}

/// Classification, and so the date found, does not depend on the case of
/// the extension's letters.
pub proof fn lemma_content_date_ignores_case(a: Seq<char>, b: Seq<char>, data: Seq<u8>, secs: int)
    requires
        same_ignoring_case(a, b),
    ensures
        content_date(a, data, secs) == content_date(b, data, secs),
{
    lemma_classify_ignores_case(a, b);
}

/// A file whose metadata yields no date gets the date of its modification
/// time.
pub proof fn lemma_no_metadata_gives_modification_date(extension: Seq<char>, data: Seq<u8>, secs: int)
    requires
        forall|i: int| 0 <= i < metadata_dates(extension, data).len() ==> #[trigger] metadata_dates(extension, data)[i] is None,
    ensures
        content_date(extension, data, secs) == utc_date_of(secs),
{
    lemma_no_metadata_gives_fallback(metadata_dates(extension, data), utc_date_of(secs));
}

/// A photo whose capture time parses gets that date, whatever its other
/// fields and modification time hold.
pub proof fn lemma_capture_time_wins(extension: Seq<char>, data: Seq<u8>, secs: int)
    requires
        category_of(extension) == FileCategory::Photo,
        exif_values_date(exif_field_values(data, DateField::Original)) is Some,
    ensures
        content_date(extension, data, secs) == exif_values_date(exif_field_values(data, DateField::Original)),
{
}

/// A photo gets the date of its first EXIF date field that parses; an
/// unusable field is skipped for the next one.
pub proof fn lemma_first_parsing_field_wins(extension: Seq<char>, data: Seq<u8>, secs: int, k: int)
    requires
        category_of(extension) == FileCategory::Photo,
        0 <= k < 3,
        metadata_dates(extension, data)[k] is Some,
        forall|i: int| 0 <= i < k ==> #[trigger] metadata_dates(extension, data)[i] is None,
    ensures
        content_date(extension, data, secs) == metadata_dates(extension, data)[k],
{
    lemma_earlier_probe_wins(metadata_dates(extension, data), utc_date_of(secs), k);
}

/// An audio file whose tag records only a year gets January 1 of that year.
pub proof fn lemma_recorded_year_only(extension: Seq<char>, data: Seq<u8>, secs: int, year: i32)
    requires
        category_of(extension) == FileCategory::Audio,
        id3_recorded_of(data) == Some(RecordedDate { year, month: None, day: None }),
    ensures
        content_date(extension, data, secs) == Some((year as int, 1int, 1int)),
{
}

} // verus!
