use journal::date::DateParts;
use journal::dump::process_file;
use journal::extract::{audio_date, extract_date, resolve_date, RecordedDate};
use journal::placement::{plan_placement, FsAction};

// 2021-03-04T00:00:00Z
const MARCH_4_2021: i64 = 1614816000;

fn entry(tag: u16, kind: u16, count: u32, value: u32) -> Vec<u8> {
    let mut v = Vec::new();
    v.extend_from_slice(&tag.to_le_bytes());
    v.extend_from_slice(&kind.to_le_bytes());
    v.extend_from_slice(&count.to_le_bytes());
    v.extend_from_slice(&value.to_le_bytes());
    v
}

fn ascii19(s: &str) -> Vec<u8> {
    let mut b = s.as_bytes().to_vec();
    b.resize(19, b' ');
    b.push(0);
    b
}

/// A little-endian TIFF file whose primary image has a DateTime field and,
/// in its EXIF directory, a DateTimeOriginal field.
fn tiff_with_dates(generic: &str, original: &str) -> Vec<u8> {
    let mut v = vec![b'I', b'I', 42, 0, 8, 0, 0, 0];
    // First directory at 8: two entries, 30 bytes, ends at 38.
    v.extend_from_slice(&2u16.to_le_bytes());
    v.extend(entry(0x0132, 2, 20, 56));
    v.extend(entry(0x8769, 4, 1, 38));
    v.extend_from_slice(&0u32.to_le_bytes());
    // EXIF directory at 38: one entry, 18 bytes, ends at 56.
    v.extend_from_slice(&1u16.to_le_bytes());
    v.extend(entry(0x9003, 2, 20, 76));
    v.extend_from_slice(&0u32.to_le_bytes());
    assert_eq!(v.len(), 56);
    v.extend(ascii19(generic));
    v.extend(ascii19(original));
    v
}

fn syncsafe(n: u32) -> [u8; 4] {
    [((n >> 21) & 0x7f) as u8, ((n >> 14) & 0x7f) as u8, ((n >> 7) & 0x7f) as u8, (n & 0x7f) as u8]
}

/// An ID3v2.4 tag holding one text frame, followed by a few bytes of audio.
fn mp3_with_frame(id: &str, text: &str) -> Vec<u8> {
    let mut content = vec![3u8];
    content.extend_from_slice(text.as_bytes());
    let mut frame = id.as_bytes().to_vec();
    frame.extend_from_slice(&syncsafe(content.len() as u32));
    frame.extend_from_slice(&[0, 0]);
    frame.extend(content);
    let mut v = b"ID3".to_vec();
    v.extend_from_slice(&[4, 0, 0]);
    v.extend_from_slice(&syncsafe(frame.len() as u32));
    v.extend(frame);
    v.extend_from_slice(&[0xff, 0xfb, 0x90, 0x00]);
    v
}

#[test]
fn capture_time_wins_over_generic_timestamp() {
    let data = tiff_with_dates("2020:12:31 08:00:00", "2023:05:17 10:22:00");
    assert_eq!(process_file("jpg", &data, MARCH_4_2021), Some("2023-05-17".to_string()));
    assert_eq!(
        extract_date("TIF", &data, MARCH_4_2021),
        Some(DateParts { year: 2023, month: 5, day: 17 })
    );
}

#[test]
fn unparseable_capture_time_falls_to_generic_timestamp() {
    let data = tiff_with_dates("2020:12:31 08:00:00", "not a date");
    assert_eq!(process_file("jpg", &data, MARCH_4_2021), Some("2020-12-31".to_string()));
}

#[test]
fn photo_without_metadata_uses_modification_time() {
    let data = vec![1u8, 2, 3, 4, 5];
    assert_eq!(process_file("png", &data, MARCH_4_2021), Some("2021-03-04".to_string()));
    assert_eq!(process_file("jpg", &Vec::new(), MARCH_4_2021), Some("2021-03-04".to_string()));
}

#[test]
fn recorded_year_only_gives_january_first() {
    let data = mp3_with_frame("TDRC", "2022");
    assert_eq!(process_file("mp3", &data, MARCH_4_2021), Some("2022-01-01".to_string()));
}

#[test]
fn recorded_full_date_is_used() {
    let data = mp3_with_frame("TDRC", "2019-08-07");
    assert_eq!(process_file("MP3", &data, MARCH_4_2021), Some("2019-08-07".to_string()));
}

#[test]
fn audio_without_tag_uses_modification_time() {
    let data = vec![0xffu8, 0xfb, 0x90, 0x00, 0, 0, 0, 0];
    assert_eq!(process_file("mp3", &data, MARCH_4_2021), Some("2021-03-04".to_string()));
}

#[test]
fn tag_is_read_from_every_audio_file() {
    let data = mp3_with_frame("TDRC", "2022");
    assert_eq!(process_file("flac", &data, MARCH_4_2021), Some("2022-01-01".to_string()));
    assert_eq!(process_file("WAV", &data, MARCH_4_2021), Some("2022-01-01".to_string()));
    let untagged = vec![b'f', b'L', b'a', b'C', 0, 0, 0, 0];
    assert_eq!(process_file("flac", &untagged, MARCH_4_2021), Some("2021-03-04".to_string()));
}

#[test]
fn extension_case_does_not_change_the_date() {
    let data = tiff_with_dates("2020:12:31 08:00:00", "2023:05:17 10:22:00");
    assert_eq!(process_file("JPG", &data, MARCH_4_2021), process_file("jpg", &data, MARCH_4_2021));
    let tag = mp3_with_frame("TDRC", "2022");
    assert_eq!(process_file("Mp3", &tag, MARCH_4_2021), process_file("mp3", &tag, MARCH_4_2021));
}

#[test]
fn bare_year_frame_gives_january_first() {
    let data = mp3_with_frame("TYER", "1998");
    assert_eq!(process_file("mp3", &data, MARCH_4_2021), Some("1998-01-01".to_string()));
}

#[test]
fn unsupported_file_uses_modification_time() {
    let data = tiff_with_dates("2020:12:31 08:00:00", "2023:05:17 10:22:00");
    assert_eq!(process_file("txt", &data, MARCH_4_2021), Some("2021-03-04".to_string()));
    assert_eq!(process_file("", &data, 0), Some("1970-01-01".to_string()));
    assert_eq!(process_file("txt", &data, -1), Some("1969-12-31".to_string()));
}

#[test]
fn time_out_of_calendar_range_gives_none() {
    assert_eq!(process_file("txt", &Vec::new(), i64::MAX), None);
}

#[test]
fn audio_date_defaults_month_and_day() {
    let r = RecordedDate { year: 2022, month: None, day: None };
    assert_eq!(audio_date(Some(r), None), Some(DateParts { year: 2022, month: 1, day: 1 }));
    let r = RecordedDate { year: 2022, month: Some(3), day: None };
    assert_eq!(audio_date(Some(r), Some(1999)), Some(DateParts { year: 2022, month: 3, day: 1 }));
    assert_eq!(audio_date(None, Some(1999)), Some(DateParts { year: 1999, month: 1, day: 1 }));
    assert_eq!(audio_date(None, None), None);
}

#[test]
fn first_probe_with_a_date_wins() {
    let a = DateParts { year: 2023, month: 5, day: 17 };
    let b = DateParts { year: 2020, month: 1, day: 1 };
    let f = DateParts { year: 2021, month: 3, day: 4 };
    assert_eq!(resolve_date(&vec![Some(a), Some(b)], Some(f)), Some(a));
    assert_eq!(resolve_date(&vec![None, Some(b), Some(a)], Some(f)), Some(b));
    assert_eq!(resolve_date(&vec![None, None, None], Some(f)), Some(f));
    assert_eq!(resolve_date(&vec![], Some(f)), Some(f));
}

#[test]
fn photo_and_untagged_audio_end_to_end() {
    let photo = tiff_with_dates("2021:01:02 09:30:00", "2021:01:02 09:30:00");
    let audio = vec![0u8; 16];
    // Both files were last changed on 2021-03-04.
    let a_date = process_file("jpg", &photo, MARCH_4_2021).unwrap();
    let b_date = process_file("mp3", &audio, MARCH_4_2021).unwrap();
    assert_eq!(a_date, "2021-01-02");
    assert_eq!(b_date, "2021-03-04");
    let a = plan_placement("archive", &a_date, "jpg", "inbox/a.jpg", "a.jpg", false, false);
    let b = plan_placement("archive", &b_date, "mp3", "inbox/b.mp3", "b.mp3", false, false);
    let s = |x: &str| x.to_string();
    assert_eq!(
        a.actions,
        vec![
            FsAction::CreateDir(s("archive/2021-01-02")),
            FsAction::CreateFile(s("archive/2021-01-02/entry.md"), s("# 2021-01-02\n\n")),
            FsAction::CreateDir(s("archive/2021-01-02/pics")),
            FsAction::Rename(s("inbox/a.jpg"), s("archive/2021-01-02/pics/a.jpg")),
        ]
    );
    assert_eq!(
        b.actions,
        vec![
            FsAction::CreateDir(s("archive/2021-03-04")),
            FsAction::CreateFile(s("archive/2021-03-04/entry.md"), s("# 2021-03-04\n\n")),
            FsAction::CreateDir(s("archive/2021-03-04/audio")),
            FsAction::Rename(s("inbox/b.mp3"), s("archive/2021-03-04/audio/b.mp3")),
        ]
    );
    assert_eq!(a.outcome, Ok(()));
    assert_eq!(b.outcome, Ok(()));
}
