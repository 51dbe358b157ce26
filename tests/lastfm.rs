use journal::lastfm::{LastFmAnalyzer, LastFmData, Scrobble};

// 2025-07-10T12:00:00Z in milliseconds.
const NOON: i64 = 1752148800000;
const HOUR: i64 = 3_600_000;

fn play(track: &str, artist: &str, album: &str, date: i64) -> Scrobble {
    Scrobble { track: track.to_string(), artist: artist.to_string(), album: album.to_string(), date }
}

fn analyzer() -> LastFmAnalyzer {
    let scrobbles = vec![
        play("One", "A", "First", NOON),
        play("Two", "A", "First", NOON + HOUR),
        play("One", "A", "First", NOON + 2 * HOUR),
        play("Three", "B", "Second", NOON + 3 * HOUR),
        play("Four", "C", "Third", NOON - 13 * HOUR),
        play("Five", "C", "Third", NOON + 12 * HOUR),
    ];
    LastFmAnalyzer::new(LastFmData { username: "someone".to_string(), scrobbles })
}

#[test]
fn scrobbles_of_a_day() {
    let a = analyzer();
    let day = a.get_scrobbles_for_date("2025-07-10");
    let tracks: Vec<&str> = day.iter().map(|s| s.track.as_str()).collect();
    assert_eq!(tracks, vec!["One", "Two", "One", "Three"]);
    assert_eq!(a.get_total_scrobbles_for_date("2025-07-10"), 4);
    assert_eq!(a.get_total_scrobbles_for_date("2025-07-09"), 1);
    assert_eq!(a.get_total_scrobbles_for_date("2025-07-11"), 1);
}

#[test]
fn unparseable_day_has_no_scrobbles() {
    let a = analyzer();
    assert!(a.get_scrobbles_for_date("yesterday").is_empty());
    assert_eq!(a.get_total_scrobbles_for_date("2025-13-01"), 0);
}

#[test]
fn top_albums_most_played_first() {
    let a = analyzer();
    let top = a.get_top_albums_for_date("2025-07-10", 5);
    assert_eq!(top.len(), 2);
    assert_eq!((top[0].name.as_str(), top[0].artist.as_str(), top[0].play_count), ("First", "A", 3));
    assert_eq!((top[1].name.as_str(), top[1].artist.as_str(), top[1].play_count), ("Second", "B", 1));
    let one = a.get_top_albums_for_date("2025-07-10", 1);
    assert_eq!(one.len(), 1);
    assert_eq!(one[0].name, "First");
    assert!(a.get_top_albums_for_date("2025-07-10", 0).is_empty());
}

#[test]
fn top_tracks_count_each_track() {
    let a = analyzer();
    let top = a.get_top_tracks_for_date("2025-07-10", 5);
    assert_eq!(top.len(), 3);
    assert_eq!((top[0].name.as_str(), top[0].play_count), ("One", 2));
    let mut rest: Vec<(&str, usize)> = top[1..].iter().map(|t| (t.name.as_str(), t.play_count)).collect();
    rest.sort();
    assert_eq!(rest, vec![("Three", 1), ("Two", 1)]);
}

#[test]
fn scrobble_before_epoch_rounds_toward_zero() {
    // -500 ms rounds to second 0, which is 1970-01-01.
    let a = LastFmAnalyzer::new(LastFmData {
        username: "u".to_string(),
        scrobbles: vec![play("T", "A", "L", -500), play("U", "A", "L", -1500)],
    });
    assert_eq!(a.get_total_scrobbles_for_date("1970-01-01"), 1);
    assert_eq!(a.get_total_scrobbles_for_date("1969-12-31"), 1);
}
