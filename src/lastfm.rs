//! Listening history: the scrobbles of a day and what was played most.
use crate::date::{iso_date, parse_iso_date, utc_date_of, utc_date_of_timestamp, DateParts};
use vstd::prelude::*;

verus! {

/// One play of a track; `date` is a Unix time in milliseconds.
#[derive(Clone, Debug)]
pub struct Scrobble {
    pub track: String,
    pub artist: String,
    pub album: String,
    pub date: i64,
}

/// A user's exported listening history.
#[derive(Debug)]
pub struct LastFmData {
    pub username: String,
    pub scrobbles: Vec<Scrobble>,
}

/// How often an album was played.
#[derive(Clone, Debug)]
pub struct AlbumStats {
    pub name: String,
    pub artist: String,
    pub play_count: usize,
}

/// How often a track was played.
#[derive(Clone, Debug)]
pub struct TrackStats {
    pub name: String,
    pub artist: String,
    pub play_count: usize,
}

/// Answers questions about one listening history.
pub struct LastFmAnalyzer {
    data: LastFmData,
}

/// Whole seconds in `ms` milliseconds, rounded toward zero.
pub open spec fn whole_seconds(ms: int) -> int {
    if ms >= 0 {
        ms / 1000
    } else {
        -((-ms) / 1000)
    }
}

/// The UTC day of a scrobble made at `ms`; January 1, 1970 where that
/// instant lies outside the calendar's range.
pub open spec fn scrobble_day(ms: int) -> (int, int, int) {
    match utc_date_of(whole_seconds(ms)) {
        Some(d) => d,
        None => (1970, 1, 1),
    }
}

/// The scrobbles of `s` made on the day `day`, in their order.
pub open spec fn scrobbles_on(s: Seq<Scrobble>, day: (int, int, int)) -> Seq<Scrobble>
    decreases s.len(),
{
    if s.len() == 0 {
        seq![]
    } else {
        let rest = scrobbles_on(s.drop_last(), day);
        if scrobble_day(s.last().date as int) == day {
            rest.push(s.last())
        } else {
            rest
        }
    }
}

/// The scrobbles of `s` made on the day that `date_text` names; none where
/// it does not parse as `YYYY-MM-DD`.
pub open spec fn scrobbles_for(s: Seq<Scrobble>, date_text: Seq<char>) -> Seq<Scrobble> {
    match iso_date(date_text) {
        Some(day) => scrobbles_on(s, day),
        None => seq![],
    }
}

pub open spec fn derefs(v: Seq<&Scrobble>) -> Seq<Scrobble> {
    v.map_values(|x: &Scrobble| *x)
}

fn seconds_of_millis(ms: i64) -> (r: i64)
    ensures
        r as int == whole_seconds(ms as int),
{
    if ms >= 0 {
        ms / 1000
    } else {
        let magnitude: u64 = (-(ms + 1)) as u64 + 1;
        assert(magnitude as int == -(ms as int));
        let q: u64 = magnitude / 1000;
        -(q as i64)
    }
}

fn day_of_scrobble(ms: i64) -> (r: DateParts)
    ensures
        r@ == scrobble_day(ms as int),
{
    match utc_date_of_timestamp(seconds_of_millis(ms)) {
        Some(d) => d,
        None => DateParts { year: 1970, month: 1, day: 1 },
    }
}


pub type KeyView = (Seq<char>, Seq<char>);

pub open spec fn key_at(names: Seq<String>, artists: Seq<String>, j: int) -> KeyView {
    (names[j]@, artists[j]@)
}

pub open spec fn keys_view(v: Seq<(String, String)>) -> Seq<KeyView> {
    v.map_values(|k: (String, String)| (k.0@, k.1@))
}

/// How many times `k` occurs in `keys`.
pub open spec fn key_count(keys: Seq<KeyView>, k: KeyView) -> nat
    decreases keys.len(),
{
    if keys.len() == 0 {
        0
    } else {
        key_count(keys.drop_last(), k) + if keys.last() == k { 1nat } else { 0nat }
    }
}

/// A play count: a name and an artist, and how often they were played.
pub type CountView = (KeyView, nat);

/// `r` holds the most played of `keys`, at most `limit` of them, most played
/// first: each at most once and with the number of times it occurs; a key
/// left out is played no more often than the last one kept, which is left
/// out only where `limit` entries are kept.
pub open spec fn is_top_tally(r: Seq<CountView>, keys: Seq<KeyView>, limit: nat) -> bool {
    &&& r.len() <= limit
    &&& forall|i: int| 0 <= i < r.len() ==> #[trigger] r[i].1 == key_count(keys, r[i].0) && r[i].1 > 0
    &&& forall|i: int, j: int| 0 <= i < j < r.len() ==> #[trigger] r[i].0 != #[trigger] r[j].0
    &&& forall|i: int, j: int| 0 <= i < j < r.len() ==> #[trigger] r[i].1 >= #[trigger] r[j].1
    &&& forall|k: KeyView| key_count(keys, k) > 0 && (forall|i: int| 0 <= i < r.len() ==> #[trigger] r[i].0 != k) ==> {
        &&& r.len() == limit
        &&& limit > 0 ==> #[trigger] key_count(keys, k) <= r[limit - 1].1
    }
}

pub open spec fn album_counts(r: Seq<AlbumStats>) -> Seq<CountView> {
    r.map_values(|a: AlbumStats| ((a.name@, a.artist@), a.play_count as nat))
}

pub open spec fn track_counts(r: Seq<TrackStats>) -> Seq<CountView> {
    r.map_values(|a: TrackStats| ((a.name@, a.artist@), a.play_count as nat))
}

/// The album and artist of each scrobble.
pub open spec fn album_keys(s: Seq<Scrobble>) -> Seq<KeyView> {
    s.map_values(|x: Scrobble| (x.album@, x.artist@))
}

/// The track and artist of each scrobble.
pub open spec fn track_keys(s: Seq<Scrobble>) -> Seq<KeyView> {
    s.map_values(|x: Scrobble| (x.track@, x.artist@))
}

fn find_key(names: &Vec<String>, artists: &Vec<String>, name: &String, artist: &String) -> (r: Option<usize>)
    requires
        names@.len() == artists@.len(),
    ensures
        match r {
            Some(j) => j < names@.len() && names@[j as int]@ == name@ && artists@[j as int]@ == artist@,
            None => forall|j: int| 0 <= j < names@.len() ==> !(names@[j]@ == name@ && artists@[j]@ == artist@),
        },
{
    let mut j: usize = 0;
    while j < names.len()
        invariant
            names@.len() == artists@.len(),
            j <= names@.len(),
            forall|m: int| 0 <= m < j ==> !(names@[m]@ == name@ && artists@[m]@ == artist@),
        decreases names@.len() - j,
    {
        if names[j] == *name && artists[j] == *artist {
            return Some(j);
        }
        j = j + 1;
    }
    None
}

/// The most played of `keys`, at most `limit` of them, most played first.
fn top_counts(keys: &Vec<(String, String)>, limit: usize) -> (r: Vec<AlbumStats>)
    ensures
        is_top_tally(album_counts(r@), keys_view(keys@), limit as nat),
{
    let ghost kv = keys_view(keys@);
    // Count each distinct key, in the order of first occurrence.
    let mut names: Vec<String> = Vec::new();
    let mut artists: Vec<String> = Vec::new();
    let mut counts: Vec<usize> = Vec::new();
    let mut i: usize = 0;
    while i < keys.len()
        invariant
            i <= keys@.len(),
            kv == keys_view(keys@),
            names@.len() == artists@.len(),
            names@.len() == counts@.len(),
            forall|j: int| 0 <= j < counts@.len() ==> #[trigger] counts@[j] == key_count(kv.subrange(0, i as int), key_at(names@, artists@, j)),
            forall|j: int| 0 <= j < counts@.len() ==> #[trigger] counts@[j] > 0,
            forall|j: int| 0 <= j < counts@.len() ==> #[trigger] counts@[j] <= i,
            forall|a: int, b: int| 0 <= a < b < names@.len() ==> (#[trigger] names@[a]@, artists@[a]@) != (#[trigger] names@[b]@, artists@[b]@),
            forall|k: KeyView| key_count(kv.subrange(0, i as int), k) > 0 ==> exists|j: int| 0 <= j < names@.len() && #[trigger] key_at(names@, artists@, j) == k,
        decreases keys@.len() - i,
    {
        let ghost before = kv.subrange(0, i as int);
        let ghost after = kv.subrange(0, i + 1);
        let ghost x = kv[i as int];
        assert(after.drop_last() =~= before);
        assert(after.last() == x);
        assert(x == (keys@[i as int].0@, keys@[i as int].1@));
        let ghost old_counts = counts@;
        match find_key(&names, &artists, &keys[i].0, &keys[i].1) {
            Some(j) => {
                counts.set(j, counts[j] + 1);
                assert forall|m: int| 0 <= m < counts@.len() implies #[trigger] counts@[m] == key_count(after, key_at(names@, artists@, m)) by {
                    assert(old_counts[m] == key_count(before, key_at(names@, artists@, m)));
                    if m != j {
                        assert(key_at(names@, artists@, m) != key_at(names@, artists@, j as int));
                    }
                }
                assert forall|k: KeyView| key_count(after, k) > 0 implies exists|m: int| 0 <= m < names@.len() && #[trigger] key_at(names@, artists@, m) == k by {
                    if k == x {
                        assert(key_at(names@, artists@, j as int) == k);
                    } else {
                        assert(key_count(before, k) > 0);
                    }
                }
            },
            None => {
                let ghost old_names = names@;
                let ghost old_artists = artists@;
                names.push(keys[i].0.clone());
                artists.push(keys[i].1.clone());
                counts.push(1);
                assert forall|m: int| 0 <= m < counts@.len() implies #[trigger] counts@[m] == key_count(after, key_at(names@, artists@, m)) by {
                    if m < old_counts.len() {
                        assert(names@[m] == old_names[m]);
                        assert(artists@[m] == old_artists[m]);
                        assert(old_counts[m] == key_count(before, key_at(names@, artists@, m)));
                        assert(key_at(names@, artists@, m) != x);
                    } else {
                        assert(key_at(names@, artists@, m) == x);
                        // No earlier key matched, so `x` was not counted before.
                        if key_count(before, x) > 0 {
                            let w = choose|w: int| 0 <= w < old_names.len() && #[trigger] key_at(old_names, old_artists, w) == x;
                            assert(false);
                        }
                    }
                }
                assert forall|a: int, b: int| 0 <= a < b < names@.len() implies (#[trigger] names@[a]@, artists@[a]@) != (#[trigger] names@[b]@, artists@[b]@) by {
                    if b == old_names.len() {
                        assert(names@[a] == old_names[a]);
                        assert(artists@[a] == old_artists[a]);
                    } else {
                        assert(names@[a] == old_names[a]);
                        assert(names@[b] == old_names[b]);
                        assert(artists@[a] == old_artists[a]);
                        assert(artists@[b] == old_artists[b]);
                    }
                }
                assert forall|k: KeyView| key_count(after, k) > 0 implies exists|m: int| 0 <= m < names@.len() && #[trigger] key_at(names@, artists@, m) == k by {
                    if k == x {
                        assert(key_at(names@, artists@, old_names.len() as int) == k);
                    } else {
                        assert(key_count(before, k) > 0);
                        let w = choose|w: int| 0 <= w < old_names.len() && #[trigger] key_at(old_names, old_artists, w) == k;
                        assert(names@[w] == old_names[w]);
                        assert(artists@[w] == old_artists[w]);
                        assert(key_at(names@, artists@, w) == k);
                    }
                }
            },
        }
        i = i + 1;
    }
    assert(kv.subrange(0, keys@.len() as int) =~= kv);
    let n = counts.len();
    // Order the distinct keys by count, most played first; ties keep their order.
    let mut order: Vec<usize> = Vec::new();
    let ghost mut pos: Seq<int> = Seq::empty();
    let mut t: usize = 0;
    while t < n
        invariant
            t <= n,
            n == counts@.len(),
            order@.len() == t,
            pos.len() == t,
            forall|m: int| 0 <= m < t ==> #[trigger] order@[m] < t,
            forall|a: int, b: int| 0 <= a < b < t ==> #[trigger] order@[a] != #[trigger] order@[b],
            forall|j: int| 0 <= j < t ==> 0 <= #[trigger] pos[j] < t && order@[pos[j]] == j,
            forall|a: int, b: int| 0 <= a < b < t ==> counts@[#[trigger] order@[a] as int] >= counts@[#[trigger] order@[b] as int],
        decreases n - t,
    {
        let c = counts[t];
        let mut p: usize = 0;
        while p < order.len() && counts[order[p]] >= c
            invariant
                p <= order@.len(),
                order@.len() == t,
                t < n,
                n == counts@.len(),
                forall|m: int| 0 <= m < t ==> #[trigger] order@[m] < t,
                c == counts@[t as int],
                forall|m: int| 0 <= m < p ==> counts@[#[trigger] order@[m] as int] >= c,
            decreases order@.len() - p,
        {
            p = p + 1;
        }
        let ghost old_order = order@;
        let ghost old_pos = pos;
        order.insert(p, t);
        proof {
            pos = Seq::new((t + 1) as nat, |j: int| if j == t { p as int } else if old_pos[j] >= p { old_pos[j] + 1 } else { old_pos[j] });
            assert forall|m: int| 0 <= m < t + 1 implies #[trigger] order@[m] < t + 1 by {
                if m < p { assert(order@[m] == old_order[m]); }
                else if m > p { assert(order@[m] == old_order[m - 1]); }
            }
            assert forall|a: int, b: int| 0 <= a < b < t + 1 implies #[trigger] order@[a] != #[trigger] order@[b] by {
                if a < p { assert(order@[a] == old_order[a]); }
                else if a > p { assert(order@[a] == old_order[a - 1]); }
                if b < p { assert(order@[b] == old_order[b]); }
                else if b > p { assert(order@[b] == old_order[b - 1]); }
            }
            assert forall|j: int| 0 <= j < t + 1 implies 0 <= #[trigger] pos[j] < t + 1 && order@[pos[j]] == j by {
                if j < t {
                    let q = old_pos[j];
                    assert(old_order[q] == j);
                    if q >= p { assert(order@[q + 1] == old_order[q]); }
                    else { assert(order@[q] == old_order[q]); }
                }
            }
            assert forall|a: int, b: int| 0 <= a < b < t + 1 implies counts@[#[trigger] order@[a] as int] >= counts@[#[trigger] order@[b] as int] by {
                if b < p {
                    assert(order@[a] == old_order[a]);
                    assert(order@[b] == old_order[b]);
                } else if b == p {
                    assert(order@[a] == old_order[a]);
                    assert(order@[b] == t);
                } else if a == p {
                    assert(order@[a] == t);
                    assert(order@[b] == old_order[b - 1]);
                    assert(counts@[old_order[p as int] as int] < c);
                    if b - 1 > p {
                        assert(counts@[old_order[p as int] as int] >= counts@[old_order[b - 1] as int]);
                    }
                } else if a < p {
                    assert(order@[a] == old_order[a]);
                    assert(order@[b] == old_order[b - 1]);
                } else {
                    assert(order@[a] == old_order[a - 1]);
                    assert(order@[b] == old_order[b - 1]);
                }
            }
        }
        t = t + 1;
    }
    // Keep the first `limit`.
    let take = if limit < n { limit } else { n };
    let mut r: Vec<AlbumStats> = Vec::new();
    let mut m: usize = 0;
    while m < take
        invariant
            m <= take,
            take <= n,
            take <= limit,
            take == limit || take == n,
            n == counts@.len(),
            n == names@.len(),
            n == artists@.len(),
            order@.len() == n,
            forall|q: int| 0 <= q < n ==> #[trigger] order@[q] < n,
            r@.len() == m,
            forall|q: int| 0 <= q < m ==> #[trigger] album_counts(r@)[q] == ((names@[order@[q] as int]@, artists@[order@[q] as int]@), counts@[order@[q] as int] as nat),
        decreases take - m,
    {
        let j = order[m];
        let ghost old_r = r@;
        r.push(AlbumStats { name: names[j].clone(), artist: artists[j].clone(), play_count: counts[j] });
        assert forall|q: int| 0 <= q < m + 1 implies #[trigger] album_counts(r@)[q] == ((names@[order@[q] as int]@, artists@[order@[q] as int]@), counts@[order@[q] as int] as nat) by {
            if q < m {
                assert(r@[q] == old_r[q]);
                assert(album_counts(old_r)[q] == album_counts(r@)[q]);
            }
        }
        m = m + 1;
    }
    proof {
        let v = album_counts(r@);
        assert forall|q: int| 0 <= q < v.len() implies #[trigger] v[q].1 == key_count(kv, v[q].0) && v[q].1 > 0 by {
            let j = order@[q] as int;
            assert(counts@[j] == key_count(kv, key_at(names@, artists@, j)));
            assert(counts@[j] > 0);
        }
        assert forall|a: int, b: int| 0 <= a < b < v.len() implies #[trigger] v[a].0 != #[trigger] v[b].0 by {
            assert(order@[a] != order@[b]);
            let ja = order@[a] as int;
            let jb = order@[b] as int;
            if ja < jb {
                assert(key_at(names@, artists@, ja) != key_at(names@, artists@, jb));
            } else {
                assert(key_at(names@, artists@, jb) != key_at(names@, artists@, ja));
            }
        }
        assert forall|a: int, b: int| 0 <= a < b < v.len() implies #[trigger] v[a].1 >= #[trigger] v[b].1 by {
            assert(counts@[order@[a] as int] >= counts@[order@[b] as int]);
        }
        assert forall|k: KeyView| key_count(kv, k) > 0 && (forall|q: int| 0 <= q < v.len() ==> #[trigger] v[q].0 != k) implies {
            &&& v.len() == limit
            &&& limit > 0 ==> #[trigger] key_count(kv, k) <= v[limit - 1].1
        } by {
            let j = choose|j: int| 0 <= j < names@.len() && #[trigger] key_at(names@, artists@, j) == k;
            let q = pos[j];
            assert(order@[q] == j);
            if q < take {
                assert(v[q].0 == k);
            }
            assert(q >= take);
            assert(take == limit);
            if limit > 0 {
                assert(counts@[order@[limit - 1] as int] >= counts@[order@[q] as int]);
                assert(counts@[j] == key_count(kv, k));
            }
        }
    }
    r
}

impl LastFmAnalyzer {
    /// An analyzer of the history `data`.
    pub fn new(data: LastFmData) -> (r: LastFmAnalyzer)
        ensures
            r.data() == data,
    {
        LastFmAnalyzer { data }
    }

    pub closed spec fn data(&self) -> LastFmData {
        self.data
    }

    /// The scrobbles made on the UTC day that `date_str` names as
    /// `YYYY-MM-DD`, in the history's order; none where it does not parse.
    pub fn get_scrobbles_for_date(&self, date_str: &str) -> (r: Vec<&Scrobble>)
        ensures
            derefs(r@) == scrobbles_for(self.data().scrobbles@, date_str@),
    {
        let target = match parse_iso_date(date_str) {
            Some(d) => d,
            None => {
                let r: Vec<&Scrobble> = Vec::new();
                assert(derefs(r@) =~= Seq::<Scrobble>::empty());
                return r;
            },
        };
        let s = &self.data.scrobbles;
        let mut r: Vec<&Scrobble> = Vec::new();
        let mut i: usize = 0;
        assert(derefs(r@) =~= Seq::<Scrobble>::empty());
        assert(s@.subrange(0, 0) =~= Seq::<Scrobble>::empty());
        while i < s.len()
            invariant
                i <= s@.len(),
                s == &self.data.scrobbles,
                derefs(r@) == scrobbles_on(s@.subrange(0, i as int), target@),
            decreases s@.len() - i,
        {
            let ghost prefix = s@.subrange(0, i + 1);
            assert(prefix.drop_last() =~= s@.subrange(0, i as int));
            assert(prefix.last() == s@[i as int]);
            let day = day_of_scrobble(s[i].date);
            if day == target {
                r.push(&s[i]);
            }
            assert(derefs(r@) =~= scrobbles_on(prefix, target@));
            i = i + 1;
        }
        assert(s@.subrange(0, s@.len() as int) =~= s@);
        r
    }

    /// The albums played on the day that `date_str` names, most played
    /// first, at most `limit` of them, each with its number of plays; albums
    /// played equally often come in no promised order.
    pub fn get_top_albums_for_date(&self, date_str: &str, limit: usize) -> (r: Vec<AlbumStats>)
        ensures
            is_top_tally(
                album_counts(r@),
                album_keys(scrobbles_for(self.data().scrobbles@, date_str@)),
                limit as nat,
            ),
    {
        let scrobbles = self.get_scrobbles_for_date(date_str);
        let mut keys: Vec<(String, String)> = Vec::new();
        let mut i: usize = 0;
        while i < scrobbles.len()
            invariant
                i <= scrobbles@.len(),
                keys_view(keys@) =~= album_keys(derefs(scrobbles@.subrange(0, i as int))),
            decreases scrobbles@.len() - i,
        {
            let ghost old_keys = keys@;
            keys.push((scrobbles[i].album.clone(), scrobbles[i].artist.clone()));
            let ghost x = (scrobbles@[i as int].album@, scrobbles@[i as int].artist@);
            assert(keys_view(keys@) =~= keys_view(old_keys).push(x));
            assert(derefs(scrobbles@.subrange(0, i + 1)) =~= derefs(scrobbles@.subrange(0, i as int)).push(*scrobbles@[i as int]));
            assert(album_keys(derefs(scrobbles@.subrange(0, i + 1))) =~= album_keys(derefs(scrobbles@.subrange(0, i as int))).push(x));
            i = i + 1;
        }
        assert(scrobbles@.subrange(0, scrobbles@.len() as int) =~= scrobbles@);
        top_counts(&keys, limit)
    }

    /// The tracks played on the day that `date_str` names, most played
    /// first, at most `limit` of them, each with its number of plays; tracks
    /// played equally often come in no promised order.
    pub fn get_top_tracks_for_date(&self, date_str: &str, limit: usize) -> (r: Vec<TrackStats>)
        ensures
            is_top_tally(
                track_counts(r@),
                track_keys(scrobbles_for(self.data().scrobbles@, date_str@)),
                limit as nat,
            ),
    {
        let scrobbles = self.get_scrobbles_for_date(date_str);
        let mut keys: Vec<(String, String)> = Vec::new();
        let mut i: usize = 0;
        while i < scrobbles.len()
            invariant
                i <= scrobbles@.len(),
                keys_view(keys@) =~= track_keys(derefs(scrobbles@.subrange(0, i as int))),
            decreases scrobbles@.len() - i,
        {
            let ghost old_keys = keys@;
            keys.push((scrobbles[i].track.clone(), scrobbles[i].artist.clone()));
            let ghost x = (scrobbles@[i as int].track@, scrobbles@[i as int].artist@);
            assert(keys_view(keys@) =~= keys_view(old_keys).push(x));
            assert(derefs(scrobbles@.subrange(0, i + 1)) =~= derefs(scrobbles@.subrange(0, i as int)).push(*scrobbles@[i as int]));
            assert(track_keys(derefs(scrobbles@.subrange(0, i + 1))) =~= track_keys(derefs(scrobbles@.subrange(0, i as int))).push(x));
            i = i + 1;
        }
        assert(scrobbles@.subrange(0, scrobbles@.len() as int) =~= scrobbles@);
        let top = top_counts(&keys, limit);
        let mut r: Vec<TrackStats> = Vec::new();
        let mut j: usize = 0;
        while j < top.len()
            invariant
                j <= top@.len(),
                track_counts(r@) =~= album_counts(top@).subrange(0, j as int),
            decreases top@.len() - j,
        {
            let ghost old_r = r@;
            r.push(TrackStats { name: top[j].name.clone(), artist: top[j].artist.clone(), play_count: top[j].play_count });
            assert(track_counts(r@) =~= track_counts(old_r).push(album_counts(top@)[j as int]));
            assert(album_counts(top@).subrange(0, j + 1) =~= album_counts(top@).subrange(0, j as int).push(album_counts(top@)[j as int]));
            j = j + 1;
        }
        assert(album_counts(top@).subrange(0, top@.len() as int) =~= album_counts(top@));
        r
    }

    /// How many scrobbles were made on the day that `date_str` names.
    pub fn get_total_scrobbles_for_date(&self, date_str: &str) -> (r: usize)
        ensures
            r == scrobbles_for(self.data().scrobbles@, date_str@).len(),
    {
        let v = self.get_scrobbles_for_date(date_str);
        assert(derefs(v@).len() == v@.len());
        v.len()
    }
}

} // verus!
