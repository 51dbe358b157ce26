//! The archive read back as a sequence of dated entries.
use crate::placement::{entry_folder_path, entry_note_name, join_path, path_join};
use vstd::multiset::Multiset;
use vstd::prelude::*;

verus! {

/// The path `path` written relative to `base`, as pathdiff computes it.
pub uninterp spec fn relative_path(path: Seq<char>, base: Seq<char>) -> Option<Seq<char>>;

pub open spec fn text_option(o: Option<String>) -> Option<Seq<char>> {
    match o {
        Some(s) => Some(s@),
        None => None,
    }
}

/// Relies on pathdiff's `diff_paths`: `path` relative to `base`.
#[verifier::external_body]
fn relative_to(path: &str, base: &str) -> (r: Option<String>)
    ensures
        text_option(r) == relative_path(path@, base@),
{
    match pathdiff::diff_paths(path, base) {
        Some(p) => match p.to_str() {
            Some(t) => Some(t.to_string()),
            None => None,
        },
        None => None,
    }
}

/// Relies on rand's `Rng::gen_range` over the thread's generator: an index
/// below `len`.
#[verifier::external_body]
fn random_index(len: usize) -> (r: usize)
    requires
        len > 0,
    ensures
        r < len,
{
    rand::Rng::gen_range(&mut rand::thread_rng(), 0..len)
}

pub open spec fn texts(v: Seq<String>) -> Seq<Seq<char>> {
    v.map_values(|s: String| s@)
}

/// The paths, relative to `root`, of the files named `names` in `folder`;
/// a file whose relative path cannot be written is left out.
pub open spec fn listed_paths(root: Seq<char>, folder: Seq<char>, names: Seq<Seq<char>>) -> Seq<Seq<char>>
    decreases names.len(),
{
    if names.len() == 0 {
        seq![]
    } else {
        let rest = listed_paths(root, folder, names.drop_last());
        match relative_path(path_join(folder, names.last()), root) {
            Some(p) => rest.push(p),
            None => rest,
        }
    }
}

/// `s` with every occurrence of `.md` removed, scanning from the left.
pub open spec fn without_md(s: Seq<char>) -> Seq<char>
    decreases s.len(),
{
    if s.len() < 3 {
        s
    } else if s[0] == '.' && s[1] == 'm' && s[2] == 'd' {
        without_md(s.skip(3))
    } else {
        seq![s[0]] + without_md(s.drop_first())
    }
}

/// One day of the archive: its note and the files in its subfolders.
#[derive(Clone, Debug, PartialEq)]
pub struct Entry {
    text_path: String,
    name: String,
    pics: Vec<String>,
    audio: Vec<String>,
}

pub struct EntryView {
    pub text_path: Seq<char>,
    pub name: Seq<char>,
    pub pics: Seq<Seq<char>>,
    pub audio: Seq<Seq<char>>,
}

impl View for Entry {
    type V = EntryView;

    closed spec fn view(&self) -> EntryView {
        EntryView {
            text_path: self.text_path@,
            name: self.name@,
            pics: texts(self.pics@),
            audio: texts(self.audio@),
        }
    }
}

/// The date of an entry: the name of its folder, without `.md`.
pub open spec fn entry_date(e: EntryView) -> Seq<char> {
    without_md(e.name)
}

fn paths_in_folder(root: &str, folder: &str, names: &Vec<String>) -> (r: Vec<String>)
    ensures
        texts(r@) == listed_paths(root@, folder@, texts(names@)),
{
    let mut r: Vec<String> = Vec::new();
    let mut i: usize = 0;
    while i < names.len()
        invariant
            i <= names@.len(),
            texts(r@) == listed_paths(root@, folder@, texts(names@.subrange(0, i as int))),
        decreases names@.len() - i,
    {
        let ghost before = texts(names@.subrange(0, i as int));
        let ghost after = texts(names@.subrange(0, i + 1));
        assert(after.drop_last() =~= before);
        assert(after.last() == names@[i as int]@);
        let path = join_path(folder, names[i].as_str());
        match relative_to(path.as_str(), root) {
            Some(p) => {
                r.push(p);
                assert(texts(r@) =~= listed_paths(root@, folder@, after));
            },
            None => {},
        }
        i = i + 1;
    }
    assert(names@.subrange(0, names@.len() as int) =~= names@);
    r
}

fn remove_md(s: &str) -> (r: String)
    ensures
        r@ == without_md(s@),
{
    let n = s.unicode_len();
    let mut r = String::new();
    let mut i: usize = 0;
    assert(s@.skip(0) =~= s@);
    assert(r@ + without_md(s@) =~= without_md(s@));
    while i < n
        invariant
            n == s@.len(),
            i <= n,
            without_md(s@) == r@ + without_md(s@.skip(i as int)),
        decreases n - i,
    {
        let ghost rest = s@.skip(i as int);
        if n - i >= 3 && s.get_char(i) == '.' && s.get_char(i + 1) == 'm' && s.get_char(i + 2) == 'd' {
            assert(rest.skip(3) =~= s@.skip(i + 3));
            i = i + 3;
        } else {
            if n - i < 3 {
                assert(rest.len() < 3);
                let tail = s.substring_char(i, n);
                assert(tail@ =~= rest);
                r.append(tail);
                assert(s@.skip(n as int) =~= Seq::<char>::empty());
                assert(r@ =~= r@ + without_md(s@.skip(n as int)));
                i = n;
            } else {
                let c = s.substring_char(i, i + 1);
                assert(c@ =~= seq![rest[0]]);
                assert(rest.drop_first() =~= s@.skip(i + 1));
                r.append(c);
                i = i + 1;
            }
        }
    }
    assert(s@.skip(n as int) =~= Seq::<char>::empty());
    assert(r@ + without_md(s@.skip(n as int)) =~= r@);
    r
}

fn same_texts(a: &Vec<String>, b: &Vec<String>) -> (r: bool)
    ensures
        r == (texts(a@) == texts(b@)),
{
    if a.len() != b.len() {
        assert(texts(a@).len() != texts(b@).len());
        return false;
    }
    let mut i: usize = 0;
    while i < a.len()
        invariant
            a@.len() == b@.len(),
            i <= a@.len(),
            forall|j: int| 0 <= j < i ==> a@[j]@ == b@[j]@,
        decreases a@.len() - i,
    {
        if a[i] != b[i] {
            assert(texts(a@)[i as int] != texts(b@)[i as int]);
            return false;
        }
        i = i + 1;
    }
    assert(texts(a@) =~= texts(b@));
    true
}

impl Entry {
    /// The entry kept in the folder `name` of the archive at `root`, whose
    /// `pics` and `audio` subfolders list the files `pic_names` and
    /// `audio_names`; their paths are kept relative to `root`.
    pub fn read(root: &str, name: &str, pic_names: &Vec<String>, audio_names: &Vec<String>) -> (r: Entry)
        ensures
            r@.text_path == path_join(entry_folder_path(root@, name@), entry_note_name()),
            r@.name == name@,
            r@.pics == listed_paths(root@, path_join(entry_folder_path(root@, name@), seq!['p', 'i', 'c', 's']), texts(pic_names@)),
            r@.audio == listed_paths(root@, path_join(entry_folder_path(root@, name@), seq!['a', 'u', 'd', 'i', 'o']), texts(audio_names@)),
    {
        proof {
            reveal_strlit("entry.md");
            reveal_strlit("pics");
            reveal_strlit("audio");
        }
        assert("entry.md"@ =~= entry_note_name());
        assert("pics"@ =~= seq!['p', 'i', 'c', 's']);
        assert("audio"@ =~= seq!['a', 'u', 'd', 'i', 'o']);
        let folder = join_path(root, name);
        let pics_folder = join_path(folder.as_str(), "pics");
        let audio_folder = join_path(folder.as_str(), "audio");
        let pics = paths_in_folder(root, pics_folder.as_str(), pic_names);
        let audio = paths_in_folder(root, audio_folder.as_str(), audio_names);
        Entry {
            text_path: join_path(folder.as_str(), "entry.md"),
            name: String::from_str(name),
            pics,
            audio,
        }
    }

    /// The path of the entry's note.
    pub fn text_path(&self) -> (r: &str)
        ensures
            r@ == self@.text_path,
    {
        self.text_path.as_str()
    }

    /// The entry's date: the name of its folder with `.md` removed.
    pub fn date_str(&self) -> (r: String)
        ensures
            r@ == entry_date(self@),
    {
        remove_md(self.name.as_str())
    }

    /// The entry's pictures, relative to the archive's root.
    pub fn pics(&self) -> (r: &[String])
        ensures
            texts(r@) == self@.pics,
    {
        self.pics.as_slice()
    }

    /// The entry's audio files, relative to the archive's root.
    pub fn audio(&self) -> (r: &[String])
        ensures
            texts(r@) == self@.audio,
    {
        self.audio.as_slice()
    }

    /// Whether two entries hold the same paths.
    pub fn same_as(&self, other: &Entry) -> (r: bool)
        ensures
            r == (self@ == other@),
    {
        self.text_path == other.text_path && self.name == other.name && same_texts(&self.pics, &other.pics)
            && same_texts(&self.audio, &other.audio)
    }
}

/// `a` comes strictly before `b` in the order of their characters' codes.
pub open spec fn text_lt(a: Seq<char>, b: Seq<char>) -> bool
    decreases a.len(),
{
    if a.len() == 0 {
        b.len() > 0
    } else if b.len() == 0 {
        false
    } else if (a[0] as u32) != (b[0] as u32) {
        (a[0] as u32) < (b[0] as u32)
    } else {
        text_lt(a.drop_first(), b.drop_first())
    }
}

proof fn lemma_text_lt_asymmetric(a: Seq<char>, b: Seq<char>)
    requires
        text_lt(a, b),
    ensures
        !text_lt(b, a),
    decreases a.len(),
{
    if a.len() > 0 && b.len() > 0 && (a[0] as u32) == (b[0] as u32) {
        lemma_text_lt_asymmetric(a.drop_first(), b.drop_first());
    }
}

fn text_less(a: &str, b: &str) -> (r: bool)
    ensures
        r == text_lt(a@, b@),
{
    let na = a.unicode_len();
    let nb = b.unicode_len();
    let mut i: usize = 0;
    assert(a@.skip(0) =~= a@);
    assert(b@.skip(0) =~= b@);
    while i < na && i < nb
        invariant
            na == a@.len(),
            nb == b@.len(),
            i <= na,
            i <= nb,
            text_lt(a@, b@) == text_lt(a@.skip(i as int), b@.skip(i as int)),
        decreases na - i,
    {
        let ca = a.get_char(i);
        let cb = b.get_char(i);
        if (ca as u32) != (cb as u32) {
            return (ca as u32) < (cb as u32);
        }
        assert(a@.skip(i as int).drop_first() =~= a@.skip(i + 1));
        assert(b@.skip(i as int).drop_first() =~= b@.skip(i + 1));
        i = i + 1;
    }
    i < nb
}

proof fn lemma_text_lt_irreflexive(a: Seq<char>)
    ensures
        !text_lt(a, a),
    decreases a.len(),
{
    if a.len() > 0 {
        lemma_text_lt_irreflexive(a.drop_first());
    }
}

proof fn lemma_text_lt_then_not_lt(x: Seq<char>, a: Seq<char>, b: Seq<char>)
    requires
        text_lt(x, a),
        !text_lt(b, a),
    ensures
        text_lt(x, b),
    decreases x.len(),
{
    if x.len() > 0 && a.len() > 0 && b.len() > 0 && (x[0] as u32) == (a[0] as u32) && (b[0] as u32) == (a[0] as u32) {
        lemma_text_lt_then_not_lt(x.drop_first(), a.drop_first(), b.drop_first());
    }
}

/// The entries of `s` whose date is `d`, in their order.
pub open spec fn of_date(s: Seq<EntryView>, d: Seq<char>) -> Seq<EntryView>
    decreases s.len(),
{
    if s.len() == 0 {
        seq![]
    } else {
        let rest = of_date(s.drop_last(), d);
        if entry_date(s.last()) == d {
            rest.push(s.last())
        } else {
            rest
        }
    }
}

proof fn lemma_later_dates_differ(w: Seq<EntryView>, key: Seq<char>, p: int, q: int)
    requires
        ordered_by_date(w),
        0 <= p <= q < w.len(),
        text_lt(key, entry_date(w[p])),
    ensures
        text_lt(key, entry_date(w[q])),
        entry_date(w[q]) != key,
    decreases q - p,
{
    if q > p {
        lemma_later_dates_differ(w, key, p, q - 1);
        assert(!text_lt(entry_date(w[(q - 1) + 1]), entry_date(w[q - 1])));
        lemma_text_lt_then_not_lt(key, entry_date(w[q - 1]), entry_date(w[q]));
    }
    lemma_text_lt_irreflexive(key);
}

proof fn lemma_of_date_insert(s: Seq<EntryView>, p: int, x: EntryView, d: Seq<char>)
    requires
        0 <= p <= s.len(),
        forall|q: int| p <= q < s.len() ==> entry_date(#[trigger] s[q]) != entry_date(x),
    ensures
        of_date(s.insert(p, x), d) == if entry_date(x) == d { of_date(s, d).push(x) } else { of_date(s, d) },
    decreases s.len(),
{
    if s.len() == p {
        assert(s.insert(p, x) =~= s.push(x));
        assert(s.push(x).drop_last() =~= s);
    } else {
        let t = s.insert(p, x);
        assert(t.drop_last() =~= s.drop_last().insert(p, x));
        assert(t.last() == s.last());
        assert(entry_date(s[s.len() - 1]) != entry_date(x));
        lemma_of_date_insert(s.drop_last(), p, x, d);
    }
}

pub open spec fn entry_views(s: Seq<Entry>) -> Seq<EntryView> {
    s.map_values(|e: Entry| e@)
}

/// Each entry's date comes no later than the next one's.
pub open spec fn ordered_by_date(s: Seq<EntryView>) -> bool {
    forall|i: int| 0 <= i < s.len() - 1 ==> !text_lt(#[trigger] entry_date(s[i + 1]), entry_date(s[i]))
}

/// `k` is the first position in `s` of an entry of date `d`.
pub open spec fn first_of_date(s: Seq<EntryView>, d: Seq<char>, k: int) -> bool {
    &&& 0 <= k < s.len()
    &&& entry_date(s[k]) == d
    &&& forall|j: int| 0 <= j < k ==> entry_date(#[trigger] s[j]) != d
}

/// `k` is the first position in `s` of an entry equal to `e`.
pub open spec fn first_of(s: Seq<EntryView>, e: EntryView, k: int) -> bool {
    &&& 0 <= k < s.len()
    &&& s[k] == e
    &&& forall|j: int| 0 <= j < k ==> #[trigger] s[j] != e
}

/// The entries of the archive, ordered by date.
pub struct Entries {
    entries: Vec<Entry>,
}

impl View for Entries {
    type V = Seq<EntryView>;

    closed spec fn view(&self) -> Seq<EntryView> {
        entry_views(self.entries@)
    }
}

impl Entries {
    /// The archive whose entry folders were found as `found`, ordered by
    /// date; entries of one date keep the order in which they were found.
    pub fn read(found: Vec<Entry>) -> (r: Entries)
        ensures
            r@.to_multiset() == entry_views(found@).to_multiset(),
            ordered_by_date(r@),
            forall|d: Seq<char>| #[trigger] of_date(r@, d) == of_date(entry_views(found@), d),
    {
        broadcast use vstd::seq_lib::group_to_multiset_ensures, vstd::multiset::group_multiset_axioms;

        let mut found = found;
        let ghost all = entry_views(found@).to_multiset();
        let ghost orig = entry_views(found@);
        let mut sorted: Vec<Entry> = Vec::new();
        let mut keys: Vec<String> = Vec::new();
        assert(entry_views(sorted@).to_multiset() =~= Multiset::<EntryView>::empty());
        while found.len() > 0
            invariant
                keys@.len() == sorted@.len(),
                forall|i: int| 0 <= i < sorted@.len() ==> #[trigger] keys@[i]@ == entry_date(sorted@[i]@),
                ordered_by_date(entry_views(sorted@)),
                entry_views(sorted@).to_multiset().add(entry_views(found@).to_multiset()) == all,
                found@.len() <= orig.len(),
                entry_views(found@) == orig.subrange(orig.len() - found@.len(), orig.len() as int),
                forall|d: Seq<char>| #[trigger] of_date(entry_views(sorted@), d) == of_date(orig.subrange(0, orig.len() - found@.len()), d),
            decreases found@.len(),
        {
            let ghost before = found@;
            let e = found.remove(0);
            proof {
                assert(entry_views(found@) =~= entry_views(before).remove(0));
                vstd::seq_lib::to_multiset_remove(entry_views(before), 0);
                assert(entry_views(before)[0] == e@);
                assert(entry_views(before).contains(e@));
                vstd::seq_lib::to_multiset_contains(entry_views(before), e@);
                assert(entry_views(before).to_multiset().count(e@) > 0);
                assert(entry_views(found@) =~= orig.subrange(orig.len() - found@.len(), orig.len() as int));
            }
            let key = e.date_str();
            let mut p: usize = 0;
            while p < keys.len() && !text_less(key.as_str(), keys[p].as_str())
                invariant
                    p <= keys@.len(),
                    keys@.len() == sorted@.len(),
                    forall|i: int| 0 <= i < p ==> !text_lt(key@, #[trigger] keys@[i]@),
                decreases keys@.len() - p,
            {
                p = p + 1;
            }
            let ghost old_sorted = sorted@;
            let ghost old_keys = keys@;
            proof {
                if p < keys@.len() {
                    lemma_text_lt_asymmetric(key@, keys@[p as int]@);
                }
                let w = entry_views(old_sorted);
                assert forall|q: int| p <= q < w.len() implies entry_date(#[trigger] w[q]) != entry_date(e@) by {
                    assert(old_keys[p as int]@ == entry_date(old_sorted[p as int]@));
                    lemma_later_dates_differ(w, key@, p as int, q);
                }
                let taken = (orig.len() - before.len()) as int;
                assert(orig.subrange(0, taken + 1) =~= orig.subrange(0, taken).push(e@));
                assert(orig.subrange(0, taken + 1).drop_last() =~= orig.subrange(0, taken));
                assert(orig[taken] == entry_views(before)[0]);
                assert forall|d: Seq<char>| #[trigger] of_date(w.insert(p as int, e@), d) == of_date(orig.subrange(0, taken + 1), d) by {
                    lemma_of_date_insert(w, p as int, e@, d);
                    assert(of_date(w, d) == of_date(orig.subrange(0, taken), d));
                }
            }
            sorted.insert(p, e);
            keys.insert(p, key);
            proof {
                assert(entry_views(sorted@) =~= entry_views(old_sorted).insert(p as int, e@));
                assert(orig.len() - found@.len() == orig.len() - before.len() + 1);
                vstd::seq_lib::to_multiset_insert(entry_views(old_sorted), p as int, e@);
                let v = entry_views(sorted@);
                assert forall|i: int| 0 <= i < sorted@.len() implies #[trigger] keys@[i]@ == entry_date(sorted@[i]@) by {
                    if i < p {
                        assert(keys@[i] == old_keys[i]);
                        assert(sorted@[i] == old_sorted[i]);
                    } else if i > p {
                        assert(keys@[i] == old_keys[i - 1]);
                        assert(sorted@[i] == old_sorted[i - 1]);
                    }
                }
                let w = entry_views(old_sorted);
                assert forall|i: int| 0 <= i < v.len() - 1 implies !text_lt(#[trigger] entry_date(v[i + 1]), entry_date(v[i])) by {
                    if i + 1 < p {
                        assert(v[i] == w[i]);
                        assert(v[i + 1] == w[i + 1]);
                        assert(!text_lt(entry_date(w[i + 1]), entry_date(w[i])));
                    } else if i + 1 == p {
                        assert(v[i] == w[i]);
                        assert(v[i + 1] == e@);
                        assert(old_keys[i]@ == entry_date(old_sorted[i]@));
                        assert(!text_lt(key@, old_keys[i]@));
                    } else if i == p {
                        assert(v[i] == e@);
                        assert(v[i + 1] == w[i]);
                        assert(old_keys[i]@ == entry_date(old_sorted[i]@));
                        assert(text_lt(key@, old_keys[i]@));
                    } else {
                        assert(v[i] == w[i - 1]);
                        assert(v[i + 1] == w[i]);
                        let j = i - 1;
                        assert(0 <= j < w.len() - 1);
                        assert(!text_lt(entry_date(w[j + 1]), entry_date(w[j])));
                    }
                }
                let a = entry_views(old_sorted).to_multiset();
                let b = entry_views(before).to_multiset();
                assert(a.insert(e@).add(b.remove(e@)) =~= a.add(b));
                assert(entry_views(sorted@).to_multiset().add(entry_views(found@).to_multiset()) =~= all);
            }
        }
        assert(entry_views(found@).to_multiset() =~= Multiset::<EntryView>::empty());
        assert(orig.subrange(0, orig.len() as int) =~= orig);
        assert(entry_views(sorted@).to_multiset().add(Multiset::<EntryView>::empty()) =~= entry_views(sorted@).to_multiset());
        Entries { entries: sorted }
    }

    /// The number of entries.
    pub fn len(&self) -> (r: usize)
        ensures
            r == self@.len(),
    {
        self.entries.len()
    }

    /// The first entry whose date is `date`.
    pub fn get_by_date(&self, date: String) -> (r: Option<&Entry>)
        ensures
            match r {
                Some(e) => exists|k: int| first_of_date(self@, date@, k) && #[trigger] self@[k] == e@,
                None => forall|k: int| 0 <= k < self@.len() ==> entry_date(#[trigger] self@[k]) != date@,
            },
    {
        let mut i: usize = 0;
        while i < self.entries.len()
            invariant
                i <= self@.len(),
                self@.len() == self.entries@.len(),
                forall|j: int| 0 <= j < i ==> entry_date(#[trigger] self@[j]) != date@,
            decreases self@.len() - i,
        {
            assert(self@[i as int] == self.entries@[i as int]@);
            if self.entries[i].date_str() == date {
                assert(first_of_date(self@, date@, i as int));
                return Some(&self.entries[i]);
            }
            i = i + 1;
        }
        None
    }

    fn position(&self, entry: &Entry) -> (r: Option<usize>)
        ensures
            match r {
                Some(k) => first_of(self@, entry@, k as int),
                None => forall|k: int| 0 <= k < self@.len() ==> #[trigger] self@[k] != entry@,
            },
    {
        let mut i: usize = 0;
        while i < self.entries.len()
            invariant
                i <= self@.len(),
                self@.len() == self.entries@.len(),
                forall|j: int| 0 <= j < i ==> #[trigger] self@[j] != entry@,
            decreases self@.len() - i,
        {
            assert(self@[i as int] == self.entries@[i as int]@);
            if self.entries[i].same_as(entry) {
                return Some(i);
            }
            i = i + 1;
        }
        None
    }

    /// The entry before the first one equal to `entry`; `None` where that
    /// one is the first or `entry` is not in the archive.
    pub fn prev(&self, entry: &Entry) -> (r: Option<&Entry>)
        ensures
            match r {
                Some(e) => exists|k: int| first_of(self@, entry@, k) && k > 0 && e@ == #[trigger] self@[k - 1],
                None => forall|k: int| first_of(self@, entry@, k) ==> k == 0,
            },
    {
        match self.position(entry) {
            Some(k) => {
                if k == 0 {
                    None
                } else {
                    assert(self@[k - 1] == self.entries@[k - 1]@);
                    Some(&self.entries[k - 1])
                }
            },
            None => None,
        }
    }

    /// The entry after the first one equal to `entry`; `None` where that one
    /// is the last or `entry` is not in the archive.
    pub fn next(&self, entry: &Entry) -> (r: Option<&Entry>)
        ensures
            match r {
                Some(e) => exists|k: int| first_of(self@, entry@, k) && k + 1 < self@.len() && e@ == #[trigger] self@[k + 1],
                None => forall|k: int| first_of(self@, entry@, k) ==> k + 1 == self@.len(),
            },
    {
        match self.position(entry) {
            Some(k) => {
                assert(self@.len() == self.entries@.len());
                let n = self.entries.len();
                if k + 1 >= n {
                    None
                } else {
                    assert(self@[k + 1] == self.entries@[k + 1]@);
                    Some(&self.entries[k + 1])
                }
            },
            None => None,
        }
    }

    /// An entry picked at random; `None` where the archive is empty.
    pub fn random(&self) -> (r: Option<&Entry>)
        ensures
            r is None <==> self@.len() == 0,
            r matches Some(e) ==> exists|k: int| 0 <= k < self@.len() && e@ == #[trigger] self@[k],
    {
        if self.entries.len() == 0 {
            None
        } else {
            let k = random_index(self.entries.len());
            assert(self@[k as int] == self.entries@[k as int]@);
            Some(&self.entries[k])
        }
    }
}

} // verus!
