//! Classification of files by extension.
use vstd::prelude::*;

verus! {

/// What kind of media a file holds; decides how its date is found and
/// where it is filed.
#[derive(Clone, Copy, Debug, PartialEq, Eq, Structural)]
pub enum FileCategory {
    Photo,
    Audio,
    Unclassified,
}

/// The code of `c` after ASCII upper-case letters are mapped to lower case.
pub open spec fn folded(c: char) -> u32 {
    if 'A' <= c && c <= 'Z' {
        (c as u32 + 32) as u32
    } else {
        c as u32
    }
}

/// `s` and `t` are equal up to the case of ASCII letters.
pub open spec fn same_ignoring_case(s: Seq<char>, t: Seq<char>) -> bool {
    &&& s.len() == t.len()
    &&& forall|i: int| 0 <= i < s.len() ==> #[trigger] folded(s[i]) == folded(t[i])
}

pub open spec fn is_photo_extension(ext: Seq<char>) -> bool {
    ||| same_ignoring_case(ext, seq!['j', 'p', 'g'])
    ||| same_ignoring_case(ext, seq!['j', 'p', 'e', 'g'])
    ||| same_ignoring_case(ext, seq!['p', 'n', 'g'])
    ||| same_ignoring_case(ext, seq!['t', 'i', 'f', 'f'])
    ||| same_ignoring_case(ext, seq!['t', 'i', 'f'])
}

pub open spec fn is_audio_extension(ext: Seq<char>) -> bool {
    ||| same_ignoring_case(ext, seq!['m', 'p', '3'])
    ||| same_ignoring_case(ext, seq!['m', '4', 'a'])
    ||| same_ignoring_case(ext, seq!['f', 'l', 'a', 'c'])
    ||| same_ignoring_case(ext, seq!['w', 'a', 'v'])
}

/// The category of a file with extension `ext` (empty when it has none).
pub open spec fn category_of(ext: Seq<char>) -> FileCategory {
    if is_photo_extension(ext) {
        FileCategory::Photo
    } else if is_audio_extension(ext) {
        FileCategory::Audio
    } else {
        FileCategory::Unclassified
    }
}

/// The name of the archive subfolder that holds files of category `c`.
pub open spec fn subfolder_of(c: FileCategory) -> Option<Seq<char>> {
    match c {
        FileCategory::Photo => Some(seq!['p', 'i', 'c', 's']),
        FileCategory::Audio => Some(seq!['a', 'u', 'd', 'i', 'o']),
        FileCategory::Unclassified => None,
    }
}

proof fn lemma_same_ignoring_case_transitive(a: Seq<char>, b: Seq<char>, c: Seq<char>)
    requires
        same_ignoring_case(a, b),
        same_ignoring_case(b, c),
    ensures
        same_ignoring_case(a, c),
{
    assert forall|i: int| 0 <= i < a.len() implies #[trigger] folded(a[i]) == folded(c[i]) by {
        assert(folded(a[i]) == folded(b[i]));
        assert(folded(b[i]) == folded(c[i]));
    }
}

proof fn lemma_same_ignoring_case_symmetric(a: Seq<char>, b: Seq<char>)
    requires
        same_ignoring_case(a, b),
    ensures
        same_ignoring_case(b, a),
{
    assert forall|i: int| 0 <= i < b.len() implies #[trigger] folded(b[i]) == folded(a[i]) by {
        assert(folded(a[i]) == folded(b[i]));
    }
}

/// Classification does not depend on the case of the extension's letters:
/// two extensions that differ only in ASCII case fall in one category.
pub proof fn lemma_classify_ignores_case(a: Seq<char>, b: Seq<char>)
    requires
        same_ignoring_case(a, b),
    ensures
        category_of(a) == category_of(b),
{
    lemma_same_ignoring_case_symmetric(a, b);
    let exts = seq![
        seq!['j', 'p', 'g'],
        seq!['j', 'p', 'e', 'g'],
        seq!['p', 'n', 'g'],
        seq!['t', 'i', 'f', 'f'],
        seq!['t', 'i', 'f'],
        seq!['m', 'p', '3'],
        seq!['m', '4', 'a'],
        seq!['f', 'l', 'a', 'c'],
        seq!['w', 'a', 'v'],
    ];
    assert forall|k: int| 0 <= k < exts.len() implies
        same_ignoring_case(a, #[trigger] exts[k]) == same_ignoring_case(b, exts[k]) by {
        if same_ignoring_case(a, exts[k]) {
            lemma_same_ignoring_case_transitive(b, a, exts[k]);
        }
        if same_ignoring_case(b, exts[k]) {
            lemma_same_ignoring_case_transitive(a, b, exts[k]);
        }
    }
}

/// Whether `s` equals the lower-case `word` up to the case of ASCII letters.
pub fn equals_ignoring_case(s: &str, word: &str) -> (r: bool)
    ensures
        r == same_ignoring_case(s@, word@),
{
    let n = s.unicode_len();
    if n != word.unicode_len() {
        return false;
    }
    let mut i: usize = 0;
    while i < n
        invariant
            n == s@.len(),
            n == word@.len(),
            i <= n,
            forall|j: int| 0 <= j < i ==> #[trigger] folded(s@[j]) == folded(word@[j]),
        decreases n - i,
    {
        let a = s.get_char(i);
        let b = word.get_char(i);
        let fa: u32 = if 'A' <= a && a <= 'Z' { a as u32 + 32 } else { a as u32 };
        let fb: u32 = if 'A' <= b && b <= 'Z' { b as u32 + 32 } else { b as u32 };
        if fa != fb {
            assert(folded(s@[i as int]) != folded(word@[i as int]));
            return false;
        }
        i = i + 1;
    }
    true
}

/// Classifies a file by its extension (empty when the file has none),
/// ignoring the case of its letters.
pub fn classify(extension: &str) -> (r: FileCategory)
    ensures
        r == category_of(extension@),
{
    proof {
        reveal_strlit("jpg");
        reveal_strlit("jpeg");
        reveal_strlit("png");
        reveal_strlit("tiff");
        reveal_strlit("tif");
        reveal_strlit("mp3");
        reveal_strlit("m4a");
        reveal_strlit("flac");
        reveal_strlit("wav");
    }
    assert("jpg"@ =~= seq!['j', 'p', 'g']);
    assert("jpeg"@ =~= seq!['j', 'p', 'e', 'g']);
    assert("png"@ =~= seq!['p', 'n', 'g']);
    assert("tiff"@ =~= seq!['t', 'i', 'f', 'f']);
    assert("tif"@ =~= seq!['t', 'i', 'f']);
    assert("mp3"@ =~= seq!['m', 'p', '3']);
    assert("m4a"@ =~= seq!['m', '4', 'a']);
    assert("flac"@ =~= seq!['f', 'l', 'a', 'c']);
    assert("wav"@ =~= seq!['w', 'a', 'v']);
    if equals_ignoring_case(extension, "jpg") || equals_ignoring_case(extension, "jpeg")
        || equals_ignoring_case(extension, "png") || equals_ignoring_case(extension, "tiff")
        || equals_ignoring_case(extension, "tif") {
        FileCategory::Photo
    } else if equals_ignoring_case(extension, "mp3") || equals_ignoring_case(extension, "m4a")
        || equals_ignoring_case(extension, "flac") || equals_ignoring_case(extension, "wav") {
        FileCategory::Audio
    } else {
        FileCategory::Unclassified
    }
}

} // verus!
