//! Calendar dates and their `YYYY-MM-DD` text.
use chrono::Datelike;
use vstd::prelude::*;

verus! {

/// A calendar date as year, month and day; the numbers are whatever the
/// source recorded, so a month is not checked to lie in 1..=12.
#[derive(Clone, Copy, Debug, PartialEq, Eq, Structural)]
pub struct DateParts {
    pub year: i32,
    pub month: u32,
    pub day: u32,
}

impl View for DateParts {
    type V = (int, int, int);

    open spec fn view(&self) -> (int, int, int) {
        (self.year as int, self.month as int, self.day as int)
    }
}

pub open spec fn digit_char(d: nat) -> char {
    if d == 0 { '0' }
    else if d == 1 { '1' }
    else if d == 2 { '2' }
    else if d == 3 { '3' }
    else if d == 4 { '4' }
    else if d == 5 { '5' }
    else if d == 6 { '6' }
    else if d == 7 { '7' }
    else if d == 8 { '8' }
    else { '9' }
}

/// The decimal digits of `n`, without leading zeros.
pub open spec fn decimal(n: nat) -> Seq<char>
    decreases n,
{
    if n < 10 {
        seq![digit_char(n)]
    } else {
        decimal(n / 10).push(digit_char(n % 10))
    }
}

/// The decimal digits of `n`, with zeros in front up to `width` characters.
pub open spec fn zero_padded(n: nat, width: nat) -> Seq<char> {
    let d = decimal(n);
    if d.len() >= width {
        d
    } else {
        Seq::new((width - d.len()) as nat, |i: int| '0') + d
    }
}

/// A year padded to four characters, the sign counted among them, as Rust's
/// `{:04}` writes it. Dates from every source are written this way, so a
/// year beyond 9999 has no leading `+` and a negative one has three digits
/// after its sign.
pub open spec fn year_text(y: int) -> Seq<char> {
    if y >= 0 {
        zero_padded(y as nat, 4)
    } else {
        seq!['-'] + zero_padded((-y) as nat, 3)
    }
}

/// The `YYYY-MM-DD` text of a date.
pub open spec fn date_text(d: (int, int, int)) -> Seq<char> {
    year_text(d.0) + seq!['-'] + zero_padded(d.1 as nat, 2) + seq!['-'] + zero_padded(
        d.2 as nat,
        2,
    )
}

pub open spec fn is_digit(c: char) -> bool {
    '0' <= c && c <= '9'
}

proof fn lemma_decimal_digits(n: nat)
    ensures
        decimal(n).len() >= 1,
        forall|i: int| 0 <= i < decimal(n).len() ==> is_digit(#[trigger] decimal(n)[i]),
        n < 10 ==> decimal(n).len() == 1,
        n < 100 ==> decimal(n).len() <= 2,
        n < 1000 ==> decimal(n).len() <= 3,
        n < 10000 ==> decimal(n).len() <= 4,
    decreases n,
{
    if n >= 10 {
        lemma_decimal_digits(n / 10);
        assert(n < 100 ==> n / 10 < 10);
        assert(n < 1000 ==> n / 10 < 100);
        assert(n < 10000 ==> n / 10 < 1000);
        let d = decimal(n / 10);
        assert(decimal(n) == d.push(digit_char(n % 10)));
        assert forall|i: int| 0 <= i < decimal(n).len() implies is_digit(#[trigger] decimal(n)[i]) by {
            if i < d.len() {
                assert(decimal(n)[i] == d[i]);
            }
        }
    }
}

proof fn lemma_zero_padded_digits(n: nat, width: nat)
    requires
        decimal(n).len() <= width,
    ensures
        zero_padded(n, width).len() == width,
        forall|i: int| 0 <= i < width ==> is_digit(#[trigger] zero_padded(n, width)[i]),
{
    lemma_decimal_digits(n);
    let d = decimal(n);
    let z = Seq::new((width - d.len()) as nat, |i: int| '0');
    if d.len() < width {
        assert(zero_padded(n, width) == z + d);
        assert forall|i: int| 0 <= i < width implies is_digit(#[trigger] zero_padded(n, width)[i]) by {
            if i >= z.len() {
                assert(zero_padded(n, width)[i] == d[i - z.len()]);
            }
        }
    }
}

/// A date whose year has at most four digits and whose month and day at most
/// two is written as `YYYY-MM-DD`: ten characters, dashes at positions four
/// and seven, digits elsewhere.
pub proof fn lemma_date_text_shape(d: (int, int, int))
    requires
        0 <= d.0 <= 9999,
        0 <= d.1 <= 99,
        0 <= d.2 <= 99,
    ensures
        date_text(d).len() == 10,
        date_text(d)[4] == '-',
        date_text(d)[7] == '-',
        forall|i: int| 0 <= i < 10 && i != 4 && i != 7 ==> is_digit(#[trigger] date_text(d)[i]),
{
    lemma_decimal_digits(d.0 as nat);
    lemma_decimal_digits(d.1 as nat);
    lemma_decimal_digits(d.2 as nat);
    lemma_zero_padded_digits(d.0 as nat, 4);
    lemma_zero_padded_digits(d.1 as nat, 2);
    lemma_zero_padded_digits(d.2 as nat, 2);
    let y = zero_padded(d.0 as nat, 4);
    let m = zero_padded(d.1 as nat, 2);
    let x = zero_padded(d.2 as nat, 2);
    let t = date_text(d);
    assert(t == y + seq!['-'] + m + seq!['-'] + x);
    assert forall|i: int| 0 <= i < 10 && i != 4 && i != 7 implies is_digit(#[trigger] date_text(d)[i]) by {
        if i < 4 {
            assert(t[i] == y[i]);
        } else if i < 7 {
            assert(t[i] == m[i - 5]);
        } else {
            assert(t[i] == x[i - 8]);
        }
    }
}

fn digit_str(d: u32) -> (r: &'static str)
    requires
        d < 10,
    ensures
        r@ == seq![digit_char(d as nat)],
{
    proof {
        reveal_strlit("0");
        reveal_strlit("1");
        reveal_strlit("2");
        reveal_strlit("3");
        reveal_strlit("4");
        reveal_strlit("5");
        reveal_strlit("6");
        reveal_strlit("7");
        reveal_strlit("8");
        reveal_strlit("9");
    }
    let r = if d == 0 { "0" }
    else if d == 1 { "1" }
    else if d == 2 { "2" }
    else if d == 3 { "3" }
    else if d == 4 { "4" }
    else if d == 5 { "5" }
    else if d == 6 { "6" }
    else if d == 7 { "7" }
    else if d == 8 { "8" }
    else { "9" };
    assert(r@ =~= seq![digit_char(d as nat)]);
    r
}

fn decimal_string(n: u32) -> (r: String)
    ensures
        r@ == decimal(n as nat),
    decreases n,
{
    if n < 10 {
        String::from_str(digit_str(n))
    } else {
        let mut s = decimal_string(n / 10);
        s.append(digit_str(n % 10));
        s
    }
}

fn padded_string(n: u32, width: usize) -> (r: String)
    ensures
        r@ == zero_padded(n as nat, width as nat),
{
    let digits = decimal_string(n);
    let len = digits.as_str().unicode_len();
    if len >= width {
        return digits;
    }
    proof {
        reveal_strlit("0");
    }
    assert("0"@ =~= seq!['0']);
    let mut zeros = String::new();
    let mut i: usize = 0;
    while i < width - len
        invariant
            len < width,
            i <= width - len,
            "0"@ =~= seq!['0'],
            zeros@ =~= Seq::new(i as nat, |k: int| '0'),
        decreases width - len - i,
    {
        zeros.append("0");
        i = i + 1;
    }
    let r = zeros.concat(digits.as_str());
    assert(r@ =~= zero_padded(n as nat, width as nat));
    r
}

impl DateParts {
    /// The date as `YYYY-MM-DD`: the year padded to four characters, sign
    /// included, month and day to two digits.
    pub fn to_text(&self) -> (r: String)
        ensures
            r@ == date_text(self@),
    {
        proof {
            reveal_strlit("-");
        }
        let mut s = if self.year >= 0 {
            padded_string(self.year as u32, 4)
        } else {
            let minus = String::from_str("-");
            let magnitude: u32 = (-(self.year as i64)) as u32;
            minus.concat(padded_string(magnitude, 3).as_str())
        };
        s.append("-");
        s.append(padded_string(self.month, 2).as_str());
        s.append("-");
        s.append(padded_string(self.day, 2).as_str());
        assert(s@ =~= date_text(self@));
        s
    }
}

/// The view of an optional date.
pub open spec fn date_view(d: Option<DateParts>) -> Option<(int, int, int)> {
    match d {
        Some(x) => Some(x@),
        None => None,
    }
}

/// The date that chrono reads from an EXIF timestamp `YYYY:MM:DD HH:MM:SS`,
/// or `None` where the text does not parse.
pub uninterp spec fn exif_timestamp_date(text: Seq<char>) -> Option<(int, int, int)>;

/// The date that chrono reads from a `YYYY-MM-DD` text, or `None` where the
/// text does not parse.
pub uninterp spec fn iso_date(text: Seq<char>) -> Option<(int, int, int)>;

/// The UTC calendar date of the instant `secs` seconds after the Unix epoch,
/// or `None` where it lies outside chrono's range.
pub uninterp spec fn utc_date_of(secs: int) -> Option<(int, int, int)>;

/// Relies on chrono's `NaiveDateTime::parse_from_str` with the format
/// `%Y:%m:%d %H:%M:%S`, of which the date part is kept.
#[verifier::external_body]
pub(crate) fn parse_exif_timestamp(text: &str) -> (r: Option<DateParts>)
    ensures
        date_view(r) == exif_timestamp_date(text@),
{
    match chrono::NaiveDateTime::parse_from_str(text, "%Y:%m:%d %H:%M:%S") {
        Ok(t) => Some(DateParts { year: t.year(), month: t.month(), day: t.day() }),
        Err(_) => None,
    }
}

/// Relies on chrono's `NaiveDate::parse_from_str` with the format `%Y-%m-%d`.
#[verifier::external_body]
pub(crate) fn parse_iso_date(text: &str) -> (r: Option<DateParts>)
    ensures
        date_view(r) == iso_date(text@),
{
    match chrono::NaiveDate::parse_from_str(text, "%Y-%m-%d") {
        Ok(d) => Some(DateParts { year: d.year(), month: d.month(), day: d.day() }),
        Err(_) => None,
    }
}

/// Relies on chrono's `DateTime::<Utc>::from_timestamp`, of which the date
/// part is kept.
#[verifier::external_body]
pub(crate) fn utc_date_of_timestamp(secs: i64) -> (r: Option<DateParts>)
    ensures
        date_view(r) == utc_date_of(secs as int),
{
    match chrono::DateTime::<chrono::Utc>::from_timestamp(secs, 0) {
        Some(t) => Some(DateParts { year: t.year(), month: t.month(), day: t.day() }),
        None => None,
    }
}

} // verus!
