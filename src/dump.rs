//! The date under which the dump processor files each inbox file.
use crate::date::{date_text, utc_date_of};
use crate::extract::{content_date, extract_date};
use vstd::prelude::*;

verus! {

/// The text of an optional date.
pub open spec fn date_text_of(d: Option<(int, int, int)>) -> Option<Seq<char>> {
    match d {
        Some(x) => Some(date_text(x)),
        None => None,
    }
}

/// The `YYYY-MM-DD` date under which an inbox file is filed, from its
/// extension, its bytes and its modification time in seconds since the Unix
/// epoch; `None` only where that time lies outside the calendar's range.
pub fn process_file(extension: &str, contents: &Vec<u8>, modified_secs: i64) -> (r: Option<String>)
    ensures
        match r {
            Some(s) => date_text_of(content_date(extension@, contents@, modified_secs as int)) == Some(s@),
            None => content_date(extension@, contents@, modified_secs as int) is None,
        },
        utc_date_of(modified_secs as int) is Some ==> r is Some,
{
    match extract_date(extension, contents, modified_secs) {
        Some(d) => Some(d.to_text()),
        None => None,
    }
}

} // verus!
