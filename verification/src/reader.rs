//! The outside parsers: CSV text to rows, and the date pattern on header fields.

use vstd::prelude::*;
use crate::text::{tables, texts};

verus! {

/// The first row that the CSV reader makes of a text, or `None` where it
/// reports an error instead.
pub uninterp spec fn csv_headers(content: Seq<char>) -> Option<Seq<Seq<char>>>;

/// The rows after the first that the CSV reader yields for a text up to its
/// first error, and whether it stopped at an error rather than at the end.
pub uninterp spec fn csv_records(content: Seq<char>) -> (Seq<Seq<Seq<char>>>, bool);

/// Whether the regex compiler accepts the pattern.
pub uninterp spec fn regex_compiles(pattern: Seq<char>) -> bool;

/// Whether the compiled pattern finds a match in the text.
pub uninterp spec fn regex_is_match(pattern: Seq<char>, text: Seq<char>) -> bool;

/// `csv::Reader::from_reader` on the bytes of `content`, then
/// `csv::Reader::headers`: the fields of the first row, or the reader's error.
/// The contract only names the outcome: it is a function of the text.
#[verifier::external_body]
pub(crate) fn read_headers(content: &str) -> (r: Result<Vec<String>, csv::Error>)
    ensures
        match r {
            Ok(fields) => csv_headers(content@) == Some(texts(fields@)),
            Err(_) => csv_headers(content@) is None,
        },
{
    let mut reader = csv::Reader::from_reader(content.as_bytes());
    match reader.headers() {
        Ok(record) => Ok(record.iter().map(String::from).collect()),
        Err(e) => Err(e),
    }
}

/// `csv::Reader::from_reader` on the bytes of `content`, then the iterator of
/// `csv::Reader::records` up to its first error: the rows it yielded, and the
/// error if it stopped at one. The contract only names the outcome: it is a
/// function of the text.
#[verifier::external_body]
pub(crate) fn read_records(content: &str) -> (r: (Vec<Vec<String>>, Option<csv::Error>))
    ensures
        tables(r.0@) == csv_records(content@).0,
        r.1.is_some() == csv_records(content@).1,
{
    let mut reader = csv::Reader::from_reader(content.as_bytes());
    let mut rows = Vec::new();
    for result in reader.records() {
        match result {
            Ok(record) => rows.push(record.iter().map(String::from).collect()),
            Err(e) => return (rows, Some(e)),
        }
    }
    (rows, None)
}

/// `regex::Regex::new` on `pattern`, then `regex::Regex::is_match` on each of
/// `fields`: one flag per field, or the compiler's error. The contract only
/// names the outcomes: whether a pattern compiles is a function of the
/// pattern, whether it matches a function of pattern and text.
#[verifier::external_body]
pub(crate) fn match_fields(pattern: &str, fields: &Vec<String>) -> (r: Result<
    Vec<bool>,
    regex::Error,
>)
    ensures
        match r {
            Ok(flags) => regex_compiles(pattern@) && flags@.len() == fields@.len() && forall|
                i: int,
            |
                0 <= i < fields@.len() ==> flags@[i] == regex_is_match(
                    pattern@,
                    #[trigger] fields@[i]@,
                ),
            Err(_) => !regex_compiles(pattern@),
        },
{
    match regex::Regex::new(pattern) {
        Ok(re) => Ok(fields.iter().map(|field| re.is_match(field)).collect()),
        Err(e) => Err(e),
    }
}

} // verus!
