//! What can go wrong while the tables are read and added up.

use vstd::prelude::*;

verus! {

/// `csv::Error`, the error of the CSV reader: carried along as it is, nothing
/// is said of what it holds.
#[verifier::external_type_specification]
#[verifier::external_body]
pub struct ExCsvError(csv::Error);

/// `regex::Error`, the error of the regex compiler: carried along as it is,
/// nothing is said of what it holds.
#[verifier::external_type_specification]
#[verifier::external_body]
pub struct ExRegexError(regex::Error);

/// The kinds of failure.
#[derive(Clone, Copy, Debug, PartialEq, Eq, Structural)]
pub enum ErrorKind {
    Csv,
    Pattern,
    Header,
    MissingField,
    BadCount,
    SeriesLength,
    Overflow,
}

/// Why a table could not be read or added up.
#[derive(Debug)]
pub enum DataError {
    /// The CSV reader refused the text.
    Csv(csv::Error),
    /// The date pattern was refused by the regex compiler.
    Pattern(regex::Error),
    /// The header row is not laid out as a table's: four leading columns
    /// that are no date labels, then date labels and nothing else.
    Header,
    /// A row has no field at a column that is read: the country column, or a
    /// date column below the header count.
    MissingField,
    /// A date field does not hold a count that fits `u32`.
    BadCount,
    /// A series of a country holds values, but not one for each date.
    SeriesLength,
    /// A sum does not fit `u32`.
    Overflow,
}

impl DataError {
    /// The kind of the failure, without what the outside parser reported.
    pub open spec fn spec_kind(&self) -> ErrorKind {
        match self {
            DataError::Csv(_) => ErrorKind::Csv,
            DataError::Pattern(_) => ErrorKind::Pattern,
            DataError::Header => ErrorKind::Header,
            DataError::MissingField => ErrorKind::MissingField,
            DataError::BadCount => ErrorKind::BadCount,
            DataError::SeriesLength => ErrorKind::SeriesLength,
            DataError::Overflow => ErrorKind::Overflow,
        }
    }

    /// The kind of the failure, without what the outside parser reported.
    #[verifier::when_used_as_spec(spec_kind)]
    pub fn kind(&self) -> (k: ErrorKind)
        ensures
            k == self.spec_kind(),
    {
        match self {
            DataError::Csv(_) => ErrorKind::Csv,
            DataError::Pattern(_) => ErrorKind::Pattern,
            DataError::Header => ErrorKind::Header,
            DataError::MissingField => ErrorKind::MissingField,
            DataError::BadCount => ErrorKind::BadCount,
            DataError::SeriesLength => ErrorKind::SeriesLength,
            DataError::Overflow => ErrorKind::Overflow,
        }
    }
}

} // verus!
