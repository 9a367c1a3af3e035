//! From the text of the tables to country records.

use vstd::prelude::*;
use crate::aggregate::{
    absorb, absorb_reading, lemma_merged_is_dated, merge_error, merged, record_or_blank, Reading,
    ReadingView,
};
use crate::countries::{
    by_name, distinct_names, has_name, lemma_found_after_put, lemma_put, position, put,
    CountryMap,
};
use crate::country::{counts, CountryView, DataType};
use crate::error::{DataError, ErrorKind};
use crate::reader::{
    csv_headers, csv_records, match_fields, read_headers, read_records, regex_compiles,
    regex_is_match,
};
use crate::summary::{
    lemma_all_dated, lemma_total_is_sum_of_others, summarise, summary_error, total_record, TOTAL,
};
use crate::text::{parse_count, parse_u32, tables, texts};

verus! {

/// The column that holds the country's name.
pub const COUNTRY_COLUMN: usize = 1;

/// The first column that holds a count; the columns before it hold the
/// province, the country and the coordinates.
pub const FIRST_DATE_COLUMN: usize = 4;

/// The pattern of a date label: month, day and two-digit year, as in `3/14/20`.
pub fn date_pattern() -> (r: &'static str)
    ensures
        r@ == date_pattern_text(),
{
    r"^\d{1,2}/\d{1,2}/\d{2}$"
}

/// The characters of the date pattern.
pub open spec fn date_pattern_text() -> Seq<char> {
    r"^\d{1,2}/\d{1,2}/\d{2}$"@
}

/// The number of date columns below a header count.
pub open spec fn date_columns(header_count: nat) -> nat {
    if header_count > FIRST_DATE_COLUMN {
        (header_count - FIRST_DATE_COLUMN) as nat
    } else {
        0
    }
}

/// What a row says when the columns below `header_count` are read: the name
/// in the country column, and the counts in the date columns. A row that
/// lacks one of these columns says nothing, nor does one with a date field
/// that holds no count.
pub open spec fn reading_of(row: Seq<Seq<char>>, header_count: nat) -> Result<
    ReadingView,
    DataError,
> {
    if row.len() <= COUNTRY_COLUMN || (header_count > FIRST_DATE_COLUMN && row.len()
        < header_count) {
        Err(DataError::MissingField)
    } else if exists|i: int|
        FIRST_DATE_COLUMN <= i < header_count && (#[trigger] parse_count(row[i])) is None {
        Err(DataError::BadCount)
    } else {
        Ok(
            ReadingView {
                country: row[COUNTRY_COLUMN as int],
                values: Seq::new(
                    date_columns(header_count),
                    |k: int| parse_count(row[k + FIRST_DATE_COLUMN])->0 as nat,
                ),
            },
        )
    }
}

/// The records after the rows have been folded in, one after the other, up to
/// the first row that cannot be read or added; and the error of that row, if
/// there is one.
pub open spec fn merge_outcome(
    s: Seq<CountryView>,
    rows: Seq<Seq<Seq<char>>>,
    header_count: nat,
    data_type: DataType,
) -> (Seq<CountryView>, Option<DataError>)
    decreases rows.len(),
{
    if rows.len() == 0 {
        (s, None)
    } else {
        match reading_of(rows[0], header_count) {
            Err(e) => (s, Some(e)),
            Ok(r) => match merge_error(record_or_blank(s, r.country), r, data_type) {
                Some(e) => (s, Some(e)),
                None => merge_outcome(
                    absorb(s, r, data_type),
                    rows.subrange(1, rows.len() as int),
                    header_count,
                    data_type,
                ),
            },
        }
    }
}

/// Whether the record under the name has, in each of its three series, one
/// value for each of `n` dates.
pub open spec fn dated_under(s: Seq<CountryView>, name: Seq<char>, n: nat) -> bool {
    has_name(s, name) && s[position(s, name)].dated(n)
}

/// Whether every country that a row names has, in each of its three series,
/// one value for each date column below the header count.
pub open spec fn named_are_dated(
    s: Seq<CountryView>,
    rows: Seq<Seq<Seq<char>>>,
    header_count: nat,
) -> bool {
    forall|i: int|
        0 <= i < rows.len() ==> dated_under(
            s,
            (#[trigger] reading_of(rows[i], header_count))->Ok_0.country,
            date_columns(header_count),
        )
}

/// Folding a reading of `n` dates in leaves a record that has one value for
/// each of `n` dates as it is in this respect.
proof fn lemma_absorb_keeps_dated(
    s: Seq<CountryView>,
    r: ReadingView,
    data_type: DataType,
    name: Seq<char>,
)
    requires
        distinct_names(s),
        merge_error(record_or_blank(s, r.country), r, data_type) is None,
        r.country == name || dated_under(s, name, r.values.len()),
    ensures
        distinct_names(absorb(s, r, data_type)),
        dated_under(absorb(s, r, data_type), name, r.values.len()),
{
    let before = record_or_blank(s, r.country);
    let c = merged(before, r, data_type);
    if has_name(s, r.country) {
        let p = position(s, r.country);
        assert(0 <= p < s.len() && s[p].country == r.country);
    }
    lemma_merged_is_dated(before, r, data_type);
    lemma_put(s, c);
    lemma_found_after_put(s, c);
    if r.country != name {
        let after = absorb(s, r, data_type);
        assert(by_name(after).dom().contains(name));
        assert(by_name(after)[name] == by_name(s)[name]);
    }
}

/// Rows that are all folded in leave a record that has one value for each
/// date column as it is in this respect.
proof fn lemma_rows_keep_dated(
    s: Seq<CountryView>,
    rows: Seq<Seq<Seq<char>>>,
    header_count: nat,
    data_type: DataType,
    name: Seq<char>,
)
    requires
        distinct_names(s),
        merge_outcome(s, rows, header_count, data_type).1 is None,
        dated_under(s, name, date_columns(header_count)),
    ensures
        dated_under(
            merge_outcome(s, rows, header_count, data_type).0,
            name,
            date_columns(header_count),
        ),
    decreases rows.len(),
{
    if rows.len() > 0 {
        let r = reading_of(rows[0], header_count)->Ok_0;
        lemma_absorb_keeps_dated(s, r, data_type, name);
        lemma_rows_keep_dated(
            absorb(s, r, data_type),
            rows.subrange(1, rows.len() as int),
            header_count,
            data_type,
            name,
        );
    }
}

/// Once the rows of a table have all been folded in, every country that a
/// row names has one value for each date column in each of its three
/// series: the three series of a country have the same dates.
pub proof fn lemma_named_are_dated(
    s: Seq<CountryView>,
    rows: Seq<Seq<Seq<char>>>,
    header_count: nat,
    data_type: DataType,
)
    requires
        distinct_names(s),
        merge_outcome(s, rows, header_count, data_type).1 is None,
    ensures
        named_are_dated(merge_outcome(s, rows, header_count, data_type).0, rows, header_count),
    decreases rows.len(),
{
    let out = merge_outcome(s, rows, header_count, data_type).0;
    if rows.len() > 0 {
        let r = reading_of(rows[0], header_count)->Ok_0;
        let rest = rows.subrange(1, rows.len() as int);
        let next = absorb(s, r, data_type);
        lemma_absorb_keeps_dated(s, r, data_type, r.country);
        lemma_rows_keep_dated(next, rest, header_count, data_type, r.country);
        lemma_named_are_dated(next, rest, header_count, data_type);
        assert forall|i: int| 0 <= i < rows.len() implies dated_under(
            out,
            (#[trigger] reading_of(rows[i], header_count))->Ok_0.country,
            date_columns(header_count),
        ) by {
            if i > 0 {
                assert(rows[i] == rest[i - 1]);
                assert(dated_under(
                    out,
                    reading_of(rest[i - 1], header_count)->Ok_0.country,
                    date_columns(header_count),
                ));
            }
        }
    }
}

/// Reads a row: the country's name and the counts of the date columns below
/// `header_count`.
pub fn parse_record(fields: &Vec<String>, header_count: usize) -> (r: Result<Reading, DataError>)
    ensures
        match r {
            Ok(reading) => reading_of(texts(fields@), header_count as nat) == Ok::<
                ReadingView,
                DataError,
            >(reading@),
            Err(e) => reading_of(texts(fields@), header_count as nat) == Err::<
                ReadingView,
                DataError,
            >(e),
        },
{
    let ghost row = texts(fields@);
    if fields.len() <= COUNTRY_COLUMN || (header_count > FIRST_DATE_COLUMN && fields.len()
        < header_count) {
        return Err(DataError::MissingField);
    }
    let mut values: Vec<u32> = Vec::new();
    let mut i: usize = FIRST_DATE_COLUMN;
    while i < header_count
        invariant
            FIRST_DATE_COLUMN <= i,
            header_count > FIRST_DATE_COLUMN ==> i <= header_count <= fields@.len(),
            header_count <= FIRST_DATE_COLUMN ==> i == FIRST_DATE_COLUMN,
            row == texts(fields@),
            values@.len() == i - FIRST_DATE_COLUMN,
            forall|j: int| FIRST_DATE_COLUMN <= j < i ==> (#[trigger] parse_count(row[j])) is Some,
            forall|k: int|
                0 <= k < values@.len() ==> parse_count(row[k + FIRST_DATE_COLUMN]) == Some(
                    #[trigger] values@[k],
                ),
        decreases header_count - i,
    {
        match parse_u32(fields[i].as_str()) {
            Some(value) => {
                values.push(value);
            },
            None => {
                assert(parse_count(row[i as int]) is None);
                return Err(DataError::BadCount);
            },
        }
        i += 1;
    }
    let country = fields[COUNTRY_COLUMN].clone();
    let reading = Reading { country, values };
    proof {
        assert(values@.len() == date_columns(header_count as nat));
        let expected = Seq::new(
            date_columns(header_count as nat),
            |k: int| parse_count(row[k + FIRST_DATE_COLUMN])->0 as nat,
        );
        assert forall|k: int| 0 <= k < values@.len() implies counts(values@)[k]
            == expected[k] by {
            assert(parse_count(row[k + FIRST_DATE_COLUMN]) == Some(values@[k]));
        }
        assert(counts(values@) =~= expected);
    }
    Ok(reading)
}

/// Folds the rows of one dataset into the records, row after row, and stops
/// at the first row that cannot be read or added: the records then hold the
/// rows before it.
pub fn merge_records(
    records: &Vec<Vec<String>>,
    countries: &mut CountryMap,
    header_count: usize,
    data_type: DataType,
) -> (r: Result<(), DataError>)
    ensures
        final(countries)@ == merge_outcome(
            old(countries)@,
            tables(records@),
            header_count as nat,
            data_type,
        ).0,
        match r {
            Ok(()) => merge_outcome(
                old(countries)@,
                tables(records@),
                header_count as nat,
                data_type,
            ).1 is None,
            Err(e) => merge_outcome(
                old(countries)@,
                tables(records@),
                header_count as nat,
                data_type,
            ).1 == Some(e),
        },
        r is Ok ==> named_are_dated(final(countries)@, tables(records@), header_count as nat),
{
    // the stored names are distinct
    let _stored: usize = countries.len();
    proof {
        if merge_outcome(countries@, tables(records@), header_count as nat, data_type).1 is None {
            lemma_named_are_dated(countries@, tables(records@), header_count as nat, data_type);
        }
    }
    let ghost rows = tables(records@);
    let n = records.len();
    let mut i: usize = 0;
    assert(rows.subrange(0, n as int) =~= rows);
    while i < n
        invariant
            i <= n,
            n == records@.len(),
            rows == tables(records@),
            merge_outcome(old(countries)@, rows, header_count as nat, data_type) == merge_outcome(
                countries@,
                rows.subrange(i as int, n as int),
                header_count as nat,
                data_type,
            ),
        decreases n - i,
    {
        let ghost rest = rows.subrange(i as int, n as int);
        assert(rest[0] == texts(records@[i as int]@));
        assert(rest.subrange(1, rest.len() as int) =~= rows.subrange(i + 1, n as int));
        let reading = match parse_record(&records[i], header_count) {
            Ok(reading) => reading,
            Err(e) => {
                return Err(e);
            },
        };
        match absorb_reading(countries, reading, data_type) {
            Ok(()) => {},
            Err(e) => {
                return Err(e);
            },
        }
        i += 1;
    }
    assert(rows.subrange(n as int, n as int).len() == 0);
    Ok(())
}

/// What comes of folding the rows of a CSV text into the records: the
/// records with all rows folded in, or the kind of the first failure, be it a
/// row that cannot be read or added or an error of the CSV reader.
pub open spec fn results_outcome(
    s: Seq<CountryView>,
    content: Seq<char>,
    header_count: nat,
    data_type: DataType,
) -> Result<Seq<CountryView>, ErrorKind> {
    let rows = csv_records(content);
    let outcome = merge_outcome(s, rows.0, header_count, data_type);
    match outcome.1 {
        Some(e) => Err(e.kind()),
        None => if rows.1 {
            Err(ErrorKind::Csv)
        } else {
            Ok(outcome.0)
        },
    }
}

/// Reads the rows of one dataset from CSV text and folds them into the
/// records. The rows are those after the header row, as the CSV reader
/// yields them. Stops at the first row that cannot be read or added, or where
/// the CSV reader reports an error: the records then hold the rows before it.
pub fn get_results(
    content: &str,
    countries_map: &mut CountryMap,
    header_count: usize,
    data_type: DataType,
) -> (r: Result<(), DataError>)
    ensures
        final(countries_map)@ == merge_outcome(
            old(countries_map)@,
            csv_records(content@).0,
            header_count as nat,
            data_type,
        ).0,
        match r {
            Ok(()) => results_outcome(
                old(countries_map)@,
                content@,
                header_count as nat,
                data_type,
            ) == Ok::<Seq<CountryView>, ErrorKind>(final(countries_map)@),
            Err(e) => results_outcome(
                old(countries_map)@,
                content@,
                header_count as nat,
                data_type,
            ) == Err::<Seq<CountryView>, ErrorKind>(e.kind()),
        },
        r is Ok ==> named_are_dated(
            final(countries_map)@,
            csv_records(content@).0,
            header_count as nat,
        ),
{
    let (records, failure) = read_records(content);
    match merge_records(&records, countries_map, header_count, data_type) {
        Ok(()) => {},
        Err(e) => {
            return Err(e);
        },
    }
    match failure {
        Some(e) => Err(DataError::Csv(e)),
        None => Ok(()),
    }
}

/// The fields whose flag is set, in their order.
pub open spec fn selected(fields: Seq<Seq<char>>, flags: Seq<bool>) -> Seq<Seq<char>>
    decreases fields.len(),
{
    if fields.len() == 0 {
        Seq::empty()
    } else if flags.last() {
        selected(fields.drop_last(), flags.drop_last()).push(fields.last())
    } else {
        selected(fields.drop_last(), flags.drop_last())
    }
}

/// Picks the fields whose flag is set.
pub fn select_fields(fields: &Vec<String>, flags: &Vec<bool>) -> (r: Vec<String>)
    requires
        flags@.len() == fields@.len(),
    ensures
        texts(r@) == selected(texts(fields@), flags@),
{
    let mut picked: Vec<String> = Vec::new();
    let n = fields.len();
    let mut i: usize = 0;
    assert(texts(fields@).take(0).len() == 0);
    while i < n
        invariant
            i <= n,
            n == fields@.len(),
            n == flags@.len(),
            texts(picked@) == selected(texts(fields@).take(i as int), flags@.take(i as int)),
        decreases n - i,
    {
        let ghost before = texts(picked@);
        proof {
            assert(texts(fields@).take(i + 1).drop_last() =~= texts(fields@).take(i as int));
            assert(flags@.take(i + 1).drop_last() =~= flags@.take(i as int));
        }
        if flags[i] {
            picked.push(fields[i].clone());
            assert(texts(picked@) =~= before.push(fields@[i as int]@));
        }
        i += 1;
    }
    assert(texts(fields@).take(n as int) =~= texts(fields@));
    assert(flags@.take(n as int) =~= flags@);
    picked
}

/// For each field, whether the date pattern matches it.
pub open spec fn date_flags(fields: Seq<Seq<char>>) -> Seq<bool> {
    Seq::new(fields.len(), |i: int| regex_is_match(date_pattern_text(), fields[i]))
}

/// Whether a header row is laid out as a table's: the fields before the
/// first date column are no date labels, and all fields from it on are.
pub open spec fn dates_follow(fields: Seq<Seq<char>>) -> bool {
    forall|i: int|
        0 <= i < fields.len() ==> (#[trigger] date_flags(fields)[i]) == (i >= FIRST_DATE_COLUMN)
}

/// The fields of a header row from the first date column on.
pub open spec fn date_labels(fields: Seq<Seq<char>>) -> Seq<Seq<char>> {
    if fields.len() >= FIRST_DATE_COLUMN {
        fields.subrange(FIRST_DATE_COLUMN as int, fields.len() as int)
    } else {
        Seq::empty()
    }
}

/// Where exactly the fields from the first date column on are flagged, the
/// flagged fields are those fields.
pub proof fn lemma_selected_dates(fields: Seq<Seq<char>>, flags: Seq<bool>)
    requires
        flags.len() == fields.len(),
        forall|i: int| 0 <= i < fields.len() ==> (#[trigger] flags[i]) == (i >= FIRST_DATE_COLUMN),
    ensures
        selected(fields, flags) == date_labels(fields),
        selected(fields, flags).len() == date_columns(fields.len()),
    decreases fields.len(),
{
    if fields.len() > 0 {
        lemma_selected_dates(fields.drop_last(), flags.drop_last());
        assert(flags.last() == flags[fields.len() - 1]);
        assert(selected(fields, flags) =~= date_labels(fields));
    }
}

fn flags_follow(flags: &Vec<bool>) -> (b: bool)
    ensures
        b == (forall|i: int|
            0 <= i < flags@.len() ==> (#[trigger] flags@[i]) == (i >= FIRST_DATE_COLUMN)),
{
    let n = flags.len();
    let mut i: usize = 0;
    while i < n
        invariant
            i <= n,
            n == flags@.len(),
            forall|j: int| 0 <= j < i ==> (#[trigger] flags@[j]) == (j >= FIRST_DATE_COLUMN),
        decreases n - i,
    {
        if flags[i] != (i >= FIRST_DATE_COLUMN) {
            return false;
        }
        i += 1;
    }
    true
}

/// Reads the header row of a table from CSV text: the date labels, and the
/// number of all its fields. The row must be laid out as a table's: four
/// leading columns, then date labels and nothing else. So there is one date
/// label for each date column below the header count.
pub fn get_header_map(content: &str) -> (r: Result<(Vec<String>, usize), DataError>)
    ensures
        match r {
            Ok((header_map, header_count)) => {
                &&& csv_headers(content@) matches Some(fields)
                &&& regex_compiles(date_pattern_text())
                &&& dates_follow(fields)
                &&& header_count == fields.len()
                &&& texts(header_map@) == selected(fields, date_flags(fields))
                &&& texts(header_map@) == date_labels(fields)
                &&& header_map@.len() == date_columns(header_count as nat)
            },
            Err(e) => header_error(content@) == Some(e.kind()),
        },
        r is Ok <==> header_error(content@) is None,
{
    let headers = match read_headers(content) {
        Ok(headers) => headers,
        Err(e) => {
            return Err(DataError::Csv(e));
        },
    };
    let flags = match match_fields(date_pattern(), &headers) {
        Ok(flags) => flags,
        Err(e) => {
            return Err(DataError::Pattern(e));
        },
    };
    assert(flags@ =~= date_flags(texts(headers@)));
    if !flags_follow(&flags) {
        return Err(DataError::Header);
    }
    proof {
        lemma_selected_dates(texts(headers@), flags@);
    }
    let header_map = select_fields(&headers, &flags);
    Ok((header_map, headers.len()))
}

/// Why the header row of a CSV text cannot be taken, if it cannot: the CSV
/// reader reports an error, the date pattern does not compile, or the row is
/// not laid out as a table's.
pub open spec fn header_error(content: Seq<char>) -> Option<ErrorKind> {
    match csv_headers(content) {
        None => Some(ErrorKind::Csv),
        Some(fields) => if !regex_compiles(date_pattern_text()) {
            Some(ErrorKind::Pattern)
        } else if !dates_follow(fields) {
            Some(ErrorKind::Header)
        } else {
            None
        },
    }
}

/// What comes of loading the three tables: the records of all countries
/// with the summary record put in, or the kind of the first failure. The
/// header row of the table of confirmed cases gives the date labels and the
/// header count for all three tables.
pub open spec fn load_outcome(confirmed: Seq<char>, deaths: Seq<char>, recovered: Seq<char>)
    -> Result<Seq<CountryView>, ErrorKind> {
    match header_error(confirmed) {
        Some(k) => Err(k),
        None => {
            let fields = csv_headers(confirmed)->0;
            match results_outcome(Seq::empty(), confirmed, fields.len(), DataType::Confirmed) {
                Err(k) => Err(k),
                Ok(s1) => match results_outcome(s1, deaths, fields.len(), DataType::Deaths) {
                    Err(k) => Err(k),
                    Ok(s2) => match results_outcome(
                        s2,
                        recovered,
                        fields.len(),
                        DataType::Recovered,
                    ) {
                        Err(k) => Err(k),
                        Ok(s3) => match summary_error(s3, date_labels(fields).len()) {
                            Some(e) => Err(e.kind()),
                            None => Ok(put(s3, total_record(s3, date_labels(fields)))),
                        },
                    },
                },
            }
        },
    }
}

/// Builds the country records from the CSV texts of the three tables
/// (confirmed cases, deaths, recoveries) and adds the summary record.
pub fn get_data(content_conf: &str, content_deaths: &str, content_recov: &str) -> (r: Result<
    CountryMap,
    DataError,
>)
    ensures
        match r {
            Ok(countries_map) => load_outcome(content_conf@, content_deaths@, content_recov@)
                == Ok::<Seq<CountryView>, ErrorKind>(countries_map@),
            Err(e) => load_outcome(content_conf@, content_deaths@, content_recov@) == Err::<
                Seq<CountryView>,
                ErrorKind,
            >(e.kind()),
        },
        r matches Ok(countries_map) ==> {
            &&& has_name(countries_map@, TOTAL@)
            &&& forall|i: int|
                0 <= i < countries_map@.len() ==> (#[trigger] countries_map@[i]).dated(
                    countries_map@[position(countries_map@, TOTAL@)].headers.len(),
                )
        },
{
    let mut countries_map = CountryMap::new();
    let (header_map, header_count) = match get_header_map(content_conf) {
        Ok(headers) => headers,
        Err(e) => {
            return Err(e);
        },
    };
    match get_results(content_conf, &mut countries_map, header_count, DataType::Confirmed) {
        Ok(()) => {},
        Err(e) => {
            return Err(e);
        },
    }
    match get_results(content_deaths, &mut countries_map, header_count, DataType::Deaths) {
        Ok(()) => {},
        Err(e) => {
            return Err(e);
        },
    }
    match get_results(content_recov, &mut countries_map, header_count, DataType::Recovered) {
        Ok(()) => {},
        Err(e) => {
            return Err(e);
        },
    }
    let ghost labels = texts(header_map@);
    let ghost before = countries_map@;
    // the stored names are distinct
    let _stored: usize = countries_map.len();
    match summarise(&countries_map, header_map) {
        Ok(total) => {
            countries_map.insert(total);
        },
        Err(e) => {
            return Err(e);
        },
    }
    proof {
        lemma_total_is_sum_of_others(before, labels, DataType::Confirmed);
        lemma_all_dated(before, labels);
    }
    Ok(countries_map)
}

} // verus!
