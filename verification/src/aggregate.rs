//! Folding the rows of one dataset into the country records: rows of one
//! country are added up, date by date.

use vstd::prelude::*;
use crate::countries::{has_name, lemma_found_after_put, position, put, CountryMap};
use crate::country::{counts, Country, CountryView, DataType};
use crate::error::DataError;
use crate::series::{can_sum_vectors, copy_series, sum_vectors, zeros};

verus! {

/// What one row of a dataset says: the country, and one count per date.
#[derive(Debug)]
pub struct Reading {
    pub country: String,
    pub values: Vec<u32>,
}

/// A reading as mathematics.
pub struct ReadingView {
    pub country: Seq<char>,
    pub values: Seq<nat>,
}

impl View for Reading {
    type V = ReadingView;

    open spec fn view(&self) -> ReadingView {
        ReadingView { country: self.country@, values: counts(self.values@) }
    }
}

/// The latest count of a row, or zero for a row without dates.
pub open spec fn last_or_zero(values: Seq<nat>) -> nat {
    if values.len() == 0 {
        0
    } else {
        values.last()
    }
}

/// A series on `n` dates: the series itself, or zero on every date where
/// nothing has been read into it yet.
pub open spec fn on_dates(series: Seq<nat>, n: nat) -> Seq<nat> {
    if series.len() == 0 {
        Seq::new(n, |i: int| 0nat)
    } else {
        series
    }
}

/// Whether a series can stand beside a row of `n` dates: it has a value for
/// each of them, or nothing has been read into it yet.
pub open spec fn fits_dates(series: Seq<nat>, n: nat) -> bool {
    series.len() == 0 || series.len() == n
}

/// A series after a row has been added onto it, date by date.
pub open spec fn add_series(series: Seq<nat>, values: Seq<nat>) -> Seq<nat> {
    Seq::new(values.len(), |i: int| on_dates(series, values.len())[i] + values[i])
}

/// The record of a country of which nothing is known yet.
pub open spec fn blank(name: Seq<char>) -> CountryView {
    CountryView {
        country: name,
        confirmed: 0,
        deaths: 0,
        recovered: 0,
        confirmed_map: Seq::empty(),
        deaths_map: Seq::empty(),
        recovered_map: Seq::empty(),
        headers: Seq::empty(),
    }
}

/// The record `c` with the reading added to the dataset `data_type`: the
/// latest count goes onto the running total, the values onto the series.
/// The running totals of the other two datasets stay. Their series stay too,
/// but for a series into which nothing has been read yet: it counts as zero
/// on every date of the row, so that the three series keep the same dates.
/// The record carries no date labels.
pub open spec fn merged(c: CountryView, r: ReadingView, data_type: DataType) -> CountryView {
    let n = r.values.len();
    let latest = last_or_zero(r.values);
    CountryView {
        country: c.country,
        confirmed: if data_type == DataType::Confirmed {
            c.confirmed + latest
        } else {
            c.confirmed
        },
        deaths: if data_type == DataType::Deaths {
            c.deaths + latest
        } else {
            c.deaths
        },
        recovered: if data_type == DataType::Recovered {
            c.recovered + latest
        } else {
            c.recovered
        },
        confirmed_map: if data_type == DataType::Confirmed {
            add_series(c.confirmed_map, r.values)
        } else {
            on_dates(c.confirmed_map, n)
        },
        deaths_map: if data_type == DataType::Deaths {
            add_series(c.deaths_map, r.values)
        } else {
            on_dates(c.deaths_map, n)
        },
        recovered_map: if data_type == DataType::Recovered {
            add_series(c.recovered_map, r.values)
        } else {
            on_dates(c.recovered_map, n)
        },
        headers: Seq::empty(),
    }
}

/// Why the reading cannot be added to `c`, if it cannot: a series of `c`
/// holds values, but not one for each date of the row; or a sum passes
/// `u32::MAX`.
pub open spec fn merge_error(c: CountryView, r: ReadingView, data_type: DataType) -> Option<
    DataError,
> {
    let n = r.values.len();
    if !(fits_dates(c.confirmed_map, n) && fits_dates(c.deaths_map, n) && fits_dates(
        c.recovered_map,
        n,
    )) {
        Some(DataError::SeriesLength)
    } else if c.counter(data_type) + last_or_zero(r.values) > u32::MAX {
        Some(DataError::Overflow)
    } else if exists|i: int|
        0 <= i < n && #[trigger] add_series(c.series(data_type), r.values)[i] > u32::MAX {
        Some(DataError::Overflow)
    } else {
        None
    }
}

/// Once a reading has been added to a record, each of its three series has
/// one value for each date of the row.
pub proof fn lemma_merged_is_dated(c: CountryView, r: ReadingView, data_type: DataType)
    requires
        merge_error(c, r, data_type) is None,
    ensures
        merged(c, r, data_type).dated(r.values.len()),
        merged(c, r, data_type).country == c.country,
{
}

/// Whether each running total of the record is the latest count of its
/// series (zero where the series is empty).
pub open spec fn totals_are_latest(c: CountryView) -> bool {
    &&& c.confirmed == last_or_zero(c.confirmed_map)
    &&& c.deaths == last_or_zero(c.deaths_map)
    &&& c.recovered == last_or_zero(c.recovered_map)
}

/// A record whose running totals are the latest counts of its series stays
/// so when a reading is added; a blank record is such a record.
pub proof fn lemma_merged_keeps_latest(c: CountryView, r: ReadingView, data_type: DataType)
    requires
        totals_are_latest(c),
        merge_error(c, r, data_type) is None,
    ensures
        totals_are_latest(merged(c, r, data_type)),
        totals_are_latest(blank(c.country)),
{
}

/// The record that carries the name, or a blank one where none does.
pub open spec fn record_or_blank(s: Seq<CountryView>, name: Seq<char>) -> CountryView {
    if has_name(s, name) {
        s[position(s, name)]
    } else {
        blank(name)
    }
}

/// The records after one reading has been folded in.
pub open spec fn absorb(s: Seq<CountryView>, r: ReadingView, data_type: DataType) -> Seq<
    CountryView,
> {
    put(s, merged(record_or_blank(s, r.country), r, data_type))
}

fn latest(values: &Vec<u32>) -> (r: u32)
    ensures
        r == last_or_zero(counts(values@)),
{
    if values.len() == 0 {
        0
    } else {
        values[values.len() - 1]
    }
}

fn on_dates_of(series: &Vec<u32>, n: usize) -> (r: Vec<u32>)
    ensures
        counts(r@) == on_dates(counts(series@), n as nat),
        r@.len() == if series@.len() == 0 { n as int } else { series@.len() as int },
{
    let r = if series.len() == 0 {
        zeros(n)
    } else {
        copy_series(series)
    };
    assert(counts(r@) =~= on_dates(counts(series@), n as nat));
    r
}

/// Adds a reading to a record: the outcome is a new record under the same
/// name, or the reason why the reading cannot be added.
pub fn merge_reading(known: &Country, reading: &Reading, data_type: DataType) -> (r: Result<
    Country,
    DataError,
>)
    ensures
        match r {
            Ok(next) => merge_error(known@, reading@, data_type) is None && next@ == merged(
                known@,
                reading@,
                data_type,
            ),
            Err(e) => merge_error(known@, reading@, data_type) == Some(e),
        },
{
    let n = reading.values.len();
    if !((known.confirmed_map.len() == 0 || known.confirmed_map.len() == n) && (
    known.deaths_map.len() == 0 || known.deaths_map.len() == n) && (known.recovered_map.len()
        == 0 || known.recovered_map.len() == n)) {
        return Err(DataError::SeriesLength);
    }
    let total = match known.counter(data_type).checked_add(latest(&reading.values)) {
        Some(total) => total,
        None => {
            return Err(DataError::Overflow);
        },
    };
    let old_series = known.series(data_type);
    assert(counts(old_series@).len() == old_series@.len());
    let mut series = on_dates_of(old_series, n);
    let ghost before = series@;
    let ghost sums = add_series(known@.series(data_type), reading@.values);
    assert(before.len() == n);
    assert forall|i: int| 0 <= i < n implies sums[i] == before[i] + reading.values@[i] by {
        assert(counts(before)[i] == before[i]);
        assert(counts(reading.values@)[i] == reading.values@[i]);
    }
    if !can_sum_vectors(&reading.values, &series) {
        proof {
            let i = choose|i: int| 0 <= i < n && before[i] + reading.values@[i] > u32::MAX;
            assert(sums[i] > u32::MAX);
        }
        return Err(DataError::Overflow);
    }
    sum_vectors(&reading.values, &mut series);
    assert(counts(series@) =~= sums);
    let name = known.country.clone();
    let next = match data_type {
        DataType::Confirmed => Country::new(
            name,
            total,
            known.deaths,
            known.recovered,
            series,
            on_dates_of(&known.deaths_map, n),
            on_dates_of(&known.recovered_map, n),
            Vec::new(),
        ),
        DataType::Deaths => Country::new(
            name,
            known.confirmed,
            total,
            known.recovered,
            on_dates_of(&known.confirmed_map, n),
            series,
            on_dates_of(&known.recovered_map, n),
            Vec::new(),
        ),
        DataType::Recovered => Country::new(
            name,
            known.confirmed,
            known.deaths,
            total,
            on_dates_of(&known.confirmed_map, n),
            on_dates_of(&known.deaths_map, n),
            series,
            Vec::new(),
        ),
    };
    assert(next@.headers =~= merged(known@, reading@, data_type).headers);
    Ok(next)
}

/// Folds one reading into the records: onto the record of its country where
/// there is one, else into a new record behind the others. Where a sum would
/// not fit, or a series of the country does not go with the dates of the
/// row, the records stay as they are. After success the three series of the
/// country have one value for each date of the row.
pub fn absorb_reading(countries: &mut CountryMap, reading: Reading, data_type: DataType) -> (r:
    Result<(), DataError>)
    ensures
        match r {
            Ok(()) => {
                &&& merge_error(
                    record_or_blank(old(countries)@, reading@.country),
                    reading@,
                    data_type,
                ) is None
                &&& final(countries)@ == absorb(old(countries)@, reading@, data_type)
                &&& has_name(final(countries)@, reading@.country)
                &&& final(countries)@[position(final(countries)@, reading@.country)].dated(
                    reading@.values.len(),
                )
            },
            Err(e) => {
                &&& merge_error(
                    record_or_blank(old(countries)@, reading@.country),
                    reading@,
                    data_type,
                ) == Some(e)
                &&& final(countries)@ == old(countries)@
            },
        },
{
    let ghost before = record_or_blank(countries@, reading@.country);
    let outcome = match countries.get(reading.country.as_str()) {
        Some(known) => merge_reading(known, &reading, data_type),
        None => {
            let fresh = Country::new(
                reading.country.clone(),
                0,
                0,
                0,
                Vec::new(),
                Vec::new(),
                Vec::new(),
                Vec::new(),
            );
            assert(fresh@.confirmed_map =~= before.confirmed_map);
            assert(fresh@.deaths_map =~= before.deaths_map);
            assert(fresh@.recovered_map =~= before.recovered_map);
            assert(fresh@.headers =~= before.headers);
            merge_reading(&fresh, &reading, data_type)
        },
    };
    match outcome {
        Ok(next) => {
            proof {
                lemma_merged_is_dated(before, reading@, data_type);
                lemma_found_after_put(countries@, next@);
            }
            countries.insert(next);
            Ok(())
        },
        Err(e) => Err(e),
    }
}

} // verus!
