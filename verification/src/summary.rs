//! The summary record: the sum of the records of all countries, under the
//! name `TOTAL`, with the date labels. A record of that name is never itself
//! one of the terms.

use vstd::prelude::*;
use vstd::string::*;
use crate::countries::{
    distinct_names, has_name, lemma_found_after_put, position, put, CountryMap,
};
use crate::country::{counts, Country, CountryView, DataType};
use crate::error::DataError;
use crate::series::{can_sum_vectors, sum_vectors, zeros};
use crate::text::{same_text, texts};

verus! {

/// The name of the summary record.
pub const TOTAL: &'static str = "TOTAL";

/// The sum of the running totals of one dataset over the records other than
/// the summary record.
pub open spec fn sum_others(s: Seq<CountryView>, data_type: DataType) -> nat
    decreases s.len(),
{
    if s.len() == 0 {
        0
    } else if s.last().country == TOTAL@ {
        sum_others(s.drop_last(), data_type)
    } else {
        sum_others(s.drop_last(), data_type) + s.last().counter(data_type)
    }
}

/// The sum of the counts of one dataset at the date `d` over the records
/// other than the summary record.
pub open spec fn sum_others_at(s: Seq<CountryView>, data_type: DataType, d: int) -> nat
    decreases s.len(),
{
    if s.len() == 0 {
        0
    } else if s.last().country == TOTAL@ {
        sum_others_at(s.drop_last(), data_type, d)
    } else {
        sum_others_at(s.drop_last(), data_type, d) + s.last().series(data_type)[d]
    }
}

/// The date-by-date sum of the series of one dataset over the records other
/// than the summary record, on `n` dates.
pub open spec fn sum_series(s: Seq<CountryView>, data_type: DataType, n: nat) -> Seq<nat> {
    Seq::new(n, |d: int| sum_others_at(s, data_type, d))
}

/// Every record other than the summary record has, in each of its three
/// series, one value for each of `n` dates.
pub open spec fn countries_dated(s: Seq<CountryView>, n: nat) -> bool {
    forall|i: int| 0 <= i < s.len() && (#[trigger] s[i]).country != TOTAL@ ==> s[i].dated(n)
}

/// The sums of one dataset fit `u32`: the sum of the running totals, and the
/// sum at each of `n` dates.
pub open spec fn sums_fit(s: Seq<CountryView>, data_type: DataType, n: nat) -> bool {
    &&& sum_others(s, data_type) <= u32::MAX
    &&& forall|d: int| 0 <= d < n ==> #[trigger] sum_others_at(s, data_type, d) <= u32::MAX
}

/// Why the records cannot be summed up on `n` dates, if they cannot: a
/// country has a series with another number of dates, or a sum does not fit
/// `u32`.
pub open spec fn summary_error(s: Seq<CountryView>, n: nat) -> Option<DataError> {
    if !countries_dated(s, n) {
        Some(DataError::SeriesLength)
    } else if !(sums_fit(s, DataType::Confirmed, n) && sums_fit(s, DataType::Deaths, n)
        && sums_fit(s, DataType::Recovered, n)) {
        Some(DataError::Overflow)
    } else {
        None
    }
}

/// The summary of the records: under the name `TOTAL`, the sums of the three
/// running totals and of the three series over all other records, with the
/// date labels. The series have one value for each label.
pub open spec fn total_record(s: Seq<CountryView>, headers: Seq<Seq<char>>) -> CountryView {
    CountryView {
        country: TOTAL@,
        confirmed: sum_others(s, DataType::Confirmed),
        deaths: sum_others(s, DataType::Deaths),
        recovered: sum_others(s, DataType::Recovered),
        confirmed_map: sum_series(s, DataType::Confirmed, headers.len()),
        deaths_map: sum_series(s, DataType::Deaths, headers.len()),
        recovered_map: sum_series(s, DataType::Recovered, headers.len()),
        headers,
    }
}

/// Putting one summary record in the place of another changes no sum.
proof fn lemma_replaced_summary(
    s: Seq<CountryView>,
    p: int,
    c: CountryView,
    data_type: DataType,
    d: int,
)
    requires
        0 <= p < s.len(),
        s[p].country == TOTAL@,
        c.country == TOTAL@,
    ensures
        sum_others(s.update(p, c), data_type) == sum_others(s, data_type),
        sum_others_at(s.update(p, c), data_type, d) == sum_others_at(s, data_type, d),
    decreases s.len(),
{
    let t = s.update(p, c);
    if p == s.len() - 1 {
        assert(t.drop_last() =~= s.drop_last());
    } else {
        assert(t.drop_last() =~= s.drop_last().update(p, c));
        assert(t.last() == s.last());
        lemma_replaced_summary(s.drop_last(), p, c, data_type, d);
    }
}

/// A summary record that is put in changes no sum over the other records.
pub proof fn lemma_sums_pass_over_summary(
    s: Seq<CountryView>,
    c: CountryView,
    data_type: DataType,
    d: int,
)
    requires
        c.country == TOTAL@,
    ensures
        sum_others(put(s, c), data_type) == sum_others(s, data_type),
        sum_others_at(put(s, c), data_type, d) == sum_others_at(s, data_type, d),
{
    if has_name(s, TOTAL@) {
        let p = position(s, TOTAL@);
        assert(0 <= p < s.len() && s[p].country == TOTAL@);
        lemma_replaced_summary(s, p, c, data_type, d);
    } else {
        assert(s.push(c).drop_last() =~= s);
    }
}

/// Once the summary record has been added, it is found under its name, and
/// its running totals and series are the sums over all other records.
pub proof fn lemma_total_is_sum_of_others(
    s: Seq<CountryView>,
    headers: Seq<Seq<char>>,
    data_type: DataType,
)
    requires
        distinct_names(s),
    ensures
        has_name(put(s, total_record(s, headers)), TOTAL@),
        put(s, total_record(s, headers))[position(put(s, total_record(s, headers)), TOTAL@)]
            == total_record(s, headers),
        total_record(s, headers).counter(data_type) == sum_others(
            put(s, total_record(s, headers)),
            data_type,
        ),
        total_record(s, headers).series(data_type) == sum_series(
            put(s, total_record(s, headers)),
            data_type,
            headers.len(),
        ),
{
    let total = total_record(s, headers);
    lemma_found_after_put(s, total);
    lemma_sums_pass_over_summary(s, total, data_type, 0);
    assert forall|d: int| 0 <= d < headers.len() implies sum_others_at(
        put(s, total),
        data_type,
        d,
    ) == sum_others_at(s, data_type, d) by {
        lemma_sums_pass_over_summary(s, total, data_type, d);
    }
    assert(total.series(data_type) =~= sum_series(put(s, total), data_type, headers.len()));
}

/// A summary record that is put in leaves it as it is whether the sums fit.
proof fn lemma_fit_passes_over_summary(
    s: Seq<CountryView>,
    c: CountryView,
    data_type: DataType,
    n: nat,
)
    requires
        c.country == TOTAL@,
    ensures
        sums_fit(put(s, c), data_type, n) == sums_fit(s, data_type, n),
{
    lemma_sums_pass_over_summary(s, c, data_type, 0);
    assert forall|d: int| 0 <= d < n implies sum_others_at(put(s, c), data_type, d)
        == sum_others_at(s, data_type, d) by {
        lemma_sums_pass_over_summary(s, c, data_type, d);
    }
    if sums_fit(s, data_type, n) {
        assert forall|d: int| 0 <= d < n implies #[trigger] sum_others_at(
            put(s, c),
            data_type,
            d,
        ) <= u32::MAX by {
            assert(sum_others_at(s, data_type, d) <= u32::MAX);
        }
    }
    if sums_fit(put(s, c), data_type, n) {
        assert forall|d: int| 0 <= d < n implies #[trigger] sum_others_at(s, data_type, d)
            <= u32::MAX by {
            assert(sum_others_at(put(s, c), data_type, d) <= u32::MAX);
        }
    }
}

/// Adding the summary record a second time changes nothing: records that
/// hold their summary can be summed up exactly if they could before, and
/// their summary is that summary again.
pub proof fn lemma_summary_is_idempotent(s: Seq<CountryView>, headers: Seq<Seq<char>>)
    requires
        distinct_names(s),
    ensures
        total_record(put(s, total_record(s, headers)), headers) == total_record(s, headers),
        summary_error(put(s, total_record(s, headers)), headers.len()) == summary_error(
            s,
            headers.len(),
        ),
        put(put(s, total_record(s, headers)), total_record(s, headers)) == put(
            s,
            total_record(s, headers),
        ),
{
    let n = headers.len();
    let total = total_record(s, headers);
    let f = put(s, total);
    let again = total_record(f, headers);
    assert forall|data_type: DataType, d: int| #[trigger]
        sum_others_at(f, data_type, d) == sum_others_at(s, data_type, d) by {
        lemma_sums_pass_over_summary(s, total, data_type, d);
    }
    assert(sum_others(f, DataType::Confirmed) == sum_others(s, DataType::Confirmed)) by {
        lemma_sums_pass_over_summary(s, total, DataType::Confirmed, 0);
    }
    assert(sum_others(f, DataType::Deaths) == sum_others(s, DataType::Deaths)) by {
        lemma_sums_pass_over_summary(s, total, DataType::Deaths, 0);
    }
    assert(sum_others(f, DataType::Recovered) == sum_others(s, DataType::Recovered)) by {
        lemma_sums_pass_over_summary(s, total, DataType::Recovered, 0);
    }
    assert(again.confirmed_map =~= total.confirmed_map);
    assert(again.deaths_map =~= total.deaths_map);
    assert(again.recovered_map =~= total.recovered_map);
    lemma_fit_passes_over_summary(s, total, DataType::Confirmed, n);
    lemma_fit_passes_over_summary(s, total, DataType::Deaths, n);
    lemma_fit_passes_over_summary(s, total, DataType::Recovered, n);
    // the countries are the same records before and after
    if has_name(s, TOTAL@) {
        let p = position(s, TOTAL@);
        assert(0 <= p < s.len() && s[p].country == TOTAL@);
        assert forall|i: int| 0 <= i < s.len() && i != p implies #[trigger] f[i] == s[i] by {}
        assert(countries_dated(f, n) == countries_dated(s, n)) by {
            if countries_dated(s, n) {
                assert forall|i: int| 0 <= i < f.len() && (#[trigger] f[i]).country
                    != TOTAL@ implies f[i].dated(n) by {
                    assert(f[i] == s[i]);
                }
            }
            if countries_dated(f, n) {
                assert forall|i: int| 0 <= i < s.len() && (#[trigger] s[i]).country
                    != TOTAL@ implies s[i].dated(n) by {
                    assert(f[i] == s[i]);
                    assert(f[i].country != TOTAL@);
                }
            }
        }
    } else {
        assert(countries_dated(f, n) == countries_dated(s, n)) by {
            if countries_dated(s, n) {
                assert forall|i: int| 0 <= i < f.len() && (#[trigger] f[i]).country
                    != TOTAL@ implies f[i].dated(n) by {
                    assert(i < s.len());
                    assert(f[i] == s[i]);
                }
            }
            if countries_dated(f, n) {
                assert forall|i: int| 0 <= i < s.len() && (#[trigger] s[i]).country
                    != TOTAL@ implies s[i].dated(n) by {
                    assert(f[i] == s[i]);
                    assert(f[i].country != TOTAL@);
                }
            }
        }
    }
    lemma_found_after_put(s, total);
    assert(put(f, total) =~= f);
}

/// Once the summary record has been added to records that can be summed up
/// on `n` dates, every record has one value per date in each of its series.
pub proof fn lemma_all_dated(s: Seq<CountryView>, headers: Seq<Seq<char>>)
    requires
        distinct_names(s),
        countries_dated(s, headers.len()),
    ensures
        forall|i: int|
            0 <= i < put(s, total_record(s, headers)).len() ==> (#[trigger] put(
                s,
                total_record(s, headers),
            )[i]).dated(headers.len()),
{
    let total = total_record(s, headers);
    let f = put(s, total);
    assert(total.dated(headers.len()));
    if has_name(s, TOTAL@) {
        let p = position(s, TOTAL@);
        assert(0 <= p < s.len() && s[p].country == TOTAL@);
        assert forall|i: int| 0 <= i < f.len() implies (#[trigger] f[i]).dated(headers.len()) by {
            if i != p {
                assert(f[i] == s[i]);
                assert(s[i].country != s[p].country);
            }
        }
    } else {
        assert forall|i: int| 0 <= i < f.len() implies (#[trigger] f[i]).dated(headers.len()) by {
            if i < s.len() {
                assert(f[i] == s[i]);
                assert(s[i].country != TOTAL@);
            }
        }
    }
}

/// A sum over some of the records is no more than the sum over all of them.
proof fn lemma_sums_grow(s: Seq<CountryView>, data_type: DataType, d: int, k: int)
    requires
        0 <= k <= s.len(),
    ensures
        sum_others(s.take(k), data_type) <= sum_others(s, data_type),
        sum_others_at(s.take(k), data_type, d) <= sum_others_at(s, data_type, d),
    decreases s.len() - k,
{
    if k == s.len() {
        assert(s.take(k) =~= s);
    } else {
        lemma_sums_grow(s, data_type, d, k + 1);
        assert(s.take(k + 1).drop_last() =~= s.take(k));
    }
}

fn is_summary(country: &Country) -> (b: bool)
    ensures
        b == (country@.country == TOTAL@),
{
    same_text(country.country.as_str(), TOTAL)
}

fn are_dated(countries: &CountryMap, n: usize) -> (b: bool)
    ensures
        b == countries_dated(countries@, n as nat),
{
    let len = countries.len();
    let mut i: usize = 0;
    while i < len
        invariant
            i <= len,
            len == countries@.len(),
            forall|j: int|
                0 <= j < i && (#[trigger] countries@[j]).country != TOTAL@ ==> countries@[j].dated(
                    n as nat,
                ),
        decreases len - i,
    {
        let c = countries.at(i);
        if !is_summary(c) {
            let confirmed = c.series(DataType::Confirmed).len();
            let deaths = c.series(DataType::Deaths).len();
            let recovered = c.series(DataType::Recovered).len();
            assert(counts(c.confirmed_map@).len() == c.confirmed_map@.len());
            if confirmed != n || deaths != n || recovered != n {
                assert(!countries@[i as int].dated(n as nat));
                return false;
            }
        }
        i += 1;
    }
    true
}

fn total_counter(countries: &CountryMap, data_type: DataType) -> (r: Option<u32>)
    ensures
        match r {
            Some(total) => total == sum_others(countries@, data_type),
            None => sum_others(countries@, data_type) > u32::MAX,
        },
{
    let n = countries.len();
    let mut total: u32 = 0;
    let mut i: usize = 0;
    assert(countries@.take(0).len() == 0);
    while i < n
        invariant
            i <= n,
            n == countries@.len(),
            total == sum_others(countries@.take(i as int), data_type),
        decreases n - i,
    {
        proof {
            assert(countries@.take(i + 1).drop_last() =~= countries@.take(i as int));
            assert(countries@.take(i + 1).last() == countries@[i as int]);
            lemma_sums_grow(countries@, data_type, 0, i + 1);
        }
        let c = countries.at(i);
        if !is_summary(c) {
            total = match total.checked_add(c.counter(data_type)) {
                Some(sum) => sum,
                None => {
                    return None;
                },
            };
        }
        i += 1;
    }
    assert(countries@.take(n as int) =~= countries@);
    Some(total)
}

fn total_series(countries: &CountryMap, data_type: DataType, dates: usize) -> (r: Option<
    Vec<u32>,
>)
    requires
        countries_dated(countries@, dates as nat),
    ensures
        match r {
            Some(total) => {
                &&& counts(total@) == sum_series(countries@, data_type, dates as nat)
                &&& forall|d: int|
                    0 <= d < dates ==> #[trigger] sum_others_at(countries@, data_type, d)
                        <= u32::MAX
            },
            None => exists|d: int|
                0 <= d < dates && #[trigger] sum_others_at(countries@, data_type, d) > u32::MAX,
        },
{
    let n = countries.len();
    let mut total = zeros(dates);
    let mut i: usize = 0;
    assert(countries@.take(0).len() == 0);
    while i < n
        invariant
            i <= n,
            n == countries@.len(),
            countries_dated(countries@, dates as nat),
            total@.len() == dates,
            forall|d: int|
                0 <= d < dates ==> total@[d] == #[trigger] sum_others_at(
                    countries@.take(i as int),
                    data_type,
                    d,
                ),
        decreases n - i,
    {
        let c = countries.at(i);
        proof {
            assert(countries@.take(i + 1).drop_last() =~= countries@.take(i as int));
            assert(countries@.take(i + 1).last() == countries@[i as int]);
        }
        if !is_summary(c) {
            let series = c.series(data_type);
            assert(countries@[i as int].dated(dates as nat));
            assert(counts(series@).len() == series@.len());
            assert(series@.len() == dates);
            proof {
                assert forall|d: int| 0 <= d < dates implies sum_others_at(
                    countries@.take(i + 1),
                    data_type,
                    d,
                ) == total@[d] + series@[d] by {
                    assert(total@[d] == sum_others_at(countries@.take(i as int), data_type, d));
                    assert(counts(series@)[d] == series@[d]);
                }
            }
            if !can_sum_vectors(series, &total) {
                proof {
                    let d = choose|d: int| 0 <= d < dates && total@[d] + series@[d] > u32::MAX;
                    lemma_sums_grow(countries@, data_type, d, i + 1);
                    assert(sum_others_at(countries@, data_type, d) > u32::MAX);
                }
                return None;
            }
            sum_vectors(series, &mut total);
        } else {
            assert forall|d: int| 0 <= d < dates implies total@[d] == #[trigger] sum_others_at(
                countries@.take(i + 1),
                data_type,
                d,
            ) by {
                assert(total@[d] == sum_others_at(countries@.take(i as int), data_type, d));
            }
        }
        i += 1;
    }
    assert(countries@.take(n as int) =~= countries@);
    assert(counts(total@) =~= sum_series(countries@, data_type, dates as nat));
    Some(total)
}

/// Sums the records of the countries up into the summary record, if they can
/// be summed: each series of each country must have one value for each date
/// label, and the sums must fit.
pub fn summarise(countries: &CountryMap, header_map: Vec<String>) -> (r: Result<
    Country,
    DataError,
>)
    ensures
        match r {
            Ok(total) => summary_error(countries@, header_map@.len()) is None && total@
                == total_record(countries@, texts(header_map@)),
            Err(e) => summary_error(countries@, header_map@.len()) == Some(e),
        },
{
    let dates = header_map.len();
    if !are_dated(countries, dates) {
        return Err(DataError::SeriesLength);
    }
    let confirmed = total_counter(countries, DataType::Confirmed);
    let deaths = total_counter(countries, DataType::Deaths);
    let recovered = total_counter(countries, DataType::Recovered);
    let confirmed_map = total_series(countries, DataType::Confirmed, dates);
    let deaths_map = total_series(countries, DataType::Deaths, dates);
    let recovered_map = total_series(countries, DataType::Recovered, dates);
    match (confirmed, deaths, recovered, confirmed_map, deaths_map, recovered_map) {
        (
            Some(confirmed),
            Some(deaths),
            Some(recovered),
            Some(confirmed_map),
            Some(deaths_map),
            Some(recovered_map),
        ) => Ok(
            Country::new(
                String::from_str(TOTAL),
                confirmed,
                deaths,
                recovered,
                confirmed_map,
                deaths_map,
                recovered_map,
                header_map,
            ),
        ),
        _ => Err(DataError::Overflow),
    }
}

/// Adds the summary record: the sums over the records of all countries,
/// under the name `TOTAL`, with the date labels. A summary record that is
/// there already is not counted, and the new one takes its place. Afterwards
/// the running totals and the series of the summary are the sums over all
/// other records, and every record has one value per date label in each of
/// its three series.
pub fn add_summary(countries_map: &mut CountryMap, header_map: Vec<String>)
    requires
        summary_error(old(countries_map)@, header_map@.len()) is None,
    ensures
        final(countries_map)@ == put(
            old(countries_map)@,
            total_record(old(countries_map)@, texts(header_map@)),
        ),
        has_name(final(countries_map)@, TOTAL@),
        final(countries_map)@[position(final(countries_map)@, TOTAL@)] == total_record(
            old(countries_map)@,
            texts(header_map@),
        ),
        forall|data_type: DataType|
            total_record(old(countries_map)@, texts(header_map@)).counter(data_type)
                == #[trigger] sum_others(final(countries_map)@, data_type),
        forall|data_type: DataType|
            total_record(old(countries_map)@, texts(header_map@)).series(data_type)
                == #[trigger] sum_series(final(countries_map)@, data_type, header_map@.len()),
        forall|i: int|
            0 <= i < final(countries_map)@.len() ==> (#[trigger] final(countries_map)@[i]).dated(
                header_map@.len(),
            ),
{
    // the stored names are distinct
    let _stored: usize = countries_map.len();
    proof {
        let s = countries_map@;
        let labels = texts(header_map@);
        assert forall|data_type: DataType|
            total_record(s, labels).counter(data_type) == #[trigger] sum_others(
                put(s, total_record(s, labels)),
                data_type,
            ) by {
            lemma_total_is_sum_of_others(s, labels, data_type);
        }
        assert forall|data_type: DataType|
            total_record(s, labels).series(data_type) == #[trigger] sum_series(
                put(s, total_record(s, labels)),
                data_type,
                labels.len(),
            ) by {
            lemma_total_is_sum_of_others(s, labels, data_type);
        }
        lemma_total_is_sum_of_others(s, labels, DataType::Confirmed);
        lemma_all_dated(s, labels);
    }
    match summarise(countries_map, header_map) {
        Ok(total) => {
            countries_map.insert(total);
        },
        Err(_) => {},
    }
}

} // verus!
