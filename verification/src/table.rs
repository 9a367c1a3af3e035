//! The table of the dashboard and the chart of the selected row.

use vstd::prelude::*;
use crate::countries::{has_name, position, CountryMap};
use crate::country::{row_text, CountryView, DataType};
use crate::order::{is_table_order, sorted_order, table_order};
use crate::text::tables;

verus! {

/// The counts by which the table is ordered: for each record, in stored
/// order, its running total of the dataset.
pub open spec fn sort_keys(s: Seq<CountryView>, sort_by: DataType) -> Seq<u32> {
    Seq::new(s.len(), |i: int| s[i].counter(sort_by) as u32)
}

/// The records in the order of the table: larger running totals of the
/// dataset first, equal ones in stored order.
pub open spec fn arranged(s: Seq<CountryView>, sort_by: DataType) -> Seq<CountryView> {
    Seq::new(s.len(), |i: int| s[table_order(sort_keys(s, sort_by))[i] as int])
}

/// The rows of the table: the row of each record, in the order of the table.
pub open spec fn table_rows(s: Seq<CountryView>, sort_by: DataType) -> Seq<Seq<Seq<char>>> {
    Seq::new(s.len(), |i: int| row_text(arranged(s, sort_by)[i]))
}

/// The rows of the table in the order of the dataset `sort_by`: one row
/// per record, larger running totals first, equal ones in stored order. Down
/// the table the running total never increases.
pub fn get_table_columns(countries_map: &CountryMap, sort_by: DataType) -> (table: Vec<
    Vec<String>,
>)
    ensures
        table@.len() == countries_map@.len(),
        tables(table@) == table_rows(countries_map@, sort_by),
        is_table_order(
            sort_keys(countries_map@, sort_by),
            table_order(sort_keys(countries_map@, sort_by)),
        ),
        forall|i: int, j: int|
            0 <= i <= j < table@.len() ==> (#[trigger] arranged(countries_map@, sort_by)[i]).counter(
                sort_by,
            ) >= (#[trigger] arranged(countries_map@, sort_by)[j]).counter(sort_by),
{
    let n = countries_map.len();
    let mut keys: Vec<u32> = Vec::new();
    let mut i: usize = 0;
    while i < n
        invariant
            i <= n,
            n == countries_map@.len(),
            keys@.len() == i,
            forall|j: int|
                0 <= j < i ==> keys@[j] == (#[trigger] countries_map@[j]).counter(sort_by),
        decreases n - i,
    {
        keys.push(countries_map.at(i).counter(sort_by));
        i += 1;
    }
    assert(keys@ =~= sort_keys(countries_map@, sort_by));
    let order = sorted_order(&keys);
    let mut table: Vec<Vec<String>> = Vec::new();
    let mut k: usize = 0;
    while k < n
        invariant
            k <= n,
            n == countries_map@.len(),
            order@.len() == n,
            forall|j: int| 0 <= j < n ==> (#[trigger] order@[j]) < n,
            table@.len() == k,
            forall|j: int|
                0 <= j < k ==> (#[trigger] tables(table@)[j]) == row_text(
                    countries_map@[order@[j] as int],
                ),
        decreases n - k,
    {
        let ghost before = tables(table@);
        table.push(countries_map.at(order[k]).get_row());
        assert forall|j: int| 0 <= j < k + 1 implies (#[trigger] tables(table@)[j]) == row_text(
            countries_map@[order@[j] as int],
        ) by {
            if j < k {
                assert(tables(table@)[j] == before[j]);
            }
        }
        k += 1;
    }
    proof {
        let keys = sort_keys(countries_map@, sort_by);
        assert(tables(table@) =~= table_rows(countries_map@, sort_by));
        assert forall|i: int, j: int| 0 <= i <= j < table@.len() implies (#[trigger] arranged(
            countries_map@,
            sort_by,
        )[i]).counter(sort_by) >= (#[trigger] arranged(countries_map@, sort_by)[j]).counter(
            sort_by,
        ) by {
            assert(keys[order@[i] as int] >= keys[order@[j] as int]);
        }
    }
    table
}

/// Whether `points` draws the series: one point per date, the date's place
/// along the first axis and the count along the second.
pub open spec fn draws(points: Seq<(usize, u32)>, series: Seq<nat>) -> bool {
    &&& points.len() == series.len()
    &&& forall|i: int|
        0 <= i < points.len() ==> (#[trigger] points[i]).0 == i && points[i].1 == series[i]
}

fn chart_points(series: &Vec<u32>) -> (points: Vec<(usize, u32)>)
    ensures
        points@.len() == series@.len(),
        forall|i: int|
            0 <= i < points@.len() ==> (#[trigger] points@[i]).0 == i && points@[i].1
                == series@[i],
{
    let mut points: Vec<(usize, u32)> = Vec::new();
    let n = series.len();
    let mut i: usize = 0;
    while i < n
        invariant
            i <= n,
            n == series@.len(),
            points@.len() == i,
            forall|j: int|
                0 <= j < i ==> (#[trigger] points@[j]).0 == j && points@[j].1 == series@[j],
        decreases n - i,
    {
        points.push((i, series[i]));
        i += 1;
    }
    points
}

/// The three series of a country as chart points: confirmed cases, deaths,
/// recoveries.
pub fn get_chart_from_country(countries_map: &CountryMap, country: String) -> (charts: (
    Vec<(usize, u32)>,
    Vec<(usize, u32)>,
    Vec<(usize, u32)>,
))
    requires
        has_name(countries_map@, country@),
    ensures
        draws(charts.0@, countries_map@[position(countries_map@, country@)].confirmed_map),
        draws(charts.1@, countries_map@[position(countries_map@, country@)].deaths_map),
        draws(charts.2@, countries_map@[position(countries_map@, country@)].recovered_map),
{
    match countries_map.get(country.as_str()) {
        Some(selected_country) => (
            chart_points(&selected_country.confirmed_map),
            chart_points(&selected_country.deaths_map),
            chart_points(&selected_country.recovered_map),
        ),
        None => (Vec::new(), Vec::new(), Vec::new()),
    }
}

/// Takes the country of the selected row of the table, puts its three series
/// into the chart data and returns its name.
pub fn update_data(
    countries_map: &CountryMap,
    current_table: &Vec<Vec<String>>,
    selected: usize,
    confirmed_data: &mut Vec<(usize, u32)>,
    deaths_data: &mut Vec<(usize, u32)>,
    recovered_data: &mut Vec<(usize, u32)>,
) -> (selected_country: String)
    requires
        selected < current_table@.len(),
        current_table@[selected as int]@.len() > 0,
        has_name(countries_map@, current_table@[selected as int]@[0]@),
    ensures
        selected_country@ == current_table@[selected as int]@[0]@,
        draws(
            final(confirmed_data)@,
            countries_map@[position(countries_map@, selected_country@)].confirmed_map,
        ),
        draws(
            final(deaths_data)@,
            countries_map@[position(countries_map@, selected_country@)].deaths_map,
        ),
        draws(
            final(recovered_data)@,
            countries_map@[position(countries_map@, selected_country@)].recovered_map,
        ),
{
    let selected_country = current_table[selected][0].clone();
    let (confirmed_upd, deaths_upd, recovered_upd) = get_chart_from_country(
        countries_map,
        selected_country.clone(),
    );
    *confirmed_data = confirmed_upd;
    *deaths_data = deaths_upd;
    *recovered_data = recovered_upd;
    selected_country
}

} // verus!
