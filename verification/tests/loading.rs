use corona_stats::countries::CountryMap;
use corona_stats::country::{Country, DataType};
use corona_stats::error::ErrorKind;
use corona_stats::load::{
    get_data, get_header_map, get_results, merge_records, parse_record, select_fields,
};

const CONFIRMED: &str = "\
Province/State,Country/Region,Lat,Long,1/22/20,1/23/20
A,China,30.0,110.0,1,2
B,China,31.0,111.0,3,4
,Italy,43.0,12.0,0,7
";

const DEATHS: &str = "\
Province/State,Country/Region,Lat,Long,1/22/20,1/23/20
A,China,30.0,110.0,0,1
B,China,31.0,111.0,1,1
,Italy,43.0,12.0,0,2
";

const RECOVERED: &str = "\
Province/State,Country/Region,Lat,Long,1/22/20,1/23/20
A,China,30.0,110.0,0,0
B,China,31.0,111.0,0,3
,Italy,43.0,12.0,0,1
";

fn strings(fields: &[&str]) -> Vec<String> {
    fields.iter().map(|f| f.to_string()).collect()
}

#[test]
fn rows_of_one_country_are_summed() {
    let mut map = CountryMap::new();
    get_results(CONFIRMED, &mut map, 6, DataType::Confirmed).unwrap();
    let china = map.get("China").unwrap();
    assert_eq!(china.confirmed_map, vec![4, 6]);
    assert_eq!(china.confirmed, 6);
    assert_eq!(china.country, "China");
    assert_eq!(china.deaths, 0);
    assert_eq!(china.deaths_map, vec![0, 0]);
    assert_eq!(china.recovered_map, vec![0, 0]);
    assert!(china.headers.is_empty());
    let italy = map.get("Italy").unwrap();
    assert_eq!(italy.confirmed_map, vec![0, 7]);
    assert_eq!(italy.confirmed, 7);
    assert_eq!(map.len(), 2);
}

#[test]
fn summing_does_not_depend_on_row_order() {
    let shuffled = "\
Province/State,Country/Region,Lat,Long,1/22/20,1/23/20
,Italy,43.0,12.0,0,7
B,China,31.0,111.0,3,4
A,China,30.0,110.0,1,2
";
    let mut first = CountryMap::new();
    get_results(CONFIRMED, &mut first, 6, DataType::Confirmed).unwrap();
    let mut second = CountryMap::new();
    get_results(shuffled, &mut second, 6, DataType::Confirmed).unwrap();
    assert_eq!(first.len(), second.len());
    for name in ["China", "Italy"] {
        let a = first.get(name).unwrap();
        let b = second.get(name).unwrap();
        assert_eq!(a.confirmed, b.confirmed);
        assert_eq!(a.confirmed_map, b.confirmed_map);
        assert_eq!(a.deaths_map, b.deaths_map);
        assert_eq!(a.recovered_map, b.recovered_map);
    }
}

#[test]
fn three_tables_meet_in_one_record() {
    let mut map = CountryMap::new();
    get_results(CONFIRMED, &mut map, 6, DataType::Confirmed).unwrap();
    get_results(DEATHS, &mut map, 6, DataType::Deaths).unwrap();
    get_results(RECOVERED, &mut map, 6, DataType::Recovered).unwrap();
    let china = map.get("China").unwrap();
    assert_eq!(china.confirmed, 6);
    assert_eq!(china.deaths, 2);
    assert_eq!(china.recovered, 3);
    assert_eq!(china.confirmed_map, vec![4, 6]);
    assert_eq!(china.deaths_map, vec![1, 2]);
    assert_eq!(china.recovered_map, vec![0, 3]);
    assert_eq!(map.len(), 2);
}

#[test]
fn header_count_limits_the_dates_read() {
    let mut map = CountryMap::new();
    get_results(CONFIRMED, &mut map, 5, DataType::Confirmed).unwrap();
    assert_eq!(map.get("China").unwrap().confirmed_map, vec![4]);
    assert_eq!(map.get("China").unwrap().confirmed, 4);
    let mut none = CountryMap::new();
    get_results(CONFIRMED, &mut none, 4, DataType::Confirmed).unwrap();
    assert!(none.get("China").unwrap().confirmed_map.is_empty());
    assert_eq!(none.get("China").unwrap().confirmed, 0);
}

#[test]
fn quoted_country_names_are_read_by_the_csv_reader() {
    let text = "\
Province/State,Country/Region,Lat,Long,1/22/20
,\"Korea, South\",36.0,128.0,11
";
    let mut map = CountryMap::new();
    get_results(text, &mut map, 5, DataType::Confirmed).unwrap();
    assert_eq!(map.len(), 1);
    assert_eq!(map.get("Korea, South").unwrap().confirmed, 11);
}

#[test]
fn header_map_keeps_the_date_labels() {
    let (labels, count) = get_header_map(CONFIRMED).unwrap();
    assert_eq!(labels, vec!["1/22/20".to_string(), "1/23/20".to_string()]);
    assert_eq!(count, 6);
}

#[test]
fn header_map_follows_the_pattern() {
    let text = "p,c,lat,long,12/31/20,01/02/20,1/2/20,١/٢/٢٠\n";
    let (labels, count) = get_header_map(text).unwrap();
    assert_eq!(
        labels,
        vec![
            "12/31/20".to_string(),
            "01/02/20".to_string(),
            "1/2/20".to_string(),
            "١/٢/٢٠".to_string()
        ]
    );
    assert_eq!(count, 8);
    let (none, three) = get_header_map("p,c,lat\n").unwrap();
    assert!(none.is_empty());
    assert_eq!(three, 3);
}

#[test]
fn header_row_must_be_four_columns_and_then_dates() {
    for text in [
        "p,c,lat,long,1/22/20,notes\n",
        "p,c,lat,long,1/1/2020\n",
        "p,c,lat,long,1-2-20\n",
        "p,c,lat,long, 1/2/20\n",
        "p,c,lat,long,123/1/20\n",
        "p,c,lat,1/22/20,1/23/20\n",
        "1/22/20\n",
        "p,c,lat,long,1/22/20,,1/24/20\n",
    ] {
        let e = get_header_map(text).unwrap_err();
        assert_eq!(e.kind(), ErrorKind::Header, "{text:?}");
    }
    let e = get_data("p,c,lat,long,total\n", "", "").unwrap_err();
    assert_eq!(e.kind(), ErrorKind::Header);
}

#[test]
fn header_map_of_empty_text() {
    let (labels, count) = get_header_map("").unwrap();
    assert!(labels.is_empty());
    assert_eq!(count, 0);
}

#[test]
fn select_fields_picks_flagged_fields() {
    let fields = strings(&["a", "b", "c", "d"]);
    let picked = select_fields(&fields, &vec![false, true, true, false]);
    assert_eq!(picked, strings(&["b", "c"]));
    assert!(select_fields(&Vec::new(), &Vec::new()).is_empty());
}

#[test]
fn parse_record_reads_name_and_counts() {
    let reading = parse_record(&strings(&["P", "Spain", "40", "-4", "5", "+9", "007"]), 7).unwrap();
    assert_eq!(reading.country, "Spain");
    assert_eq!(reading.values, vec![5, 9, 7]);
}

#[test]
fn parse_record_missing_field() {
    let e = parse_record(&strings(&["P", "Spain", "40", "-4", "5"]), 6).unwrap_err();
    assert_eq!(e.kind(), ErrorKind::MissingField);
    let e = parse_record(&strings(&["P"]), 0).unwrap_err();
    assert_eq!(e.kind(), ErrorKind::MissingField);
    assert!(parse_record(&strings(&["P", "Spain"]), 4).is_ok());
}

#[test]
fn parse_record_bad_count() {
    let e = parse_record(&strings(&["P", "Spain", "40", "-4", "5", "x"]), 6).unwrap_err();
    assert_eq!(e.kind(), ErrorKind::BadCount);
    let e = parse_record(&strings(&["P", "Spain", "40", "-4", "4294967296"]), 5).unwrap_err();
    assert_eq!(e.kind(), ErrorKind::BadCount);
    let e = parse_record(&strings(&["P", "Spain", "40", "-4", "1.5"]), 5).unwrap_err();
    assert_eq!(e.kind(), ErrorKind::BadCount);
}

#[test]
fn merge_stops_at_the_first_bad_row() {
    let rows = vec![
        strings(&["", "A", "0", "0", "1"]),
        strings(&["", "B", "0", "0", "oops"]),
        strings(&["", "C", "0", "0", "3"]),
    ];
    let mut map = CountryMap::new();
    let e = merge_records(&rows, &mut map, 5, DataType::Deaths).unwrap_err();
    assert_eq!(e.kind(), ErrorKind::BadCount);
    assert_eq!(map.len(), 1);
    assert_eq!(map.get("A").unwrap().deaths, 1);
    assert!(!map.contains_key("C"));
}

#[test]
fn merge_reports_overflow() {
    let rows = vec![
        strings(&["", "A", "0", "0", "4294967295"]),
        strings(&["", "A", "0", "0", "1"]),
    ];
    let mut map = CountryMap::new();
    let e = merge_records(&rows, &mut map, 5, DataType::Confirmed).unwrap_err();
    assert_eq!(e.kind(), ErrorKind::Overflow);
    assert_eq!(map.get("A").unwrap().confirmed, 4294967295);
    assert_eq!(map.get("A").unwrap().confirmed_map, vec![4294967295]);
}

#[test]
fn merge_reports_short_series() {
    let mut map = CountryMap::new();
    map.insert(Country::new("A".to_string(), 1, 0, 0, vec![1], vec![], vec![], vec![]));
    let rows = vec![strings(&["", "A", "0", "0", "1", "2"])];
    let e = merge_records(&rows, &mut map, 6, DataType::Confirmed).unwrap_err();
    assert_eq!(e.kind(), ErrorKind::SeriesLength);
    assert_eq!(map.get("A").unwrap().confirmed_map, vec![1]);
}

#[test]
fn a_series_with_other_dates_is_refused() {
    let mut map = CountryMap::new();
    map.insert(Country::new("A".to_string(), 9, 0, 0, vec![5, 9], vec![], vec![], vec![]));
    let rows = vec![strings(&["", "A", "0", "0", "1"])];
    let e = merge_records(&rows, &mut map, 5, DataType::Confirmed).unwrap_err();
    assert_eq!(e.kind(), ErrorKind::SeriesLength);
    assert_eq!(map.get("A").unwrap().confirmed_map, vec![5, 9]);
    let mut other = CountryMap::new();
    other.insert(Country::new("A".to_string(), 0, 1, 0, vec![], vec![1, 1, 1], vec![], vec![]));
    let e = merge_records(&rows, &mut other, 5, DataType::Confirmed).unwrap_err();
    assert_eq!(e.kind(), ErrorKind::SeriesLength);
}

#[test]
fn the_three_series_keep_the_same_dates() {
    let mut map = CountryMap::new();
    get_results(DEATHS, &mut map, 6, DataType::Deaths).unwrap();
    for i in 0..map.len() {
        let c = map.at(i);
        assert_eq!(c.deaths_map.len(), 2);
        assert_eq!(c.confirmed_map, vec![0, 0]);
        assert_eq!(c.recovered_map, vec![0, 0]);
        assert_eq!(c.confirmed, 0);
    }
    assert_eq!(map.get("China").unwrap().deaths_map, vec![1, 2]);
    let (labels, count) = get_header_map(DEATHS).unwrap();
    assert_eq!(count, 6);
    assert_eq!(labels.len(), map.get("China").unwrap().deaths_map.len());
}

#[test]
fn csv_error_is_reported_after_the_rows_before_it() {
    let text = "\
Province/State,Country/Region,Lat,Long,1/22/20
,A,0,0,1
,B,0,0
,C,0,0,3
";
    let mut map = CountryMap::new();
    let e = get_results(text, &mut map, 5, DataType::Confirmed).unwrap_err();
    assert_eq!(e.kind(), ErrorKind::Csv);
    assert_eq!(map.len(), 1);
    assert_eq!(map.get("A").unwrap().confirmed, 1);
}

#[test]
fn get_data_builds_records_and_total() {
    let map = get_data(CONFIRMED, DEATHS, RECOVERED).unwrap();
    assert_eq!(map.len(), 3);
    let total = map.get("TOTAL").unwrap();
    assert_eq!(total.confirmed, 13);
    assert_eq!(total.deaths, 4);
    assert_eq!(total.recovered, 4);
    assert_eq!(total.confirmed_map, vec![4, 13]);
    assert_eq!(total.deaths_map, vec![1, 4]);
    assert_eq!(total.recovered_map, vec![0, 4]);
    assert_eq!(total.headers, vec!["1/22/20".to_string(), "1/23/20".to_string()]);
    assert_eq!(map.at(0).country, "China");
    assert_eq!(map.at(1).country, "Italy");
    assert_eq!(map.at(2).country, "TOTAL");
}

#[test]
fn a_country_missing_from_a_table_counts_as_zero_there() {
    let deaths = "\
Province/State,Country/Region,Lat,Long,1/22/20,1/23/20
A,China,30.0,110.0,0,1
";
    let map = get_data(CONFIRMED, deaths, RECOVERED).unwrap();
    let italy = map.get("Italy").unwrap();
    assert_eq!(italy.confirmed_map, vec![0, 7]);
    assert_eq!(italy.deaths_map, vec![0, 0]);
    assert_eq!(italy.deaths, 0);
    assert_eq!(italy.recovered_map, vec![0, 1]);
    let total = map.get("TOTAL").unwrap();
    assert_eq!(total.deaths, 1);
    assert_eq!(total.deaths_map, vec![0, 1]);
    assert_eq!(total.confirmed_map, vec![4, 13]);
    for i in 0..map.len() {
        let c = map.at(i);
        assert_eq!(c.confirmed_map.len(), total.headers.len());
        assert_eq!(c.deaths_map.len(), total.headers.len());
        assert_eq!(c.recovered_map.len(), total.headers.len());
    }
}

#[test]
fn get_data_rejects_bad_counts() {
    let deaths = "\
Province/State,Country/Region,Lat,Long,1/22/20,1/23/20
A,China,30.0,110.0,0,-1
";
    let e = get_data(CONFIRMED, deaths, RECOVERED).unwrap_err();
    assert_eq!(e.kind(), ErrorKind::BadCount);
}

#[test]
fn get_data_of_header_only_tables() {
    let header = "Province/State,Country/Region,Lat,Long,1/22/20\n";
    let map = get_data(header, header, header).unwrap();
    assert_eq!(map.len(), 1);
    let total = map.get("TOTAL").unwrap();
    assert_eq!(total.confirmed, 0);
    assert_eq!(total.confirmed_map, vec![0]);
    assert_eq!(total.deaths_map, vec![0]);
    assert_eq!(total.recovered_map, vec![0]);
    assert_eq!(total.headers, vec!["1/22/20".to_string()]);
}

#[test]
fn tables_can_come_in_any_order() {
    let mut map = CountryMap::new();
    get_results(DEATHS, &mut map, 6, DataType::Deaths).unwrap();
    get_results(CONFIRMED, &mut map, 6, DataType::Confirmed).unwrap();
    let china = map.get("China").unwrap();
    assert_eq!(china.confirmed_map, vec![4, 6]);
    assert_eq!(china.deaths_map, vec![1, 2]);
    assert_eq!(china.confirmed, 6);
    assert_eq!(china.deaths, 2);
}

#[test]
fn a_row_named_like_the_summary_is_no_term_of_it() {
    let confirmed = "\
Province/State,Country/Region,Lat,Long,1/22/20
,TOTAL,0,0,5
,Peru,0,0,2
";
    let empty = "Province/State,Country/Region,Lat,Long,1/22/20\n";
    let map = get_data(confirmed, empty, empty).unwrap();
    assert_eq!(map.len(), 2);
    assert_eq!(map.get("TOTAL").unwrap().confirmed, 2);
    assert_eq!(map.get("TOTAL").unwrap().confirmed_map, vec![2]);
    assert_eq!(map.get("TOTAL").unwrap().deaths_map, vec![0]);
    assert_eq!(map.at(0).country, "TOTAL");
    assert_eq!(map.at(1).country, "Peru");
}
