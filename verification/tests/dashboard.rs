use corona_stats::aggregate::{absorb_reading, merge_reading, Reading};
use corona_stats::app::{Action, App, Key};
use corona_stats::countries::CountryMap;
use corona_stats::country::{Country, DataType};
use corona_stats::error::ErrorKind;
use corona_stats::order::sorted_order;
use corona_stats::summary::{add_summary, summarise, TOTAL};
use corona_stats::table::{get_chart_from_country, get_table_columns, update_data};
use corona_stats::util::{Config, Event};

fn country(name: &str, confirmed: u32, deaths: u32, recovered: u32) -> Country {
    Country::new(
        name.to_string(),
        confirmed,
        deaths,
        recovered,
        vec![confirmed / 2, confirmed],
        vec![deaths / 2, deaths],
        vec![recovered / 2, recovered],
        Vec::new(),
    )
}

fn sample() -> CountryMap {
    let mut map = CountryMap::new();
    map.insert(country("Spain", 50, 9, 20));
    map.insert(country("China", 100, 5, 60));
    map.insert(country("Italy", 80, 12, 10));
    map.insert(country("France", 50, 3, 25));
    map
}

#[test]
fn new_app_selects_first_row() {
    assert_eq!(App::new().selected, 0);
}

#[test]
fn selection_wraps_around() {
    let mut app = App::new();
    app.previous(4);
    assert_eq!(app.selected, 3);
    app.next(4);
    assert_eq!(app.selected, 0);
    app.next(4);
    assert_eq!(app.selected, 1);
    app.previous(4);
    assert_eq!(app.selected, 0);
    let mut single = App::new();
    single.next(1);
    assert_eq!(single.selected, 0);
    single.previous(1);
    assert_eq!(single.selected, 0);
}

#[test]
fn keys_and_actions() {
    let mut app = App::new();
    assert_eq!(app.on_event(Event::Input(Key::Char('q')), 3), Action::Quit);
    assert_eq!(app.on_event(Event::Input(Key::Esc), 3), Action::Quit);
    assert_eq!(app.on_event(Event::Input(Key::Char('c')), 3), Action::Sort(DataType::Confirmed));
    assert_eq!(app.on_event(Event::Input(Key::Char('d')), 3), Action::Sort(DataType::Deaths));
    assert_eq!(app.on_event(Event::Input(Key::Char('r')), 3), Action::Sort(DataType::Recovered));
    assert_eq!(app.on_event(Event::Input(Key::Char('x')), 3), Action::Ignore);
    assert_eq!(app.on_event(Event::Input(Key::Other), 3), Action::Ignore);
    assert_eq!(app.on_event(Event::Tick, 3), Action::Ignore);
    assert_eq!(app.selected, 0);
    assert_eq!(app.on_event(Event::Input(Key::Up), 3), Action::Select);
    assert_eq!(app.selected, 2);
    assert_eq!(app.on_event(Event::Input(Key::Down), 3), Action::Select);
    assert_eq!(app.selected, 0);
    assert_eq!(app.on_event(Event::Input(Key::Down), 3), Action::Select);
    assert_eq!(app.selected, 1);
    assert_eq!(app.on_event(Event::Input(Key::Char('q')), 0), Action::Quit);
}

#[test]
fn scroll_offset_follows_selection() {
    let mut app = App::new();
    assert_eq!(app.scroll_offset(20), 0);
    app.selected = 14;
    assert_eq!(app.scroll_offset(20), 0);
    app.selected = 15;
    assert_eq!(app.scroll_offset(20), 0);
    app.selected = 16;
    assert_eq!(app.scroll_offset(20), 1);
    app.selected = 40;
    assert_eq!(app.scroll_offset(20), 25);
    assert_eq!(app.scroll_offset(4), 0);
    assert_eq!(app.scroll_offset(5), 40);
}

#[test]
fn default_config_ticks_every_second() {
    assert_eq!(Config::default().tick_rate, 1000);
}

#[test]
fn order_is_descending_and_stable() {
    assert_eq!(sorted_order(&vec![50, 100, 80, 50]), vec![1, 2, 0, 3]);
    assert_eq!(sorted_order(&vec![]), Vec::<usize>::new());
    assert_eq!(sorted_order(&vec![7, 7, 7]), vec![0, 1, 2]);
    assert_eq!(sorted_order(&vec![1, 2, 3]), vec![2, 1, 0]);
}

#[test]
fn table_is_sorted_by_the_chosen_dataset() {
    let map = sample();
    let by_confirmed = get_table_columns(&map, DataType::Confirmed);
    let names: Vec<&str> = by_confirmed.iter().map(|row| row[0].as_str()).collect();
    assert_eq!(names, vec!["China", "Italy", "Spain", "France"]);
    let by_deaths = get_table_columns(&map, DataType::Deaths);
    let names: Vec<&str> = by_deaths.iter().map(|row| row[0].as_str()).collect();
    assert_eq!(names, vec!["Italy", "Spain", "China", "France"]);
    let by_recovered = get_table_columns(&map, DataType::Recovered);
    let names: Vec<&str> = by_recovered.iter().map(|row| row[0].as_str()).collect();
    assert_eq!(names, vec!["China", "France", "Spain", "Italy"]);
    for (table, column) in [(&by_confirmed, 1), (&by_deaths, 2), (&by_recovered, 4)] {
        let counts: Vec<u32> = table.iter().map(|row| row[column].parse().unwrap()).collect();
        assert!(counts.windows(2).all(|pair| pair[0] >= pair[1]));
    }
    assert_eq!(
        by_confirmed[0],
        vec!["China", "100", "5", "5.00%", "60", "60.00%"]
            .into_iter()
            .map(String::from)
            .collect::<Vec<String>>()
    );
    assert!(get_table_columns(&CountryMap::new(), DataType::Deaths).is_empty());
}

#[test]
fn total_is_the_sum_of_the_countries() {
    let mut map = sample();
    add_summary(&mut map, vec!["1/22/20".to_string(), "1/23/20".to_string()]);
    assert_eq!(map.len(), 5);
    let total = map.get(TOTAL).unwrap();
    assert_eq!(total.country, "TOTAL");
    assert_eq!(total.confirmed, 280);
    assert_eq!(total.deaths, 29);
    assert_eq!(total.recovered, 115);
    assert_eq!(total.confirmed_map, vec![140, 280]);
    assert_eq!(total.deaths_map, vec![13, 29]);
    assert_eq!(total.recovered_map, vec![57, 115]);
    assert_eq!(total.headers, vec!["1/22/20".to_string(), "1/23/20".to_string()]);
    let mut confirmed = 0;
    let mut deaths = 0;
    let mut recovered = 0;
    for i in 0..map.len() {
        let c = map.at(i);
        if c.country != TOTAL {
            confirmed += c.confirmed;
            deaths += c.deaths;
            recovered += c.recovered;
        }
    }
    assert_eq!((total.confirmed, total.deaths, total.recovered), (confirmed, deaths, recovered));
}

#[test]
fn a_second_summary_changes_nothing() {
    let labels = vec!["1/22/20".to_string(), "1/23/20".to_string()];
    let mut map = sample();
    add_summary(&mut map, labels.clone());
    add_summary(&mut map, labels.clone());
    assert_eq!(map.len(), 5);
    let total = map.get(TOTAL).unwrap();
    assert_eq!(total.confirmed, 280);
    assert_eq!(total.deaths, 29);
    assert_eq!(total.recovered, 115);
    assert_eq!(total.confirmed_map, vec![140, 280]);
    assert_eq!(total.deaths_map, vec![13, 29]);
    assert_eq!(total.recovered_map, vec![57, 115]);
    assert_eq!(total.headers, labels);
    assert_eq!(map.at(4).country, TOTAL);
}

#[test]
fn total_of_no_countries() {
    let mut map = CountryMap::new();
    add_summary(&mut map, vec!["1/22/20".to_string()]);
    let total = map.get(TOTAL).unwrap();
    assert_eq!(total.confirmed, 0);
    assert_eq!(total.confirmed_map, vec![0]);
    assert_eq!(total.deaths_map, vec![0]);
    assert_eq!(total.recovered_map, vec![0]);
    assert_eq!(total.headers, vec!["1/22/20".to_string()]);
}

#[test]
fn summarise_rejects_series_with_other_dates() {
    let labels = vec!["1/22/20".to_string(), "1/23/20".to_string()];
    let mut map = sample();
    assert!(summarise(&map, labels.clone()).is_ok());
    assert_eq!(summarise(&map, Vec::new()).unwrap_err().kind(), ErrorKind::SeriesLength);
    map.insert(Country::new("Chad".to_string(), 1, 0, 0, vec![1], vec![0, 0], vec![0, 0], vec![]));
    assert_eq!(summarise(&map, labels).unwrap_err().kind(), ErrorKind::SeriesLength);
}

#[test]
fn summarise_rejects_sums_that_do_not_fit() {
    let mut map = CountryMap::new();
    map.insert(Country::new("A".to_string(), u32::MAX, 0, 0, vec![], vec![], vec![], vec![]));
    map.insert(Country::new("B".to_string(), 1, 0, 0, vec![], vec![], vec![], vec![]));
    assert_eq!(summarise(&map, Vec::new()).unwrap_err().kind(), ErrorKind::Overflow);
    let label = vec!["1/22/20".to_string()];
    let mut series = CountryMap::new();
    series.insert(Country::new("A".to_string(), 0, 0, 0, vec![0], vec![u32::MAX], vec![0], vec![]));
    series.insert(Country::new("B".to_string(), 0, 0, 0, vec![0], vec![1], vec![0], vec![]));
    assert_eq!(summarise(&series, label.clone()).unwrap_err().kind(), ErrorKind::Overflow);
    series.insert(Country::new("B".to_string(), 0, 0, 0, vec![0], vec![0], vec![0], vec![]));
    assert_eq!(summarise(&series, label).unwrap().deaths_map, vec![u32::MAX]);
    let mut fits = CountryMap::new();
    fits.insert(Country::new("A".to_string(), u32::MAX - 1, 0, 0, vec![], vec![], vec![], vec![]));
    fits.insert(Country::new("B".to_string(), 1, 0, 0, vec![], vec![], vec![], vec![]));
    assert_eq!(summarise(&fits, Vec::new()).unwrap().confirmed, u32::MAX);
    fits.insert(Country::new(TOTAL.to_string(), 7, 7, 7, vec![1, 2, 3], vec![], vec![], vec![]));
    assert_eq!(summarise(&fits, Vec::new()).unwrap().confirmed, u32::MAX);
}

#[test]
fn chart_points_count_the_dates() {
    let map = sample();
    let (confirmed, deaths, recovered) = get_chart_from_country(&map, "Italy".to_string());
    assert_eq!(confirmed, vec![(0, 40), (1, 80)]);
    assert_eq!(deaths, vec![(0, 6), (1, 12)]);
    assert_eq!(recovered, vec![(0, 5), (1, 10)]);
}

#[test]
fn update_data_takes_the_selected_row() {
    let map = sample();
    let table = get_table_columns(&map, DataType::Confirmed);
    let mut confirmed = Vec::new();
    let mut deaths = vec![(9, 9)];
    let mut recovered = Vec::new();
    let name = update_data(&map, &table, 2, &mut confirmed, &mut deaths, &mut recovered);
    assert_eq!(name, "Spain");
    assert_eq!(confirmed, vec![(0, 25), (1, 50)]);
    assert_eq!(deaths, vec![(0, 4), (1, 9)]);
    assert_eq!(recovered, vec![(0, 10), (1, 20)]);
}

#[test]
fn insert_replaces_a_record_of_the_same_name() {
    let mut map = sample();
    map.insert(country("China", 1, 1, 1));
    assert_eq!(map.len(), 4);
    assert_eq!(map.at(1).confirmed, 1);
    assert_eq!(map.find("China"), Some(1));
    assert_eq!(map.find("Peru"), None);
    assert!(map.contains_key("Italy"));
    assert!(!map.contains_key("italy"));
    assert!(map.get("Peru").is_none());
}

#[test]
fn counters_and_series_by_dataset() {
    let c = country("Peru", 8, 4, 2);
    assert_eq!(c.counter(DataType::Confirmed), 8);
    assert_eq!(c.counter(DataType::Deaths), 4);
    assert_eq!(c.counter(DataType::Recovered), 2);
    assert_eq!(c.series(DataType::Confirmed), &vec![4, 8]);
    assert_eq!(c.series(DataType::Deaths), &vec![2, 4]);
    assert_eq!(c.series(DataType::Recovered), &vec![1, 2]);
}

#[test]
fn absorb_reading_adds_or_creates() {
    let mut map = CountryMap::new();
    absorb_reading(
        &mut map,
        Reading { country: "Peru".to_string(), values: vec![1, 2] },
        DataType::Recovered,
    )
    .unwrap();
    absorb_reading(
        &mut map,
        Reading { country: "Peru".to_string(), values: vec![10, 20] },
        DataType::Recovered,
    )
    .unwrap();
    absorb_reading(
        &mut map,
        Reading { country: "Chile".to_string(), values: vec![] },
        DataType::Recovered,
    )
    .unwrap();
    assert_eq!(map.len(), 2);
    let peru = map.get("Peru").unwrap();
    assert_eq!(peru.recovered, 22);
    assert_eq!(peru.recovered_map, vec![11, 22]);
    assert_eq!(peru.confirmed, 0);
    assert_eq!(peru.confirmed_map, vec![0, 0]);
    assert_eq!(peru.deaths_map, vec![0, 0]);
    let chile = map.get("Chile").unwrap();
    assert_eq!(chile.recovered, 0);
    assert!(chile.recovered_map.is_empty());
}

#[test]
fn equal_counts_keep_their_stored_order_in_the_table() {
    let mut map = CountryMap::new();
    map.insert(country("Peru", 5, 0, 0));
    add_summary(&mut map, vec!["1/22/20".to_string(), "1/23/20".to_string()]);
    let table = get_table_columns(&map, DataType::Confirmed);
    assert_eq!(table[0][0], "Peru");
    assert_eq!(table[1][0], "TOTAL");
    assert_eq!(table[1][3], "0.00%");
}

#[test]
fn merge_reading_fills_the_datasets_not_yet_read() {
    let known = Country::new("Peru".to_string(), 3, 0, 0, vec![1, 3], vec![], vec![], vec![]);
    let reading = Reading { country: "Peru".to_string(), values: vec![2, 5] };
    let next = merge_reading(&known, &reading, DataType::Deaths).unwrap();
    assert_eq!(next.country, "Peru");
    assert_eq!((next.confirmed, next.deaths, next.recovered), (3, 5, 0));
    assert_eq!(next.confirmed_map, vec![1, 3]);
    assert_eq!(next.deaths_map, vec![2, 5]);
    assert_eq!(next.recovered_map, vec![0, 0]);
    let again = merge_reading(&next, &reading, DataType::Deaths).unwrap();
    assert_eq!(again.deaths_map, vec![4, 10]);
    assert_eq!(again.deaths, 10);
    let short = Reading { country: "Peru".to_string(), values: vec![2] };
    assert_eq!(
        merge_reading(&next, &short, DataType::Deaths).unwrap_err().kind(),
        ErrorKind::SeriesLength
    );
    let big = Reading { country: "Peru".to_string(), values: vec![u32::MAX, 0] };
    assert_eq!(
        merge_reading(&next, &big, DataType::Deaths).unwrap_err().kind(),
        ErrorKind::Overflow
    );
}
