//! The country record and its mathematical view.

use vstd::prelude::*;
use vstd::string::*;
use crate::percent::{get_percentage, percentage_of, percentage_text};
use crate::text::{decimal, decimal_text, texts};

verus! {

/// Which of the three datasets a value belongs to.
#[derive(Clone, Copy, Debug, PartialEq, Eq, Structural)]
pub enum DataType {
    Confirmed,
    Deaths,
    Recovered,
}

/// The counts of one country: three running totals, three time series with
/// one value per reporting date, and the date labels (only the summary record
/// carries labels).
#[derive(Clone, Debug)]
pub struct Country {
    pub country: String,
    pub confirmed: u32,
    pub deaths: u32,
    pub recovered: u32,
    pub confirmed_map: Vec<u32>,
    pub deaths_map: Vec<u32>,
    pub recovered_map: Vec<u32>,
    pub headers: Vec<String>,
}

/// A country record as mathematics: unbounded counts, sequences for the series.
pub struct CountryView {
    pub country: Seq<char>,
    pub confirmed: nat,
    pub deaths: nat,
    pub recovered: nat,
    pub confirmed_map: Seq<nat>,
    pub deaths_map: Seq<nat>,
    pub recovered_map: Seq<nat>,
    pub headers: Seq<Seq<char>>,
}

/// A series of machine counts as a series of natural numbers.
pub open spec fn counts(s: Seq<u32>) -> Seq<nat> {
    Seq::new(s.len(), |i: int| s[i] as nat)
}

impl View for Country {
    type V = CountryView;

    open spec fn view(&self) -> CountryView {
        CountryView {
            country: self.country@,
            confirmed: self.confirmed as nat,
            deaths: self.deaths as nat,
            recovered: self.recovered as nat,
            confirmed_map: counts(self.confirmed_map@),
            deaths_map: counts(self.deaths_map@),
            recovered_map: counts(self.recovered_map@),
            headers: texts(self.headers@),
        }
    }
}

impl CountryView {
    /// The running total of the dataset `data_type`.
    pub open spec fn counter(self, data_type: DataType) -> nat {
        match data_type {
            DataType::Confirmed => self.confirmed,
            DataType::Deaths => self.deaths,
            DataType::Recovered => self.recovered,
        }
    }

    /// Whether each of the three series has one value for each of `n` dates.
    pub open spec fn dated(self, n: nat) -> bool {
        &&& self.confirmed_map.len() == n
        &&& self.deaths_map.len() == n
        &&& self.recovered_map.len() == n
    }

    /// The time series of the dataset `data_type`.
    pub open spec fn series(self, data_type: DataType) -> Seq<nat> {
        match data_type {
            DataType::Confirmed => self.confirmed_map,
            DataType::Deaths => self.deaths_map,
            DataType::Recovered => self.recovered_map,
        }
    }
}

/// A share as a table cell: the share, then a percent sign.
pub open spec fn share_cell(part: nat, total: nat) -> Seq<char> {
    percentage_text(percentage_of(part, total)) + seq!['%']
}

/// The cells of a record's row in the table.
pub open spec fn row_text(c: CountryView) -> Seq<Seq<char>> {
    seq![
        c.country,
        decimal_text(c.confirmed),
        decimal_text(c.deaths),
        share_cell(c.deaths, c.confirmed),
        decimal_text(c.recovered),
        share_cell(c.recovered, c.confirmed),
    ]
}

impl Country {
    /// A record made of the given parts.
    pub fn new(
        country: String,
        confirmed: u32,
        deaths: u32,
        recovered: u32,
        confirmed_map: Vec<u32>,
        deaths_map: Vec<u32>,
        recovered_map: Vec<u32>,
        headers: Vec<String>,
    ) -> (r: Country)
        ensures
            r.country == country,
            r.confirmed == confirmed,
            r.deaths == deaths,
            r.recovered == recovered,
            r.confirmed_map == confirmed_map,
            r.deaths_map == deaths_map,
            r.recovered_map == recovered_map,
            r.headers == headers,
    {
        Country {
            country,
            confirmed,
            deaths,
            recovered,
            confirmed_map,
            deaths_map,
            recovered_map,
            headers,
        }
    }

    /// The cells of the record's row in the table: the name, the confirmed
    /// cases, the deaths and their share in the confirmed cases, the
    /// recoveries and their share in the confirmed cases.
    pub fn get_row(&self) -> (row: Vec<String>)
        ensures
            texts(row@) == row_text(self@),
    {
        let mut death_share = get_percentage(self.deaths, self.confirmed).render();
        let mut recovery_share = get_percentage(self.recovered, self.confirmed).render();
        proof {
            reveal_strlit("%");
        }
        death_share.append("%");
        recovery_share.append("%");
        assert("%"@ =~= seq!['%']);
        let mut row: Vec<String> = Vec::new();
        row.push(self.country.clone());
        row.push(decimal(self.confirmed as u64));
        row.push(decimal(self.deaths as u64));
        row.push(death_share);
        row.push(decimal(self.recovered as u64));
        row.push(recovery_share);
        assert(texts(row@) =~= row_text(self@));
        row
    }

    /// The time series of the dataset `data_type`.
    pub fn series(&self, data_type: DataType) -> (r: &Vec<u32>)
        ensures
            counts(r@) == self@.series(data_type),
    {
        match data_type {
            DataType::Confirmed => &self.confirmed_map,
            DataType::Deaths => &self.deaths_map,
            DataType::Recovered => &self.recovered_map,
        }
    }

    /// The running total of the dataset `data_type`.
    pub fn counter(&self, data_type: DataType) -> (r: u32)
        ensures
            r == self@.counter(data_type),
    {
        match data_type {
            DataType::Confirmed => self.confirmed,
            DataType::Deaths => self.deaths,
            DataType::Recovered => self.recovered,
        }
    }
}

} // verus!
