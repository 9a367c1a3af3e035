//! Aggregation of per-country case counts from time-series tables, and the
//! table, chart and selection state of a dashboard that shows them.

pub mod aggregate;
pub mod app;
pub mod countries;
pub mod country;
pub mod error;
pub mod independence;
pub mod load;
pub mod order;
pub mod percent;
pub mod reader;
pub mod series;
pub mod summary;
pub mod table;
pub mod text;
pub mod util;
