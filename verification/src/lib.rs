//! City measurements in memory: a dataset of `city;measurement` rows is read
//! into a two-column table, queried by city, and the matches are rendered as text.

pub mod formatter;
pub mod measurement;
pub mod rows;
pub mod service;
pub mod table;
pub mod text;
