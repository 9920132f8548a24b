//! Chinese public holidays.

pub mod api;
pub mod calendar;
pub mod db;
pub mod importer;
pub mod laws;
pub mod model;
pub mod probe;
pub mod record_map;
pub mod report;
pub mod sqlite;
pub mod terminal;
pub mod text;
