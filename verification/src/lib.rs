//! Translation of FROM-WHERE-SELECT queries into standard SQL, the
//! connection settings read from the configuration file, and the text
//! table in which query results are shown.

pub mod text;
pub mod lqs;
pub mod config;
pub mod table;
pub mod connector;
pub mod laws;
pub mod session;
