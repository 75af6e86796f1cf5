//! Backend health runtime: per-backend state side-table and operator
//! controls over it.

pub mod compiled;
pub mod control;
pub mod probe;
pub mod scrape;
pub mod state;
pub mod table;
