//! Pipeline stages whose work is a single decision on the transaction.

pub mod request_rules;
pub mod response_rules;
pub mod send;
pub mod route;
