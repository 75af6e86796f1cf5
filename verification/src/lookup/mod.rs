//! Lookup phase: ordered providers (cache, forward, ...) on one spine.

pub mod cache;
pub mod outcome;
pub mod stage;
