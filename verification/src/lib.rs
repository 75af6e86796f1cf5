//! Core runtime logic of a DNS forwarding pipeline: per-query phases,
//! client ACLs, backend health, routing, rules and the answer cache.

pub mod acl;
pub mod phase;
pub mod net;
pub mod clock;
pub mod lookup;
pub mod health;
pub mod text;
pub mod string_map;
pub mod parse_reject;
pub mod routing;
pub mod transaction;
pub mod rules;
pub mod pipeline;
pub mod orchestrator;
pub mod structural_parse;
pub mod dns_message;
pub mod stages;
pub mod configurator;
pub mod runtime_view;
pub mod pool_edit;
pub mod config_edit;
pub mod snapshot;
