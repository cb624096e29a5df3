//! What the central service answers on each of its routes.

pub mod context;
pub mod discover_node;
pub mod get_indices;
pub mod keyword_search;
pub mod logstash_noty;
pub mod query;
pub mod search;
pub mod unique_services;
