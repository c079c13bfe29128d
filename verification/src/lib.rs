//! Command-history bookkeeping for a shell: records, search queries,
//! ranking, the interactive picker and the reports built on them.
pub mod text;
pub mod schema;
pub mod config;
pub mod query;
pub mod store;
pub mod fzf;
pub mod order;
pub mod ranking;
pub mod picker;
pub mod stats;
pub mod record;
pub mod listing;
