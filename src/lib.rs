//! Bulk management of page labels ("tags") on a wiki: query pagination,
//! tag resolution, per-page mutation plans, bounded retry decisions and the
//! aggregation of per-page outcomes into one run summary.

pub mod text;
pub mod model;
pub mod pattern;
pub mod resolve;
pub mod pairs;
pub mod mutation;
pub mod batch;
pub mod retry;
pub mod paging;
pub mod client;
pub mod script;
pub mod ops;
pub mod render;
pub mod tree;

pub use model::OutputFormat;
