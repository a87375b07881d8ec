//! Ingestion-and-query engine for line-oriented text logs: a declarative
//! line parser, a small filter language compiled to SQL, the producer side of
//! the loading pipeline and the windowing rules of a paginated reader.

pub mod config;
pub mod datetime;
pub mod db;
pub mod logalang;
pub mod parse;
pub mod pipeline;
pub mod report;
pub mod window;
