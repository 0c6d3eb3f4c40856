//! Multi-language parsing engine and code-graph aggregation model.

pub mod registry;
pub mod text;
pub mod syntax;
pub mod parsed;
pub mod engine;
pub mod graph;
pub mod report;
pub mod git;
pub mod workspace;
pub mod store;
pub mod order;
