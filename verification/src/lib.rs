//! A fan-out service core for a Solana-style blockchain: it deduplicates
//! redundant upstream update streams into one monotonic stream, normalizes
//! raw transaction updates into a compact render-ready value, compiles
//! declarative subscription queries into filters, evaluates them into
//! per-transaction selection sets, and renders JSON notifications containing
//! exactly the selected items and fields.
pub mod data;
pub mod ingest;
pub mod json_builder;
pub mod query;
pub mod server;
