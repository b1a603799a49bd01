//! Oriel turns captioned long-form video into timestamp-grounded evidence.
//!
//! The library holds the engine's logic: source identity, caption
//! normalisation, evidence compilation and validation, lexical retrieval,
//! fixture parsing and the decisions that drive acquisition, caching and
//! transport. Input and output live in the application around it.

pub mod text;
pub mod evidence;
pub mod source;
pub mod search;
pub mod compile;
pub mod fixture;
pub mod engine;
pub mod cli;
pub mod store;
pub mod mcp;
pub mod provider;
