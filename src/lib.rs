//! Mirrors the RFC index: parses the published index, works out which
//! documents are missing locally, and tracks the concurrent download run.
pub mod resolve;
pub mod text;
pub mod index;
pub mod pipeline;
