//! A typed memory store for AI agents: explicit and implicit memory pools,
//! links between memories, spreading activation over those links, and
//! time-based consolidation.

pub mod text;
pub mod ids;
pub mod kinds;
pub mod types;
pub mod store;
pub mod arith;
pub mod ranking;
pub mod laws;
pub mod spreading;
pub mod consolidation;
pub mod pool;
pub mod vision;
pub mod embedding;
pub mod extractor;
pub mod mcp;
pub mod sql;
