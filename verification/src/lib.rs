//! Retrieval logic for episodic memory: query caching, cascade decisions,
//! evidence classification, signatures, windows and evaluation statistics.

pub mod text;
pub mod cache_key;
pub mod recency;
pub mod query_cache;
pub mod cascade;
pub mod judgment;
pub mod windows;
pub mod signature;
pub mod evidence;
pub mod eval;
pub mod shard;
pub mod gist;
pub mod rerank;
pub mod tiers;
pub mod evidence_stage;
pub mod json;
