//! In-memory vector index serving exact nearest-neighbour (cosine
//! similarity) lookups against a corpus of fixed-dimension embeddings,
//! with durable snapshot/restore.
//!
//! Vector components are handled throughout as raw IEEE-754 binary32 bit
//! patterns (`u32`), so every structural guarantee of the engine — the
//! flat storage layout, bounds of every row access, the strict-greater
//! selection rule with its tie-break, the snapshot round trip — is stated
//! and machine-checked exactly. Rounding arithmetic itself is delegated
//! to a software implementation of the binary32 operations behind narrow,
//! clearly marked trusted wrappers.

pub mod arith;
pub mod codec;
pub mod config;
pub mod ieee;
pub mod kernel;
pub mod search;
pub mod storage;
pub mod store;
pub mod types;

pub use codec::LoadError;
pub use config::AppConfig;
pub use config::CliConfig;
pub use storage::Storage;
pub use store::Abkve;
pub use store::SearchResult;
pub use types::VectorDocument;

pub use ieee::ONE_BITS;
pub use ieee::PLUS_INF_BITS;
pub use ieee::MINUS_INF_BITS;
pub use ieee::NORM_FLOOR_BITS;
