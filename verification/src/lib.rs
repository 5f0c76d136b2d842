//! A generated entity component system: the verified runtime core.

pub mod index;
pub mod version;
pub mod slot;
pub mod error;
pub mod entity;
pub mod storage;
pub mod names;
pub mod cfg;
pub mod ids;
pub mod data;
pub mod query;
pub mod parse;
pub mod iter;
pub mod traits;
pub mod codec;
pub mod syntax;

pub use index::TrimmedIndex;
