//! The track storage engine.

pub mod clock;
pub mod compact;
pub mod compact_proofs;
pub mod entry;
pub mod error;
pub mod file_proofs;
pub mod header;
pub mod interpolate;
pub mod layout;
pub mod memory;
pub mod metafile;
pub mod shard;
pub mod store;
pub mod trackfile;
