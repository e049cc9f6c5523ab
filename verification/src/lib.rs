//! Change detection, storage-failure classification and manifest birth of a
//! versioned graph store.

pub mod changes;
pub mod error;
pub mod manifest;
pub mod storage;
pub mod text;
