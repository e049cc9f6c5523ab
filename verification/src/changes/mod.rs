//! Change detection between two pinned versions of one table.

pub mod batch;
pub mod blob;
pub mod candidate_scan;
pub mod emit_source;
pub mod enumerate;
pub mod field_types;
pub mod filter;
pub mod history;
pub mod merge_laws;
pub mod model;
pub mod prepare;
pub mod prepare_laws;
pub mod row_compare;
pub mod row_laws;
pub mod runs;
pub mod scan;
pub mod schema;
pub mod table;
pub mod upserts;
