//! The graph manifest: its tables and its birth.

pub mod genesis;
pub mod graph;
pub mod keyed_schema;
pub mod state;
