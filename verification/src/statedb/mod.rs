//! Offline indexing of inscriptions by the output that holds them.

pub mod outpoint;
pub mod outpoint_inscriptions;
pub mod text;
