//! What the indexer store computes before it talks to its database.

pub mod sql;
