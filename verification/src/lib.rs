//! Transaction sequencing core of a layer-2 ledger node.

pub mod accumulator;
pub mod codec;
pub mod crypto;
pub mod hash;
pub mod indexer;
pub mod ledger_transaction;
pub mod natives;
pub mod sequencer;
pub mod service_status;
pub mod statedb;
