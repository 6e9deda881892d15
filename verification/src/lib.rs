//! Core data model and serialization layer of a mock blockchain ledger:
//! the canonical binary encoding of blocks, headers, witnesses, stake-pool
//! identifiers and protocol-parameter updates, together with the
//! hierarchical-deterministic address payload codec.

pub mod packer;
pub mod cbor;
pub mod hash;
pub mod keys;
pub mod hdpayload;
pub mod setting;
pub mod witness;
pub mod stake;
pub mod message;
pub mod header;
pub mod block;
