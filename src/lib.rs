//! Local-first replicated content store: entity collections, a logical clock,
//! a sync-status state machine, a deterministic merge engine and a codec.

pub mod collection;
pub mod model;
pub mod state;
pub mod laws;
pub mod wire;
pub mod records;
pub mod codec;
