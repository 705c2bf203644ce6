//! A federated Byzantine agreement engine: quorum slices, the searches over
//! them, and the per-slot state machine that drives nomination and balloting.

pub mod ballot;
pub mod message;
pub mod message_cache;
pub mod node;
pub mod node_set;
pub mod predicate;
pub mod quorum;
pub mod slot;
pub mod slot_map;
pub mod slot_view;
pub mod topic;
pub mod value;
pub mod value_set;
