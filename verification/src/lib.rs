//! First-in-first-out queues under one verified push/pop contract: an
//! intrusive multi-producer/single-consumer queue with a tri-state pop, a
//! Michael-Scott style multi-producer/multi-consumer queue, a blocking
//! baseline adapter, and the crossbeam queue behind the same interface.
//!
//! The lock-free algorithms are modelled over an arena of nodes addressed
//! by index, so the linked-chain structure, the transient states of the
//! push protocols, and node reclamation are all part of the verified state.

pub mod blocking;
pub mod ext;
pub mod iface;
pub mod mpsc;
pub mod ms;
pub mod pool;
