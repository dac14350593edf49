//! Core runtime logic of a Ray-style distributed task framework: identifiers,
//! the in-memory object store, the metadata store, worker bookkeeping and the
//! node-local scheduling state machine.

pub mod error;
pub mod text;
pub mod table;
pub mod id;
pub mod object_store;
pub mod types;
pub mod gcs_store;
pub mod worker;
pub mod local_scheduler;
pub mod shared_memory;
pub mod serialize;
pub mod global_scheduler;
pub mod executor;
pub mod runtime;
