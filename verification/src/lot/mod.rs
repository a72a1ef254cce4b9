//! The parking lot: queues of sleeping threads, found by the address they wait on.

pub mod bucket;
pub mod hash_table;
pub mod laws;
pub mod locking;
pub mod parking;
pub mod system;
pub mod thread_list;
pub mod types;
