//! Deadlock detection: cycles among threads that wait for resources which other waiting threads
//! own.

pub mod cycles;
pub mod history;
pub mod laws;
pub mod resources;
pub mod wait_graph;
