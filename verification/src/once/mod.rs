//! One-time initialization.
//!
//! The whole state of a [`Once`] is one byte, which threads change by single atomic operations.
//! [`word`] says what the byte means, [`call`] what a thread does about it, and [`system`] what
//! that amounts to when any number of threads do so at the same time.

pub mod call;
pub mod cell;
pub mod laws;
pub mod system;
pub mod word;

pub use cell::Once;
pub use word::OnceState;
