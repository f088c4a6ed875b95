//! Host name resolution as a verified decision procedure.
//!
//! The operating system's resolver hands out a linked list of candidate
//! addresses that must be walked, rendered node by node into numeric text,
//! and released exactly once.  This library holds every decision of that
//! pipeline: which hint to send, what to do with each answer of the system,
//! how numeric text is read as an address, and when the list is released.
//! The system calls themselves are made by a driver that follows the
//! requests of [`resolution::Stage`].

pub mod address;
pub mod error;
pub mod hint;
pub mod laws;
pub mod literal;
pub mod resolution;
