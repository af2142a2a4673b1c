//! The client of the chunk database.

pub mod error;
pub mod retry;
pub mod transport;
