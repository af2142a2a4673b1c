//! The client of the disk database.

pub mod error;
pub mod requests;
pub mod responses;
