//! The client side of the key-value store: the registry of live services.

pub mod ffi;
pub mod registry;
