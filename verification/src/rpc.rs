//! What the clients of all services share: endpoints and connection pools.

pub mod endpoint;
pub mod pool;
