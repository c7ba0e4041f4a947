//! A DNS forwarding proxy core: an expiring cache, a chain of query
//! handlers with fall-through semantics, and the construction of the
//! response that goes back to the client.
pub mod cache;
pub mod message;
pub mod response;
pub mod handler;
pub mod proxy;
pub mod config;
