//! A convenient interface to runtime information.
//!
//! The library decides; it never waits. A query that needs the runtime is a
//! function from what is known so far to a [`Step`](crate::request::Step):
//! either a message to send, or the final answer. Whoever drives the query
//! sends the message, waits for the reply and calls the function again with it.

pub mod cache;
pub mod error;
pub mod history;
pub mod info;
pub mod keystore;
pub mod laws;
pub mod lru;
pub mod mode;
pub mod promises;
pub mod queries;
pub mod request;
pub mod signature;
pub mod types;
pub mod validator;
