//! The client's side of the client protocol: what a client sends, and what it
//! makes of the replies.

pub mod client;
pub mod connection;
pub mod error;
pub mod laws;
pub mod transaction;
