//! What a node shows of itself: metrics over HTTP, and trace spans.

pub mod registry;
pub mod server;
pub mod tracer;
