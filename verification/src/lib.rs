//! Verified core of a small function-as-a-service pipeline: an HTTP trigger
//! that routes calls to message topics, a local invoker that runs storage
//! operations for a function process, and a load generator.

pub mod text;
pub mod decimal;
pub mod byte_list;
pub mod msgpack;
pub mod invoker;
pub mod stats;
pub mod json;
pub mod routing;
pub mod trigger;
pub mod stress;
