//! A data pipeline engine: a pipeline expression is parsed into a plan list,
//! type-checked against declared edge compatibility, and executed as a linear
//! sequence of nodes streaming layered, lazily materialisable records from a
//! source through functions and a content-addressed store into a sink.

pub mod ast;
pub mod batch;
pub mod channel;
pub mod error;
pub mod grammar;
pub mod hash;
pub mod json;
pub mod models;
pub mod nodes;
pub mod object;
pub mod order;
pub mod session;
pub mod store;
