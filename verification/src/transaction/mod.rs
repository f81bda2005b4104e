//! Bank transactions: the model, the statements that read and write them,
//! and what the service makes of them for its answers and exports.

pub mod binding;
pub mod handler;
pub mod model;
pub mod properties;
pub mod repository;
