//! Bank accounts, the monitors that track what has been fetched for each
//! card, and the decisions taken while refreshing them.

pub mod binding;
pub mod handler;
pub mod model;
pub mod repository;
