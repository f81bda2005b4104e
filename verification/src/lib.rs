//! Mimir: local analytics over bank transactions.
//!
//! The library holds the data model and the decisions of the service: which
//! time windows still have to be fetched from the bank, how they are cut into
//! request-sized chunks, how transaction filters become SQL, how tags are
//! decoded, how MCC codes are looked up, and how errors are reported.
//! Everything that talks to the network, the database or the file system
//! lives in the application crate around it.

pub mod datetime;
pub mod ranges;
pub mod text;
pub mod mcc;
pub mod error;
pub mod tags;
pub mod sql;
pub mod transaction;
pub mod account;
pub mod config;
pub mod user;
