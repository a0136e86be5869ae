//! Deciding what the storage layer does: which times of a collection can still be read, what
//! may be compacted, and what is sent to the processes that do the work.

pub mod accounts;
pub mod capabilities;
pub mod changes;
pub mod collections;
pub mod controller;
pub mod creation;
pub mod duties;
pub mod epoch;
pub mod exports;
pub mod frontier;
pub mod growth;
pub mod history;
pub mod holds;
pub mod id_map;
pub mod ids;
pub mod laws;
pub mod maintenance;
pub mod operations;
pub mod policy;
pub mod process;
pub mod proto;
pub mod records;
pub mod resumption;
pub mod state;
pub mod types;
