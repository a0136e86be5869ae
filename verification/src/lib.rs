//! The parts of Materialize that read SQL, that run logic tests against a
//! server, and that decide what the storage layer does.

pub mod mz_acl_item;
pub mod sql_parser;
pub mod sqllogictest;
pub mod storage_client;
