//! A minimal, pluggable key-value store: the storage contract that every
//! backend must meet, an in-memory reference backend, and the script of the
//! HTTP round trip that exercises a server built over the store.

pub mod db;
pub mod tester;
