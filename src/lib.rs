//! Session state reconciliation for a programmable input device: staged, applied and
//! committed configuration tiers, binding merges, integrity checksums, the registry of
//! live sessions, and the store's paths and bootstrap decisions.

pub mod models;
pub mod checksum;
pub mod session;
pub mod registry;
pub mod store;
pub mod backend;
