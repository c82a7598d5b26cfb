//! Grid provisioning, cloning and cell patching for a spreadsheet service.
//!
//! The library holds the decisions of the service as pure, verified
//! functions: which rows, columns and cells a new sheet gets, how a sheet's
//! grid is copied under a new identity, how bulk writes are cut into
//! batches, how a sparse cell update is applied, and how persisted records
//! are assembled into the grid that clients read. An in-memory store runs
//! the whole operations on these pieces, each one all-or-nothing.
pub mod types;
pub mod error;
pub mod clone;
pub mod chunk;
pub mod provision;
pub mod patch;
pub mod grid;
pub mod store;
