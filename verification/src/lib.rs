//! Reconciliation of `ccgadget` hook bindings against a host application's
//! JSON settings: classification of existing hook groups, a fixed-order
//! decision procedure for conflicts, and mutation rules that preserve
//! unrelated configuration.

pub mod device;
pub mod engine;
pub mod errors;
pub mod laws;
pub mod matcher;
pub mod model;
pub mod resolve;
pub mod schema;
pub mod scope;
pub mod settings;
pub mod text;
