//! The boundary to backing stores and services: errors, policies and the
//! decisions that do not depend on a backend.
pub mod errors;
pub mod authorization;
pub mod key_registry;
pub mod ledger_store;
pub mod outbox;
pub mod observability;
pub mod quota;
pub mod trusted_keys;
pub mod accounted;
