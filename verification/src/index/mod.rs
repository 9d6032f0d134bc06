//! The read side: trade records, their history and state projections.
pub mod error;
pub mod table;
pub mod trade;
pub mod order;
pub mod value;
pub mod builder;
pub mod laws;
pub mod matching;
pub mod referenced;
pub mod settlements;
pub mod history;
pub mod rebuild;
pub mod streams;
pub mod service;
pub mod asked;
