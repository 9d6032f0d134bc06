//! The domain model: identifiers, intents, events, state and commitments.
pub mod commit;
pub mod digest;
pub mod encoding;
pub mod error;
pub mod event;
pub mod ids;
pub mod intent;
pub mod laws;
pub mod state;
pub mod time;
