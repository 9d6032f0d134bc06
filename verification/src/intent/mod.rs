//! Intents on their way in: the submitted form, its bounds and its validation.
pub mod error;
pub mod parse;
pub mod raw;
pub mod validated;
pub mod validate;
pub mod kept;
