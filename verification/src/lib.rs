//! Derivation of collision-free, prefix-qualified branch names.
//!
//! The pipeline turns free-form text into a canonical slug, joins it with an
//! identity prefix into a candidate name, and disambiguates the candidate
//! against a snapshot of existing branch names.

pub mod builder;
pub mod errors;
pub mod parse;
pub mod resolve;
pub mod slug;
pub mod stamp;
pub mod text;
