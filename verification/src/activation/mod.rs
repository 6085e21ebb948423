//! Activations that a comparison and a choice decide.
pub mod noact;
pub mod relu;
