//! Core engine of a typing-drill trainer for foreign alphabets.
//!
//! The library holds the logic of the trainer: narrowing a ranked word
//! corpus by part-of-speech and rank filters, the single-word drill state
//! machine with its auto-advance countdown, the fixed-duration
//! words-per-minute trial, and the small helpers around them (key hints,
//! audio de-duplication). Rendering, timers and I/O live outside and drive
//! these functions with plain values.

pub mod corpus;
pub mod drill;
pub mod filter;
pub mod keys;
pub mod lang;
pub mod playing;
pub mod text;
pub mod wpm;

mod rng;
