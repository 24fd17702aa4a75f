//! Incremental, resumable parsers for a structured reasoning transcript.
//!
//! The library provides a family of byte-stream parsers that accept input in
//! arbitrary chunks, keep immutable resumable state between calls, and report
//! at every step which grammar alternatives are still viable together with the
//! minimal byte prefix every viable continuation must begin with.  On top of
//! the parsers, a capability registry assembles the literal markers, the
//! instruction prompt, and the composite grammar for one reasoning step.

pub mod index;
pub mod line;
pub mod literal;
pub mod parse;
pub mod step;
pub mod tool;
