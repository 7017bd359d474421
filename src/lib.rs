//! An interpreter for a small tape-based esoteric language: a loader that
//! resolves bracketed loops into jump targets, and a machine that runs the
//! resolved instructions one step at a time.
pub mod instruction;
pub mod laws;
pub mod loader;
pub mod machine;
pub mod options;
