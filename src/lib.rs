//! A lazy, depth-first filesystem walk, written as a verified state machine.
//!
//! The engine in [`traverse`] decides what to do next; the caller performs the
//! metadata probes and directory listings it asks for and hands the outcomes back.
pub mod events;
pub mod metadata;
pub mod traverse;
