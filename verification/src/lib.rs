//! A small note sequencer for a live audio graph.
//!
//! The crate holds the parts of a real-time note player that can be stated
//! and proved over integers: the mapping from notes to equal-tempered
//! frequencies, the plan that the control thread follows, and the layout of
//! samples in the interleaved output buffer.

pub mod frequency;
pub mod note;
pub mod output;
pub mod sequencer;
