//! A minimal node for a line-oriented JSON message protocol.
//!
//! The node reads one JSON envelope per input line, answers `init` and
//! `echo` requests with `init_ok` and `echo_ok` responses, and ignores
//! acknowledgement bodies.  The wire grammar, the dispatch rules and the
//! round-trip of the codec are stated as contracts and proved.

pub mod enc;
pub mod laws;
pub mod msg;
pub mod node;
pub mod parse;
