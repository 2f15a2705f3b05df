//! A small library of verified building blocks around a central theme:
//! tracking ownership, moves, copies, borrows and scopes of values.
//!
//! The heart of the crate is [`tracker::Tracker`], an ownership tracker
//! that replays a trace of binding operations and rejects every step
//! that would violate the aliasing discipline: a value has either no
//! live references, any number of shared references, or exactly one
//! unique reference. The remaining modules hold small verified
//! functions over integers, strings, structs and vectors.

pub mod borrowing;
pub mod collections;
pub mod functions;
pub mod guessing;
pub mod matching;
pub mod ownership;
pub mod slicing;
pub mod structs;
pub mod tracker;
