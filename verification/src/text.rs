//! Text primitives over sequences of characters.
//!
//! Every executable function takes and returns ordinary strings; its contract
//! is stated over the strings' views (`Seq<char>`) by the spec functions that
//! stand beside it.

pub mod number;
pub mod order;
pub mod pieces;
pub mod search;
pub mod strings;
pub mod strip;
