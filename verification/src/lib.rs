//! The verified core of the `cyber` command-line node: the status wire
//! parsers, identity keys, argument handling, and the decisions of the sync
//! and link commands.

pub mod text;
pub mod hexcode;
pub mod identity;
pub mod status;
pub mod args;
pub mod framing;
pub mod cell;
pub mod link;
pub mod sync;
