//! A verified interpreter for deterministic single-tape Turing machines.
//!
//! A machine is authored as a list of named states, each with an ordered
//! list of transition rules.  The [`builder`] module resolves the names
//! into dense state indices, producing an index-addressed [`program`];
//! the [`machine`] module drives a program over a growable [`tape`] until
//! the run reaches one of the two reserved terminal states.  The intended
//! meaning of a single step, and of a whole run, is written down once as
//! a mathematical transition function in [`semantics`], and every
//! executable operation is proved to follow it.

pub mod builder;
pub mod machine;
pub mod program;
pub mod semantics;
pub mod tape;

use vstd::prelude::*;

verus! {

/// One tape cell's content.
pub type Alphabet = u8;

/// The reserved sentinel meaning "unwritten cell".  Every cell that was
/// never explicitly written reads back as this value.
pub const BLANK: Alphabet = 255;

/// Number of cells in one fixed-size storage block of the tape.
pub const BLOCK_SIZE: usize = 16;

/// Index of the reserved accepting state.  A run that reaches it ends
/// with success.
pub const ACCEPT_STATE: usize = 0;

/// Index of the reserved rejecting state.  A run that reaches it ends
/// with failure; it is also the target of the implicit default
/// transition taken when no rule matches.
pub const REJECT_STATE: usize = 1;

/// How a transition moves the tape head.
#[derive(Debug, Clone, Copy)]
pub enum HeadAction {
    Stay,
    Left,
    Right,
}

} // verus!
