//! A bounded cellular-automaton simulation engine: a square grid of binary
//! cells that evolves under the classic two-state neighbor-counting rule,
//! together with a capacity-bounded history buffer that steps forward and
//! backward through generations.

pub mod errors;
pub mod game;
pub mod hex;
pub mod history;
pub mod rules;
pub mod slice;
