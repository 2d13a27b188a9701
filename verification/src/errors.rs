//! Error conditions reported by the engine. All of them are local and
//! recoverable: none of the engine's operations panics.

use vstd::prelude::*;

verus! {

/// The ways an engine operation can fail.
#[derive(Clone, Copy, Debug, PartialEq, Eq, Structural)]
pub enum EngineError {
    /// A bulk cell replacement was handed the wrong number of cells.
    InvalidInput,
    /// A point access named a row or column outside the grid.
    IndexOutOfRange,
    /// A previous generation was requested where none exists.
    InvalidState,
}

} // verus!
