//! Construction failures. All of them are fatal in the panicking
//! constructors; the checking constructors report them as values.

use vstd::prelude::*;

verus! {

/// Why a grid could not be built from the given input.
#[derive(Clone, Copy, Debug, PartialEq, Eq, Structural)]
pub enum GridError {
    /// The input supplied no rows at all.
    Empty,
    /// The 1-based `row` is the first whose length disagrees with the
    /// width established by the first row.
    WidthMismatch { row: usize },
}

} // verus!
