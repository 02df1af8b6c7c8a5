use vstd::prelude::*;

verus! {

/// Contract of a grid cell payload.
///
/// Payloads are opaque to the grid: it only requires that they are copyable
/// and have a defined default value, which is what a deleted slot is reset
/// to. The grid's invariant says that every unoccupied slot holds exactly
/// this value.
pub trait CellValue: Copy {
    /// The default (erased) value of the payload type.
    spec fn spec_default() -> Self;

    /// Produces the default value.
    fn default_value() -> (r: Self)
        ensures
            r == Self::spec_default(),
    ;
}

/// A minimal ready-made payload for grids whose cells carry one number.
#[derive(Debug, Clone, Copy, PartialEq, Eq, Structural)]
pub struct Cell {
    pub value: u64,
}

impl CellValue for Cell {
    open spec fn spec_default() -> Self {
        Cell { value: 0 }
    }

    fn default_value() -> (r: Self) {
        Cell { value: 0 }
    }
}

impl Default for Cell {
    fn default() -> (r: Self)
        ensures
            r == <Cell as CellValue>::spec_default(),
    {
        Cell { value: 0 }
    }
}

impl CellValue for u64 {
    open spec fn spec_default() -> Self {
        0u64
    }

    fn default_value() -> (r: Self) {
        0u64
    }
}

impl CellValue for i64 {
    open spec fn spec_default() -> Self {
        0i64
    }

    fn default_value() -> (r: Self) {
        0i64
    }
}

impl CellValue for bool {
    open spec fn spec_default() -> Self {
        false
    }

    fn default_value() -> (r: Self) {
        false
    }
}

} // verus!
