//! What the manager knows of layouts: their modes and directions.

use vstd::prelude::*;

use crate::lists::Id;

verus! {

#[derive(Clone, Copy, Debug, PartialEq, Eq, Structural)]
pub enum Direction {
    Left,
    Right,
    Up,
    Down,
}

/// How a workspace lays its windows out.
#[derive(Clone, Copy, Debug, PartialEq, Eq, Structural)]
pub enum LayoutMode {
    Traditional,
    Bsp,
    Floating,
    MasterStack,
    Scrolling,
    Stack,
}

impl Id for LayoutMode {
    fn is(&self, other: &Self) -> (same: bool) {
        *self == *other
    }
}

} // verus!
