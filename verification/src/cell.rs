use vstd::prelude::*;

verus! {

/// An RGB color, one byte per channel. Colors are purely cosmetic: the
/// transition rule never reads them.
#[derive(Clone, Copy, Debug, PartialEq, Eq, Structural)]
pub struct Color {
    pub r: u8,
    pub g: u8,
    pub b: u8,
}

/// A lattice coordinate in the grid.
#[derive(Clone, Copy, Debug, PartialEq, Eq, Structural)]
pub struct Position {
    pub x: i32,
    pub y: i32,
    pub z: i32,
}

/// One lattice site: its coordinate, whether it is alive, and its color.
#[derive(Clone, Copy, Debug, PartialEq, Eq, Structural)]
pub struct Cell {
    pub position: Position,
    pub alive: bool,
    pub color: Color,
}

} // verus!
