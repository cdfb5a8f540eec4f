//! Cells of the grid, orders and grid positions.
use vstd::prelude::*;

verus! {

/// Which player holds a cell.
#[derive(Debug, Clone, Copy, PartialEq, Eq, Structural)]
pub enum TileOwner {
    Me,
    Enemy,
    No,
}

/// One cell of the grid.
///
/// `units` is signed: positive stacks belong to `Me`, negative ones to `Enemy`.
/// `delta_units` collects arrivals and departures during one move phase.
#[derive(Debug, Clone, Copy, PartialEq, Eq, Structural)]
pub struct Tile {
    pub scrap_amount: i32,
    pub recycler: bool,
    pub units: i64,
    pub delta_units: i64,
    pub owner: TileOwner,
}

impl Default for Tile {
    fn default() -> (r: Tile)
        ensures
            r == (Tile { scrap_amount: 0, recycler: false, units: 0, delta_units: 0, owner: TileOwner::No }),
    {
        Tile { scrap_amount: 0, recycler: false, units: 0, delta_units: 0, owner: TileOwner::No }
    }
}

/// Move up to `amount` units from `(fromX, fromY)` one step toward `(toX, toY)`.
#[allow(non_snake_case)]
pub struct MoveAction {
    pub amount: u32,
    pub fromX: usize,
    pub fromY: usize,
    pub toX: usize,
    pub toY: usize,
}

/// Create `amount` units on `(x, y)`.
pub struct SpawnAction {
    pub amount: u32,
    pub x: usize,
    pub y: usize,
}

/// Turn the cell `(x, y)` into a recycler.
pub struct BuildAction {
    pub x: usize,
    pub y: usize,
}

/// One order of a player for one turn.
pub enum Action {
    Move(MoveAction),
    Spawn(SpawnAction),
    Build(BuildAction),
}

/// A position or a pair of values.
#[derive(Debug, Clone, Copy, PartialEq, Eq, Structural, Default)]
pub struct TVec2<T> {
    pub x: T,
    pub y: T,
}

impl<T> TVec2<T> {
    pub fn new(x: T, y: T) -> (r: TVec2<T>)
        ensures
            r.x == x,
            r.y == y,
    {
        TVec2 { x, y }
    }
}

} // verus!
