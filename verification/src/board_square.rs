//! The value types of the square board: cells, directions, wall state, and
//! the errors that moves and wall placements can report.

use vstd::prelude::*;

verus! {

/// One grid position, addressed by (column, row); both coordinates run from
/// 0 to the board size minus one.
#[derive(Clone, Copy, PartialEq, Eq, Structural, Debug)]
pub struct FieldIndexSquare {
    pub column: usize,
    pub row: usize,
}

/// Marker for cell-coordinate types.
pub trait FieldIndexTrait {}

impl FieldIndexTrait for FieldIndexSquare {}

/// The four compass directions a token can move in.
#[derive(Clone, Copy, PartialEq, Eq, Structural, Debug)]
pub enum DirectionsSquare {
    Up,
    Down,
    Left,
    Right,
}

/// A direction set with a fixed, insertion-stable enumeration order.
pub trait DirectionsTrait: Sized {
    fn get_directions_array() -> Vec<Self>;
}

impl DirectionsTrait for DirectionsSquare {
    fn get_directions_array() -> (r: Vec<Self>)
        ensures
            r@ == seq![
                DirectionsSquare::Up,
                DirectionsSquare::Down,
                DirectionsSquare::Left,
                DirectionsSquare::Right,
            ],
    {
        let mut r: Vec<DirectionsSquare> = Vec::new();
        r.push(DirectionsSquare::Up);
        r.push(DirectionsSquare::Down);
        r.push(DirectionsSquare::Left);
        r.push(DirectionsSquare::Right);
        assert(r@ =~= seq![
            DirectionsSquare::Up,
            DirectionsSquare::Down,
            DirectionsSquare::Left,
            DirectionsSquare::Right,
        ]);
        r
    }
}

/// State of one wall segment: the boundary between two adjacent cells.
#[derive(Clone, Copy, PartialEq, Eq, Structural, Debug)]
pub enum WallPlaced {
    IsWall,
    IsEmpty,
}

/// State of one crossing: the point where the two segments of a wall unit meet.
#[derive(Clone, Copy, PartialEq, Eq, Structural, Debug)]
pub enum WallCrossing {
    IsWallCrossing,
    IsEmpty,
}

/// Which side of the approach direction a wall unit extends to.
#[derive(Clone, Copy, PartialEq, Eq, Structural, Debug)]
pub enum WallDirections {
    Left,
    Right,
}

/// Why a wall placement was refused.  Every refusal leaves the board exactly
/// as it was before the call.
#[derive(Clone, Copy, PartialEq, Eq, Structural, Debug)]
pub enum WallPlacmentError {
    BoardBoundary,
    WallAlreadyPlaced,
    NoMoreWalls,
    PlayerBlocked,
    WallsAlreadyCrossing,
    NotConnected,
}

/// Why a move was refused.  Every refusal leaves the board exactly as it was
/// before the call.
#[derive(Clone, Copy, PartialEq, Eq, Structural, Debug)]
pub enum MoveError {
    BoardBoundary,
    Wall,
    FieldsNotAdjacent,
}

} // verus!
