//! Rules engine for a two-player wall-and-pawn board game on a square grid.
//!
//! Two players move a token toward the opposite baseline row while placing
//! two-segment wall units that block movement.  No wall placement may ever cut
//! a player off from their goal row: a tentative placement that would do so is
//! rolled back exactly.  The engine enumerates every minimum-length path from
//! a player's cell to their goal row and keeps those paths cached on the
//! player state after each committed move or placement.

pub mod board_square;
pub mod player;
pub mod laws;
pub mod moves;
pub mod pathfinding;
pub mod placement;
pub mod player_data;
pub mod setup;
pub mod square_board;

pub use player::PlayerIndexTrait;
pub use player::TwoPlayerIndices;
pub use player_data::PlayerDataSquare;
pub use player_data::PlayerDataTrait;
pub use square_board::SquareBoard;
pub use board_square::DirectionsSquare;
pub use board_square::DirectionsTrait;
pub use board_square::FieldIndexSquare;
pub use board_square::FieldIndexTrait;
pub use board_square::MoveError;
pub use board_square::WallCrossing;
pub use board_square::WallDirections;
pub use board_square::WallPlaced;
pub use board_square::WallPlacmentError;

use vstd::prelude::*;
use crate::square_board::cell_in_bounds;
use crate::square_board::neighbor_spec;
use crate::square_board::step_blocked;

verus! {

impl MoveError {
    /// A stable, human-readable identity for each move error.
    pub fn to_string(self) -> (r: &'static str)
        ensures
            self == MoveError::BoardBoundary ==> r@ == "board boundary reached"@,
            self == MoveError::Wall ==> r@ == "wall is blocking"@,
            self == MoveError::FieldsNotAdjacent ==> r@ == "fields are not adjacent"@,
    {
        match self {
            MoveError::BoardBoundary => "board boundary reached",
            MoveError::Wall => "wall is blocking",
            MoveError::FieldsNotAdjacent => "fields are not adjacent",
        }
    }
}

impl WallPlacmentError {
    /// A stable, human-readable identity for each placement error.
    pub fn to_string(self) -> (r: &'static str)
        ensures
            self == WallPlacmentError::BoardBoundary ==> r@ == "BoardBoundary"@,
            self == WallPlacmentError::WallAlreadyPlaced ==> r@ == "WallAlreadyPlaced"@,
            self == WallPlacmentError::NoMoreWalls ==> r@ == "NoMoreWalls"@,
            self == WallPlacmentError::PlayerBlocked ==> r@ == "PlayerBlocked"@,
            self == WallPlacmentError::WallsAlreadyCrossing ==> r@ == "WallsAlreadyCrossing"@,
            self == WallPlacmentError::NotConnected ==> r@ == "NotConnected"@,
    {
        match self {
            WallPlacmentError::BoardBoundary => "BoardBoundary",
            WallPlacmentError::WallAlreadyPlaced => "WallAlreadyPlaced",
            WallPlacmentError::NoMoreWalls => "NoMoreWalls",
            WallPlacmentError::PlayerBlocked => "PlayerBlocked",
            WallPlacmentError::WallsAlreadyCrossing => "WallsAlreadyCrossing",
            WallPlacmentError::NotConnected => "NotConnected",
        }
    }
}

/// The direction that steps from `from` to `to`, if the two cells are
/// adjacent; checked in the fixed direction order.
pub open spec fn direction_toward(
    size: int,
    from: FieldIndexSquare,
    to: FieldIndexSquare,
) -> Option<DirectionsSquare> {
    if neighbor_spec(size, from, DirectionsSquare::Up) == Some(to) {
        Some(DirectionsSquare::Up)
    } else if neighbor_spec(size, from, DirectionsSquare::Down) == Some(to) {
        Some(DirectionsSquare::Down)
    } else if neighbor_spec(size, from, DirectionsSquare::Left) == Some(to) {
        Some(DirectionsSquare::Left)
    } else if neighbor_spec(size, from, DirectionsSquare::Right) == Some(to) {
        Some(DirectionsSquare::Right)
    } else {
        None
    }
}

/// One running game: the board, whose turn it is, an in-progress wall-edge
/// selection, and the human-readable log.
pub struct GameData {
    pub board: square_board::SquareBoard,
    pub current_player: player::TwoPlayerIndices,
    pub wall_index_selected: Option<(usize, usize, bool)>,
    pub logbook: Vec<String>,
}

impl GameData {
    /// A game in a consistent state: the board is well-formed and any
    /// stored wall-edge selection addresses a cell of the board.
    pub open spec fn wf(self) -> bool {
        &&& self.board.wf()
        &&& match self.wall_index_selected {
            Some((c, r, _)) => c < self.board.size && r < self.board.size,
            None => true,
        }
    }

    /// A fresh game on the standard board: no walls placed, both players on
    /// their baseline midpoints with the full wall budget and freshly
    /// computed path caches, White to move, nothing selected, and the log
    /// opened.
    pub fn new() -> (g: GameData)
        ensures
            g.wf(),
            g.board.size == 5,
            g.board.player_position(player::TwoPlayerIndices::White) == (FieldIndexSquare {
                column: 2,
                row: 4,
            }),
            g.board.player_position(player::TwoPlayerIndices::Black) == (FieldIndexSquare {
                column: 2,
                row: 0,
            }),
            g.board.player_data_spec(player::TwoPlayerIndices::White).wall_count
                == setup::WALL_COUNT,
            g.board.player_data_spec(player::TwoPlayerIndices::Black).wall_count
                == setup::WALL_COUNT,
            g.board.player_data_spec(player::TwoPlayerIndices::White).shortest_paths.len() > 0,
            g.board.player_data_spec(player::TwoPlayerIndices::Black).shortest_paths.len() > 0,
            forall|c: int, r: int, vertical: bool|
                square_board::seg_coords_ok(5, c, r, vertical) ==> !#[trigger] g.board
                    .wall_seg_placed(c, r, vertical),
            forall|c: int, r: int|
                square_board::crossing_coords_ok(5, c, r) ==> !#[trigger] g.board.crossing_placed(
                    c,
                    r,
                ),
            g.board.units@ == Set::<square_board::WallUnit>::empty(),
            g.current_player == player::TwoPlayerIndices::White,
            g.wall_index_selected is None,
            g.logbook@.len() == 1,
            g.logbook@[0]@ == "Game started"@,
    {
        let mut logbook: Vec<String> = Vec::new();
        logbook.push("Game started".to_owned());
        GameData {
            board: square_board::SquareBoard::new(5),
            current_player: player::TwoPlayerIndices::White,
            wall_index_selected: None,
            logbook,
        }
    }

    /// Whose turn it is.
    pub fn get_current_player(&self) -> (r: player::TwoPlayerIndices)
        ensures
            r == self.current_player,
    {
        self.current_player
    }

    /// Hand the turn to the other player.
    pub fn next_player(&mut self)
        ensures
            final(self).current_player == old(self).current_player.spec_other(),
            final(self).board == old(self).board,
            final(self).wall_index_selected == old(self).wall_index_selected,
            final(self).logbook == old(self).logbook,
    {
        let next = player::PlayerIndexTrait::next_player(self.current_player);
        self.current_player = next;
    }

    /// Append one line to the game log.
    pub fn append_logbook(&mut self, new_line: String)
        ensures
            final(self).logbook@ == old(self).logbook@.push(new_line),
            final(self).board == old(self).board,
            final(self).current_player == old(self).current_player,
            final(self).wall_index_selected == old(self).wall_index_selected,
    {
        self.logbook.push(new_line);
    }

    /// The game log so far.
    pub fn get_logbook(&self) -> (r: &Vec<String>)
        ensures
            *r == self.logbook,
    {
        &self.logbook
    }

    /// Move the current player onto `field`, which must be one step away:
    /// fails with `FieldsNotAdjacent` exactly when it is not adjacent to the
    /// player's cell, with `Wall` exactly when the edge toward it is walled;
    /// refusals change nothing.  On success the token moves and the turn
    /// passes to the opponent.
    pub fn move_player_by_field(&mut self, field: FieldIndexSquare) -> (r: Option<MoveError>)
        requires
            old(self).wf(),
        ensures
            final(self).wf(),
            final(self).logbook == old(self).logbook,
            final(self).wall_index_selected == old(self).wall_index_selected,
            r == Some(MoveError::FieldsNotAdjacent) <==> direction_toward(
                old(self).board.sz(),
                old(self).board.player_position(old(self).current_player),
                field,
            ) is None,
            r != Some(MoveError::BoardBoundary),
            ({
                let d = direction_toward(
                    old(self).board.sz(),
                    old(self).board.player_position(old(self).current_player),
                    field,
                );
                &&& (r == Some(MoveError::Wall) <==> (d is Some && step_blocked(
                    old(self).board.sz(),
                    old(self).board.wall_positions@,
                    old(self).board.player_position(old(self).current_player),
                    d->0,
                )))
                &&& (r is Some ==> final(self).board == old(self).board
                    && final(self).current_player == old(self).current_player)
                &&& (r is None ==> {
                    &&& final(self).board.player_position(old(self).current_player) == field
                    &&& final(self).board.player_data_spec(
                        old(self).current_player.spec_other(),
                    ) == old(self).board.player_data_spec(old(self).current_player.spec_other())
                    &&& final(self).board.wall_positions == old(self).board.wall_positions
                    &&& final(self).board.wall_crossing_positions
                        == old(self).board.wall_crossing_positions
                    &&& final(self).current_player == old(self).current_player.spec_other()
                })
            }),
    {
        let player = self.get_current_player();
        let current_field = self.board.get_current_field(player);
        let mut direction: Option<DirectionsSquare> = None;
        if let Some((g, _)) = self.board.get_field_in_direction(
            current_field,
            DirectionsSquare::Up,
        ) {
            if g == field {
                direction = Some(DirectionsSquare::Up);
            }
        }
        if direction.is_none() {
            if let Some((g, _)) = self.board.get_field_in_direction(
                current_field,
                DirectionsSquare::Down,
            ) {
                if g == field {
                    direction = Some(DirectionsSquare::Down);
                }
            }
        }
        if direction.is_none() {
            if let Some((g, _)) = self.board.get_field_in_direction(
                current_field,
                DirectionsSquare::Left,
            ) {
                if g == field {
                    direction = Some(DirectionsSquare::Left);
                }
            }
        }
        if direction.is_none() {
            if let Some((g, _)) = self.board.get_field_in_direction(
                current_field,
                DirectionsSquare::Right,
            ) {
                if g == field {
                    direction = Some(DirectionsSquare::Right);
                }
            }
        }
        proof {
            assert(direction == direction_toward(self.board.sz(), current_field, field));
        }
        match direction {
            None => Some(MoveError::FieldsNotAdjacent),
            Some(d) => match self.board.move_player(player, d) {
                Some(error) => Some(error),
                None => {
                    self.next_player();
                    None
                },
            },
        }
    }

    /// Record one clicked wall edge, given by its lower-left cell and
    /// orientation.  The first click of a pair is stored; the second click
    /// clears the stored one and either places the wall unit the two edges
    /// form — the turn passes on success — or reports why not:
    /// `NotConnected` when the two edges differ in orientation or are not
    /// adjacent, else whatever the placement itself reports.
    pub fn select_wall_index(
        &mut self,
        column: usize,
        row: usize,
        dir_is_left_or_right: bool,
    ) -> (r: Option<WallPlacmentError>)
        requires
            old(self).wf(),
            column < old(self).board.size,
            row < old(self).board.size,
        ensures
            final(self).wf(),
            final(self).logbook == old(self).logbook,
            old(self).wall_index_selected is None ==> {
                &&& final(self).wall_index_selected == Some((column, row, dir_is_left_or_right))
                &&& final(self).board == old(self).board
                &&& final(self).current_player == old(self).current_player
                &&& r is None
            },
            old(self).wall_index_selected matches Some((c0, r0, o0)) ==> {
                let stacked = c0 == column && (r0 == row + 1 || row == r0 + 1);
                let side_by_side = r0 == row && (c0 == column + 1 || column == c0 + 1);
                let minc = if c0 <= column { c0 } else { column };
                let minr = if r0 <= row { r0 } else { row };
                &&& final(self).wall_index_selected is None
                &&& (o0 != dir_is_left_or_right || (!stacked && !side_by_side)) ==> {
                    &&& r == Some(WallPlacmentError::NotConnected)
                    &&& final(self).board == old(self).board
                    &&& final(self).current_player == old(self).current_player
                }
                &&& (o0 == dir_is_left_or_right && stacked) ==> {
                    &&& crate::placement::place_wall_outcome(
                        old(self).board,
                        final(self).board,
                        r,
                        old(self).current_player,
                        FieldIndexSquare { column: minc, row: minr },
                        DirectionsSquare::Right,
                        WallDirections::Left,
                    )
                    &&& (r is None ==> final(self).current_player == old(
                        self,
                    ).current_player.spec_other())
                    &&& (r is Some ==> final(self).current_player == old(self).current_player)
                }
                &&& (o0 == dir_is_left_or_right && !stacked && side_by_side) ==> {
                    &&& crate::placement::place_wall_outcome(
                        old(self).board,
                        final(self).board,
                        r,
                        old(self).current_player,
                        FieldIndexSquare { column: minc, row: minr },
                        DirectionsSquare::Up,
                        WallDirections::Right,
                    )
                    &&& (r is None ==> final(self).current_player == old(
                        self,
                    ).current_player.spec_other())
                    &&& (r is Some ==> final(self).current_player == old(self).current_player)
                }
            },
    {
        match self.wall_index_selected {
            None => {
                self.wall_index_selected = Some((column, row, dir_is_left_or_right));
                None
            },
            Some((column_before, row_before, dir_before)) => {
                self.wall_index_selected = None;
                let min_column = if column_before <= column {
                    column_before
                } else {
                    column
                };
                let min_row = if row_before <= row {
                    row_before
                } else {
                    row
                };
                let max_column = if column_before <= column {
                    column
                } else {
                    column_before
                };
                let max_row = if row_before <= row {
                    row
                } else {
                    row_before
                };
                let current_player = self.get_current_player();
                let error = if dir_before != dir_is_left_or_right {
                    Some(WallPlacmentError::NotConnected)
                } else if max_column == min_column && min_row + 1 == max_row {
                    self.board.place_wall(
                        current_player,
                        FieldIndexSquare { column: min_column, row: min_row },
                        DirectionsSquare::Right,
                        WallDirections::Left,
                    )
                } else if max_column == min_column + 1 && min_row == max_row {
                    self.board.place_wall(
                        current_player,
                        FieldIndexSquare { column: min_column, row: min_row },
                        DirectionsSquare::Up,
                        WallDirections::Right,
                    )
                } else {
                    Some(WallPlacmentError::NotConnected)
                };
                match error {
                    None => {
                        self.next_player();
                        None
                    },
                    Some(err) => Some(err),
                }
            },
        }
    }
}

} // verus!
