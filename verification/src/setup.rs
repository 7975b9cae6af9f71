//! Board construction: a fresh board of a given size, walls all empty, both
//! players on the midpoint of their baseline with a full wall budget and
//! freshly computed path caches.

use vstd::prelude::*;
use crate::board_square::DirectionsSquare;
use crate::board_square::FieldIndexSquare;
use crate::board_square::WallCrossing;
use crate::board_square::WallPlaced;
use crate::pathfinding::cell_at;
use crate::pathfinding::goal_path;
use crate::pathfinding::has_goal_path;
use crate::player::TwoPlayerIndices;
use crate::player_data::PlayerDataSquare;
use crate::square_board::SquareBoard;
use crate::square_board::WallUnit;
use crate::square_board::cell_in_bounds;
use crate::square_board::crossing_coords_ok;
use crate::square_board::is_goal;
use crate::square_board::seg_coords_ok;
use crate::square_board::seg_is_wall;
use crate::square_board::lemma_wall_seg_index_bounds;
use crate::square_board::lemma_crossing_index_bounds;

verus! {

/// Each player starts with this many wall units to place.
pub const WALL_COUNT: usize = 5;

/// On a board without walls, a player off their baseline always has a goal
/// path: walk their column straight to the baseline.
#[verifier::spinoff_prover]
pub proof fn lemma_open_board_goal_path(
    size: int,
    walls: Seq<WallPlaced>,
    player: TwoPlayerIndices,
    s: FieldIndexSquare,
)
    requires
        2 <= size <= usize::MAX,
        cell_in_bounds(size, s),
        !is_goal(size, player, s),
        forall|c: int, r: int, vertical: bool|
            seg_coords_ok(size, c, r, vertical) ==> !#[trigger] seg_is_wall(
                size,
                walls,
                c,
                r,
                vertical,
            ),
    ensures
        has_goal_path(size, walls, player, s),
{
    let col = s.column;
    match player {
        TwoPlayerIndices::White => {
            let q = Seq::new(
                s.row as nat,
                |i: int| (FieldIndexSquare { column: col, row: (s.row - 1 - i) as usize },
                DirectionsSquare::Down),
            );
            assert(s.row >= 1);
            assert forall|i: int| 0 <= i < q.len() implies crate::square_board::step_ok(
                size,
                walls,
                cell_at(s, q, i),
                (#[trigger] q[i]).1,
                q[i].0,
            ) by {
                let here = cell_at(s, q, i);
                if i == 0 {
                    assert(here == s);
                } else {
                    assert(here == q[i - 1].0);
                }
                assert(here.column == col && here.row == s.row - i);
                assert(here.row >= 1);
                assert(seg_coords_ok(size, col as int, here.row - 1, false));
                assert(!seg_is_wall(size, walls, col as int, here.row - 1, false));
            }
            assert forall|i: int| 0 <= i < q.len() - 1 implies !is_goal(
                size,
                player,
                (#[trigger] q[i]).0,
            ) && q[i].0 != s by {
                assert(q[i].0.row == s.row - 1 - i > 0);
            }
            assert(q[q.len() - 1].0.row == 0);
            assert(q[q.len() - 1].0 != s);
            assert(goal_path(size, walls, player, s, q));
        },
        TwoPlayerIndices::Black => {
            let q = Seq::new(
                (size - 1 - s.row) as nat,
                |i: int| (FieldIndexSquare { column: col, row: (s.row + 1 + i) as usize },
                DirectionsSquare::Up),
            );
            assert(s.row as int <= size - 2);
            assert forall|i: int| 0 <= i < q.len() implies crate::square_board::step_ok(
                size,
                walls,
                cell_at(s, q, i),
                (#[trigger] q[i]).1,
                q[i].0,
            ) by {
                let here = cell_at(s, q, i);
                if i == 0 {
                    assert(here == s);
                } else {
                    assert(here == q[i - 1].0);
                }
                assert(here.column == col && here.row == s.row + i);
                assert(here.row as int <= size - 2);
                assert(seg_coords_ok(size, col as int, here.row as int, false));
                assert(!seg_is_wall(size, walls, col as int, here.row as int, false));
            }
            assert forall|i: int| 0 <= i < q.len() - 1 implies !is_goal(
                size,
                player,
                (#[trigger] q[i]).0,
            ) && q[i].0 != s by {
                assert(q[i].0.row == s.row + 1 + i);
                assert(q[i].0.row < size - 1);
            }
            assert(q[q.len() - 1].0.row == size - 1);
            assert(q[q.len() - 1].0 != s);
            assert(goal_path(size, walls, player, s, q));
        },
    }
}

impl SquareBoard {
    /// A fresh board: no walls, no crossings, White on the top baseline's
    /// midpoint walking down, Black opposite, both with the full wall
    /// budget and exact path caches.
    #[verifier::spinoff_prover]
    #[verifier::rlimit(100)]
    pub fn new(size: usize) -> (b: SquareBoard)
        requires
            2 <= size,
            2 * (size as int) * (size as int) <= usize::MAX,
        ensures
            b.wf(),
            b.size == size,
            b.player_position(TwoPlayerIndices::White) == (FieldIndexSquare {
                column: size / 2,
                row: (size - 1) as usize,
            }),
            b.player_position(TwoPlayerIndices::Black) == (FieldIndexSquare {
                column: size / 2,
                row: 0usize,
            }),
            b.player_data_spec(TwoPlayerIndices::White).wall_count == WALL_COUNT,
            b.player_data_spec(TwoPlayerIndices::Black).wall_count == WALL_COUNT,
            b.player_data_spec(TwoPlayerIndices::White).shortest_paths.len() > 0,
            b.player_data_spec(TwoPlayerIndices::Black).shortest_paths.len() > 0,
            forall|c: int, r: int, vertical: bool|
                seg_coords_ok(size as int, c, r, vertical) ==> !#[trigger] b.wall_seg_placed(
                    c,
                    r,
                    vertical,
                ),
            forall|c: int, r: int|
                crossing_coords_ok(size as int, c, r) ==> !#[trigger] b.crossing_placed(c, r),
            b.units@ == Set::<WallUnit>::empty(),
    {
        proof {
            assert(size * (size - 1) <= size * size && (size - 1) * (size - 1) <= size * size
                && 0 <= size * (size - 1) && 0 <= (size - 1) * (size - 1) && 0 <= size * size
                && 2 * (size * (size - 1)) <= 2 * (size as int) * (size as int)
                && size * size <= 2 * (size as int) * (size as int)
                && 2 * (size * (size - 1)) == 2 * (size as int) * ((size as int) - 1)
                && (size - 1) * (size - 1) == ((size as int) - 1) * ((size as int) - 1))
                by (nonlinear_arith)
                requires 2 <= size;
        }
        let wall_cells: usize = 2 * (size * (size - 1));
        let crossing_cells: usize = (size - 1) * (size - 1);
        let mut walls: Vec<WallPlaced> = Vec::new();
        while walls.len() < wall_cells
            invariant
                walls@.len() <= wall_cells,
                forall|i: int| 0 <= i < walls@.len() ==> walls@[i] == WallPlaced::IsEmpty,
            decreases wall_cells - walls@.len(),
        {
            walls.push(WallPlaced::IsEmpty);
        }
        let mut crossings: Vec<WallCrossing> = Vec::new();
        while crossings.len() < crossing_cells
            invariant
                crossings@.len() <= crossing_cells,
                forall|i: int| 0 <= i < crossings@.len() ==> crossings@[i] == WallCrossing::IsEmpty,
            decreases crossing_cells - crossings@.len(),
        {
            crossings.push(WallCrossing::IsEmpty);
        }
        let start_column = size / 2;
        let mut board = SquareBoard {
            size,
            wall_positions: walls,
            wall_crossing_positions: crossings,
            white_data: PlayerDataSquare {
                current_field: FieldIndexSquare { column: start_column, row: size - 1 },
                wall_count: WALL_COUNT,
                shortest_paths: Vec::new(),
            },
            black_data: PlayerDataSquare {
                current_field: FieldIndexSquare { column: start_column, row: 0 },
                wall_count: WALL_COUNT,
                shortest_paths: Vec::new(),
            },
            units: Ghost(Set::empty()),
        };
        proof {
            assert(board.storage_ok());
            assert forall|c: int, r: int, vertical: bool|
                seg_coords_ok(size as int, c, r, vertical) implies !#[trigger] board
                .wall_seg_placed(c, r, vertical) by {
                lemma_wall_seg_index_bounds(size as int, c, r, vertical);
            }
            assert forall|c: int, r: int|
                crossing_coords_ok(size as int, c, r) implies !#[trigger] board.crossing_placed(
                c,
                r,
            ) by {
                lemma_crossing_index_bounds(size as int, c, r);
            }
            assert(board.units_ok());
            assert(board.wf_core());
            assert forall|c: int, r: int, vertical: bool|
                seg_coords_ok(size as int, c, r, vertical) implies !#[trigger] seg_is_wall(
                size as int,
                board.wall_positions@,
                c,
                r,
                vertical,
            ) by {
                assert(!board.wall_seg_placed(c, r, vertical));
            }
        }
        board.update_shortest_paths();
        proof {
            lemma_open_board_goal_path(
                size as int,
                board.wall_positions@,
                TwoPlayerIndices::White,
                board.player_position(TwoPlayerIndices::White),
            );
            lemma_open_board_goal_path(
                size as int,
                board.wall_positions@,
                TwoPlayerIndices::Black,
                board.player_position(TwoPlayerIndices::Black),
            );
            assert(board.cache_ok(TwoPlayerIndices::White));
            assert(board.cache_ok(TwoPlayerIndices::Black));
            assert(board.wf());
        }
        board
    }
}

} // verus!
