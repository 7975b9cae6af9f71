//! Wall placement: deriving the canonical lower-left anchor from an
//! approach direction and a side, the two-segment tentative mutation, the
//! blocking check against both players, and the exact rollback.

use vstd::prelude::*;
use crate::board_square::DirectionsSquare;
use crate::board_square::FieldIndexSquare;
use crate::board_square::WallCrossing;
use crate::board_square::WallDirections;
use crate::board_square::WallPlaced;
use crate::board_square::WallPlacmentError;
use crate::pathfinding::has_goal_path;
use crate::pathfinding::paths_view;
use crate::player::TwoPlayerIndices;
use crate::player_data::PathStep;
use crate::player_data::PlayerDataTrait;
use crate::square_board::SquareBoard;
use crate::square_board::WallUnit;
use crate::square_board::cell_in_bounds;
use crate::square_board::crossing_coords_ok;
use crate::square_board::crossing_index;
use crate::square_board::lemma_crossing_index_injective;
use crate::square_board::lemma_units_ok_same_storage;
use crate::square_board::lemma_wall_seg_index_injective;
use crate::square_board::neighbor_spec;
use crate::square_board::seg_coords_ok;
use crate::square_board::unit_conflict;
use crate::square_board::unit_coords_ok;
use crate::square_board::unit_covers;
use crate::square_board::wall_seg_index;

verus! {

/// The direction from the second cell of the approach edge toward the cell
/// that fixes the wall unit's extent: the fixed eight-entry table.
pub open spec fn second_direction(
    direction: DirectionsSquare,
    wall_direction: WallDirections,
) -> DirectionsSquare {
    match (direction, wall_direction) {
        (DirectionsSquare::Left, WallDirections::Left) => DirectionsSquare::Down,
        (DirectionsSquare::Left, WallDirections::Right) => DirectionsSquare::Up,
        (DirectionsSquare::Right, WallDirections::Left) => DirectionsSquare::Up,
        (DirectionsSquare::Right, WallDirections::Right) => DirectionsSquare::Down,
        (DirectionsSquare::Up, WallDirections::Left) => DirectionsSquare::Left,
        (DirectionsSquare::Up, WallDirections::Right) => DirectionsSquare::Right,
        (DirectionsSquare::Down, WallDirections::Left) => DirectionsSquare::Right,
        (DirectionsSquare::Down, WallDirections::Right) => DirectionsSquare::Left,
    }
}

/// The canonical (lower-left cell, orientation) of the wall unit specified
/// by an approach edge and a side, or nothing when a needed cell falls off
/// the board.
pub open spec fn wall_anchor(
    size: int,
    first_field: FieldIndexSquare,
    direction: DirectionsSquare,
    wall_direction: WallDirections,
) -> Option<(FieldIndexSquare, bool)> {
    match neighbor_spec(size, first_field, direction) {
        None => None,
        Some(second_field) => match neighbor_spec(
            size,
            second_field,
            second_direction(direction, wall_direction),
        ) {
            None => None,
            Some(end_field) => Some(
                match (direction, wall_direction) {
                    (DirectionsSquare::Left, WallDirections::Left) => (end_field, true),
                    (DirectionsSquare::Left, WallDirections::Right) => (second_field, true),
                    (DirectionsSquare::Right, WallDirections::Left) => (first_field, true),
                    (DirectionsSquare::Right, WallDirections::Right) => (
                        FieldIndexSquare { column: first_field.column, row: end_field.row },
                        true,
                    ),
                    (DirectionsSquare::Up, WallDirections::Left) => (
                        FieldIndexSquare { column: end_field.column, row: first_field.row },
                        false,
                    ),
                    (DirectionsSquare::Up, WallDirections::Right) => (first_field, false),
                    (DirectionsSquare::Down, WallDirections::Left) => (second_field, false),
                    (DirectionsSquare::Down, WallDirections::Right) => (end_field, false),
                },
            ),
        },
    }
}

/// The wall unit anchored at a lower-left cell with an orientation.
pub open spec fn unit_of(lower_left_field: FieldIndexSquare, vertical: bool) -> WallUnit {
    WallUnit {
        column: lower_left_field.column as int,
        row: lower_left_field.row as int,
        vertical,
    }
}

/// Column of a unit's second segment.
pub open spec fn seg2_column(u: WallUnit) -> int {
    if u.vertical {
        u.column
    } else {
        u.column + 1
    }
}

/// Row of a unit's second segment.
pub open spec fn seg2_row(u: WallUnit) -> int {
    if u.vertical {
        u.row + 1
    } else {
        u.row
    }
}

/// The wall grid after placing both segments of `u`.
pub open spec fn walls_with_unit(size: int, walls: Seq<WallPlaced>, u: WallUnit) -> Seq<
    WallPlaced,
> {
    walls.update(wall_seg_index(size, u.column, u.row, u.vertical), WallPlaced::IsWall).update(
        wall_seg_index(size, seg2_column(u), seg2_row(u), u.vertical),
        WallPlaced::IsWall,
    )
}

/// Both segments of `u` are still empty on `b`.
pub open spec fn unit_segs_free(b: SquareBoard, u: WallUnit) -> bool {
    &&& !b.wall_seg_placed(u.column, u.row, u.vertical)
    &&& !b.wall_seg_placed(seg2_column(u), seg2_row(u), u.vertical)
}

/// The crossing of `u` is still empty on `b`.
pub open spec fn unit_crossing_free(b: SquareBoard, u: WallUnit) -> bool {
    !b.crossing_placed(u.column, u.row)
}

/// Placing `u` would leave some player without a path to their goal
/// baseline: the blocking invariant forbids it.
pub open spec fn unit_blocks(b: SquareBoard, u: WallUnit) -> bool {
    let w2 = walls_with_unit(b.sz(), b.wall_positions@, u);
    ||| !has_goal_path(
        b.sz(),
        w2,
        TwoPlayerIndices::White,
        b.player_position(TwoPlayerIndices::White),
    )
    ||| !has_goal_path(
        b.sz(),
        w2,
        TwoPlayerIndices::Black,
        b.player_position(TwoPlayerIndices::Black),
    )
}

/// The two boards hold exactly the same game state.
pub open spec fn board_state_eq(a: SquareBoard, b: SquareBoard) -> bool {
    &&& a.size == b.size
    &&& a.wall_positions@ == b.wall_positions@
    &&& a.wall_crossing_positions@ == b.wall_crossing_positions@
    &&& a.units@ == b.units@
    &&& a.white_data == b.white_data
    &&& a.black_data == b.black_data
}

/// What a committed placement did: both segments and the crossing set, the
/// placing player's budget down by one, positions kept, and both caches
/// recomputed and non-empty.
pub open spec fn place_committed(
    ob: SquareBoard,
    nb: SquareBoard,
    u: WallUnit,
    player: TwoPlayerIndices,
) -> bool {
    &&& nb.size == ob.size
    &&& nb.wall_positions@ == walls_with_unit(ob.sz(), ob.wall_positions@, u)
    &&& nb.wall_crossing_positions@ == ob.wall_crossing_positions@.update(
        crossing_index(ob.sz(), u.column, u.row),
        WallCrossing::IsWallCrossing,
    )
    &&& nb.units@ == ob.units@.insert(u)
    &&& nb.player_position(TwoPlayerIndices::White) == ob.player_position(
        TwoPlayerIndices::White,
    )
    &&& nb.player_position(TwoPlayerIndices::Black) == ob.player_position(
        TwoPlayerIndices::Black,
    )
    &&& nb.player_data_spec(player).wall_count == ob.player_data_spec(player).wall_count - 1
    &&& nb.player_data_spec(player.spec_other()).wall_count == ob.player_data_spec(
        player.spec_other(),
    ).wall_count
    &&& nb.player_data_spec(TwoPlayerIndices::White).shortest_paths.len() > 0
    &&& nb.player_data_spec(TwoPlayerIndices::Black).shortest_paths.len() > 0
}

/// The complete outcome contract of a wall placement: which error comes on
/// exactly which inputs, that every refusal leaves the state untouched, and
/// what a success changes.
pub open spec fn place_wall_outcome(
    ob: SquareBoard,
    nb: SquareBoard,
    r: Option<WallPlacmentError>,
    player: TwoPlayerIndices,
    first_field: FieldIndexSquare,
    direction: DirectionsSquare,
    wall_direction: WallDirections,
) -> bool {
    let a = wall_anchor(ob.sz(), first_field, direction, wall_direction);
    let no_walls = ob.player_data_spec(player).wall_count == 0;
    let u = unit_of((a->0).0, (a->0).1);
    &&& (r == Some(WallPlacmentError::NoMoreWalls) <==> no_walls)
    &&& (r == Some(WallPlacmentError::BoardBoundary) <==> (!no_walls && a is None))
    &&& (r == Some(WallPlacmentError::WallAlreadyPlaced) <==> (!no_walls && a is Some
        && !unit_segs_free(ob, u)))
    &&& (r == Some(WallPlacmentError::WallsAlreadyCrossing) <==> (!no_walls && a is Some
        && unit_segs_free(ob, u) && !unit_crossing_free(ob, u)))
    &&& (r == Some(WallPlacmentError::PlayerBlocked) <==> (!no_walls && a is Some
        && unit_segs_free(ob, u) && unit_crossing_free(ob, u) && unit_blocks(ob, u)))
    &&& r != Some(WallPlacmentError::NotConnected)
    &&& (r is None <==> (!no_walls && a is Some && unit_segs_free(ob, u) && unit_crossing_free(
        ob,
        u,
    ) && !unit_blocks(ob, u)))
    &&& (r is Some ==> board_state_eq(nb, ob))
    &&& (r is None ==> place_committed(ob, nb, u, player))
}

/// A derived anchor always addresses a unit that fits on the board.
proof fn lemma_anchor_coords(
    size: int,
    f: FieldIndexSquare,
    d: DirectionsSquare,
    wd: WallDirections,
)
    requires
        2 <= size <= usize::MAX,
        cell_in_bounds(size, f),
        wall_anchor(size, f, d, wd) is Some,
    ensures
        unit_coords_ok(
            size,
            unit_of((wall_anchor(size, f, d, wd)->0).0, (wall_anchor(size, f, d, wd)->0).1),
        ),
{
    match (d, wd) {
        (DirectionsSquare::Left, WallDirections::Left) => {},
        (DirectionsSquare::Left, WallDirections::Right) => {},
        (DirectionsSquare::Right, WallDirections::Left) => {},
        (DirectionsSquare::Right, WallDirections::Right) => {},
        (DirectionsSquare::Up, WallDirections::Left) => {},
        (DirectionsSquare::Up, WallDirections::Right) => {},
        (DirectionsSquare::Down, WallDirections::Left) => {},
        (DirectionsSquare::Down, WallDirections::Right) => {},
    }
}

/// Well-formedness carries over to any board in exactly the same state.
#[verifier::spinoff_prover]
proof fn lemma_state_eq_wf(a: SquareBoard, b: SquareBoard)
    requires
        a.wf(),
        board_state_eq(b, a),
    ensures
        b.wf(),
{
    lemma_units_ok_same_storage(a, b);
    assert(b.player_position(TwoPlayerIndices::White) == a.player_position(
        TwoPlayerIndices::White,
    ));
    assert(b.player_position(TwoPlayerIndices::Black) == a.player_position(
        TwoPlayerIndices::Black,
    ));
    assert(b.player_data_spec(TwoPlayerIndices::White) == a.player_data_spec(
        TwoPlayerIndices::White,
    ));
    assert(b.player_data_spec(TwoPlayerIndices::Black) == a.player_data_spec(
        TwoPlayerIndices::Black,
    ));
    assert(b.cache_ok(TwoPlayerIndices::White));
    assert(b.cache_ok(TwoPlayerIndices::Black));
}

/// Undoing a tentative unit restores the exact pre-placement state.
#[verifier::spinoff_prover]
proof fn lemma_rollback_exact(ob: SquareBoard, mid: SquareBoard, fin: SquareBoard, u: WallUnit)
    requires
        ob.storage_ok(),
        unit_coords_ok(ob.sz(), u),
        unit_segs_free(ob, u),
        unit_crossing_free(ob, u),
        !ob.units@.contains(u),
        mid.size == ob.size,
        mid.wall_positions@ == walls_with_unit(ob.sz(), ob.wall_positions@, u),
        mid.wall_crossing_positions@ == ob.wall_crossing_positions@.update(
            crossing_index(ob.sz(), u.column, u.row),
            WallCrossing::IsWallCrossing,
        ),
        mid.units@ == ob.units@.insert(u),
        mid.white_data == ob.white_data,
        mid.black_data == ob.black_data,
        fin.size == mid.size,
        fin.wall_positions@ == mid.wall_positions@.update(
            wall_seg_index(mid.sz(), u.column, u.row, u.vertical),
            WallPlaced::IsEmpty,
        ).update(
            wall_seg_index(mid.sz(), seg2_column(u), seg2_row(u), u.vertical),
            WallPlaced::IsEmpty,
        ),
        fin.wall_crossing_positions@ == mid.wall_crossing_positions@.update(
            crossing_index(mid.sz(), u.column, u.row),
            WallCrossing::IsEmpty,
        ),
        fin.units@ == mid.units@.remove(u),
        fin.white_data == mid.white_data,
        fin.black_data == mid.black_data,
    ensures
        board_state_eq(fin, ob),
{
    let size = ob.sz();
    let i1 = wall_seg_index(size, u.column, u.row, u.vertical);
    let i2 = wall_seg_index(size, seg2_column(u), seg2_row(u), u.vertical);
    let jc = crossing_index(size, u.column, u.row);
    crate::square_board::lemma_wall_seg_index_bounds(size, u.column, u.row, u.vertical);
    crate::square_board::lemma_wall_seg_index_bounds(size, seg2_column(u), seg2_row(u), u.vertical);
    crate::square_board::lemma_crossing_index_bounds(size, u.column, u.row);
    assert(ob.wall_positions@[i1] == WallPlaced::IsEmpty);
    assert(ob.wall_positions@[i2] == WallPlaced::IsEmpty);
    assert(ob.wall_crossing_positions@[jc] == WallCrossing::IsEmpty);
    assert(fin.wall_positions@ =~= ob.wall_positions@);
    assert(fin.wall_crossing_positions@ =~= ob.wall_crossing_positions@);
    assert(fin.units@ =~= ob.units@);
}

/// Placing a fresh, conflict-free unit keeps the unit bookkeeping exact.
#[verifier::spinoff_prover]
#[verifier::rlimit(100)]
proof fn lemma_insert_unit_ok(ob: SquareBoard, nb: SquareBoard, u: WallUnit)
    requires
        ob.storage_ok(),
        ob.units_ok(),
        unit_coords_ok(ob.sz(), u),
        unit_segs_free(ob, u),
        unit_crossing_free(ob, u),
        nb.size == ob.size,
        nb.wall_positions@ == walls_with_unit(ob.sz(), ob.wall_positions@, u),
        nb.wall_crossing_positions@ == ob.wall_crossing_positions@.update(
            crossing_index(ob.sz(), u.column, u.row),
            WallCrossing::IsWallCrossing,
        ),
        nb.units@ == ob.units@.insert(u),
    ensures
        nb.units_ok(),
        !ob.units@.contains(u),
{
    let size = ob.sz();
    let i1 = wall_seg_index(size, u.column, u.row, u.vertical);
    let i2 = wall_seg_index(size, seg2_column(u), seg2_row(u), u.vertical);
    assert(seg_coords_ok(size, u.column, u.row, u.vertical));
    assert(seg_coords_ok(size, seg2_column(u), seg2_row(u), u.vertical));
    crate::square_board::lemma_wall_seg_index_bounds(size, u.column, u.row, u.vertical);
    crate::square_board::lemma_wall_seg_index_bounds(size, seg2_column(u), seg2_row(u), u.vertical);
    crate::square_board::lemma_crossing_index_bounds(size, u.column, u.row);
    if wall_seg_index(size, u.column, u.row, u.vertical) == wall_seg_index(
        size,
        seg2_column(u),
        seg2_row(u),
        u.vertical,
    ) {
        lemma_wall_seg_index_injective(
            size,
            u.column,
            u.row,
            u.vertical,
            seg2_column(u),
            seg2_row(u),
            u.vertical,
        );
        assert(false);
    }
    if ob.units@.contains(u) {
        assert(unit_covers(u, u.column, u.row, u.vertical));
        assert(ob.wall_seg_placed(u.column, u.row, u.vertical));
        assert(false);
    }
    // A unit already on the board never conflicts with the fresh one.
    assert forall|up: WallUnit| ob.units@.contains(up) implies !unit_conflict(
        up,
        u,
    ) && !unit_conflict(u, up) && up != u by {
        if up.column == u.column && up.row == u.row {
            assert(crossing_coords_ok(size, u.column, u.row));
            assert(ob.crossing_placed(u.column, u.row));
            assert(false);
        }
        if up.vertical == u.vertical {
            if u.vertical && up.column == u.column && -1 <= up.row - u.row <= 1 {
                if up.row == u.row - 1 {
                    assert(unit_covers(up, u.column, u.row, u.vertical));
                    assert(ob.wall_seg_placed(u.column, u.row, u.vertical));
                    assert(false);
                } else if up.row == u.row + 1 {
                    assert(unit_covers(up, seg2_column(u), seg2_row(u), u.vertical));
                    assert(ob.wall_seg_placed(seg2_column(u), seg2_row(u), u.vertical));
                    assert(false);
                } else {
                    assert(up.row == u.row);
                    assert(false);
                }
            }
            if !u.vertical && up.row == u.row && -1 <= up.column - u.column <= 1 {
                if up.column == u.column - 1 {
                    assert(unit_covers(up, u.column, u.row, u.vertical));
                    assert(ob.wall_seg_placed(u.column, u.row, u.vertical));
                    assert(false);
                } else if up.column == u.column + 1 {
                    assert(unit_covers(up, seg2_column(u), seg2_row(u), u.vertical));
                    assert(ob.wall_seg_placed(seg2_column(u), seg2_row(u), u.vertical));
                    assert(false);
                } else {
                    assert(up.column == u.column);
                    assert(false);
                }
            }
        }
    }
    assert forall|u1: WallUnit, u2: WallUnit|
        nb.units@.contains(u1) && nb.units@.contains(u2) && u1 != u2 implies !unit_conflict(
        u1,
        u2,
    ) by {
        if ob.units@.contains(u1) && ob.units@.contains(u2) {
        } else if u1 == u {
            assert(ob.units@.contains(u2));
        } else {
            assert(u2 == u && ob.units@.contains(u1));
        }
    }
    // Crossings record exactly the units.
    assert forall|c: int, r: int| crossing_coords_ok(size, c, r) implies (
    #[trigger] nb.crossing_placed(c, r) <==> nb.units@.contains(
        WallUnit { column: c, row: r, vertical: true },
    ) || nb.units@.contains(WallUnit { column: c, row: r, vertical: false })) by {
        if c == u.column && r == u.row {
            assert(nb.crossing_placed(c, r));
            assert(nb.units@.contains(u));
        } else {
            crate::square_board::lemma_crossing_index_bounds(size, c, r);
            if crossing_index(size, c, r) == crossing_index(size, u.column, u.row) {
                lemma_crossing_index_injective(size, c, r, u.column, u.row);
                assert(false);
            }
            assert(nb.crossing_placed(c, r) == ob.crossing_placed(c, r));
            assert(ob.crossing_placed(c, r) <==> ob.units@.contains(
                WallUnit { column: c, row: r, vertical: true },
            ) || ob.units@.contains(WallUnit { column: c, row: r, vertical: false }));
        }
    }
    // Wall segments record exactly the units' coverage.
    assert forall|c: int, r: int, vertical: bool|
        seg_coords_ok(size, c, r, vertical) implies (#[trigger] nb.wall_seg_placed(c, r, vertical)
        <==> exists|up: WallUnit| nb.units@.contains(up) && unit_covers(up, c, r, vertical)) by {
        let k = wall_seg_index(size, c, r, vertical);
        if k == i1 || k == i2 {
            lemma_wall_seg_index_injective(
                size,
                c,
                r,
                vertical,
                if k == i1 {
                    u.column
                } else {
                    seg2_column(u)
                },
                if k == i1 {
                    u.row
                } else {
                    seg2_row(u)
                },
                u.vertical,
            );
            assert(nb.wall_seg_placed(c, r, vertical));
            assert(unit_covers(u, c, r, vertical));
            assert(nb.units@.contains(u) && unit_covers(u, c, r, vertical));
        } else {
            crate::square_board::lemma_wall_seg_index_bounds(size, c, r, vertical);
            assert(nb.wall_seg_placed(c, r, vertical) == ob.wall_seg_placed(c, r, vertical));
            if unit_covers(u, c, r, vertical) {
                assert((c == u.column && r == u.row && vertical == u.vertical) || (c
                    == seg2_column(u) && r == seg2_row(u) && vertical == u.vertical));
                assert(k == i1 || k == i2);
                assert(false);
            }
            assert(ob.wall_seg_placed(c, r, vertical) <==> exists|up: WallUnit|
                ob.units@.contains(up) && unit_covers(up, c, r, vertical));
            if nb.wall_seg_placed(c, r, vertical) {
                let up = choose|up: WallUnit|
                    ob.units@.contains(up) && unit_covers(up, c, r, vertical);
                assert(nb.units@.contains(up) && unit_covers(up, c, r, vertical));
            }
            if exists|up: WallUnit| nb.units@.contains(up) && unit_covers(up, c, r, vertical) {
                let up = choose|up: WallUnit|
                    nb.units@.contains(up) && unit_covers(up, c, r, vertical);
                assert(up != u);
                assert(ob.units@.contains(up));
            }
        }
    }
}

impl SquareBoard {
    /// Place both segments and the crossing of the unit at
    /// `lower_left_field`, after checking that nothing is in the way; no
    /// reachability check here.  Refusals touch nothing.
    #[verifier::spinoff_prover]
    #[verifier::rlimit(100)]
    pub(crate) fn place_wall_unsafe(
        &mut self,
        lower_left_field: FieldIndexSquare,
        is_left_or_right: bool,
    ) -> (r: Option<WallPlacmentError>)
        requires
            old(self).storage_ok(),
            old(self).units_ok(),
            unit_coords_ok(old(self).sz(), unit_of(lower_left_field, is_left_or_right)),
        ensures
            final(self).size == old(self).size,
            final(self).white_data == old(self).white_data,
            final(self).black_data == old(self).black_data,
            final(self).storage_ok(),
            (r == Some(WallPlacmentError::WallAlreadyPlaced) <==> !unit_segs_free(
                *old(self),
                unit_of(lower_left_field, is_left_or_right),
            )),
            (r == Some(WallPlacmentError::WallsAlreadyCrossing) <==> (unit_segs_free(
                *old(self),
                unit_of(lower_left_field, is_left_or_right),
            ) && !unit_crossing_free(*old(self), unit_of(lower_left_field, is_left_or_right)))),
            (r is None <==> (unit_segs_free(
                *old(self),
                unit_of(lower_left_field, is_left_or_right),
            ) && unit_crossing_free(*old(self), unit_of(lower_left_field, is_left_or_right)))),
            r is Some ==> board_state_eq(*final(self), *old(self)),
            r is None ==> {
                let u = unit_of(lower_left_field, is_left_or_right);
                &&& final(self).wall_positions@ == walls_with_unit(
                    old(self).sz(),
                    old(self).wall_positions@,
                    u,
                )
                &&& final(self).wall_crossing_positions@ == old(
                    self,
                ).wall_crossing_positions@.update(
                    crossing_index(old(self).sz(), u.column, u.row),
                    WallCrossing::IsWallCrossing,
                )
                &&& final(self).units@ == old(self).units@.insert(u)
                &&& final(self).units_ok()
                &&& !old(self).units@.contains(u)
            },
    {
        let ghost u = unit_of(lower_left_field, is_left_or_right);
        let c = lower_left_field.column;
        let rw = lower_left_field.row;
        let (c2, r2): (usize, usize) = if is_left_or_right {
            (c, rw + 1)
        } else {
            (c + 1, rw)
        };
        proof {
            assert(c2 as int == seg2_column(u) && r2 as int == seg2_row(u));
        }
        if self.wall_lookup_unsafe(lower_left_field, is_left_or_right) == WallPlaced::IsWall {
            return Some(WallPlacmentError::WallAlreadyPlaced);
        }
        if self.wall_lookup_unsafe(
            FieldIndexSquare { column: c2, row: r2 },
            is_left_or_right,
        ) == WallPlaced::IsWall {
            return Some(WallPlacmentError::WallAlreadyPlaced);
        }
        if self.croosing_lookup_unsafe(lower_left_field) == WallCrossing::IsWallCrossing {
            return Some(WallPlacmentError::WallsAlreadyCrossing);
        }
        proof {
            crate::square_board::lemma_wall_seg_index_bounds(
                self.sz(),
                u.column,
                u.row,
                u.vertical,
            );
            crate::square_board::lemma_wall_seg_index_bounds(
                self.sz(),
                seg2_column(u),
                seg2_row(u),
                u.vertical,
            );
            crate::square_board::lemma_crossing_index_bounds(self.sz(), u.column, u.row);
        }
        self.set_wall_seg(c, rw, is_left_or_right, WallPlaced::IsWall);
        self.set_wall_seg(c2, r2, is_left_or_right, WallPlaced::IsWall);
        self.set_crossing(c, rw, WallCrossing::IsWallCrossing);
        proof {
            self.units = Ghost(self.units@.insert(u));
            lemma_insert_unit_ok(*old(self), *self, u);
            assert(self.storage_ok());
        }
        None
    }

    /// Undo exactly what a successful `place_wall_unsafe` did: clear both
    /// segments and the crossing of the unit.
    pub(crate) fn place_wall_unsafe_redo(
        &mut self,
        lower_left_field: FieldIndexSquare,
        is_left_or_right: bool,
    )
        requires
            old(self).storage_ok(),
            unit_coords_ok(old(self).sz(), unit_of(lower_left_field, is_left_or_right)),
        ensures
            final(self).size == old(self).size,
            final(self).white_data == old(self).white_data,
            final(self).black_data == old(self).black_data,
            final(self).storage_ok(),
            ({
                let u = unit_of(lower_left_field, is_left_or_right);
                &&& final(self).wall_positions@ == old(self).wall_positions@.update(
                    wall_seg_index(old(self).sz(), u.column, u.row, u.vertical),
                    WallPlaced::IsEmpty,
                ).update(
                    wall_seg_index(old(self).sz(), seg2_column(u), seg2_row(u), u.vertical),
                    WallPlaced::IsEmpty,
                )
                &&& final(self).wall_crossing_positions@ == old(
                    self,
                ).wall_crossing_positions@.update(
                    crossing_index(old(self).sz(), u.column, u.row),
                    WallCrossing::IsEmpty,
                )
                &&& final(self).units@ == old(self).units@.remove(u)
            }),
    {
        let ghost u = unit_of(lower_left_field, is_left_or_right);
        let c = lower_left_field.column;
        let rw = lower_left_field.row;
        let (c2, r2): (usize, usize) = if is_left_or_right {
            (c, rw + 1)
        } else {
            (c + 1, rw)
        };
        proof {
            assert(c2 as int == seg2_column(u) && r2 as int == seg2_row(u));
            crate::square_board::lemma_wall_seg_index_bounds(
                self.sz(),
                u.column,
                u.row,
                u.vertical,
            );
            crate::square_board::lemma_wall_seg_index_bounds(
                self.sz(),
                seg2_column(u),
                seg2_row(u),
                u.vertical,
            );
            crate::square_board::lemma_crossing_index_bounds(self.sz(), u.column, u.row);
        }
        self.set_wall_seg(c, rw, is_left_or_right, WallPlaced::IsEmpty);
        self.set_wall_seg(c2, r2, is_left_or_right, WallPlaced::IsEmpty);
        self.set_crossing(c, rw, WallCrossing::IsEmpty);
        proof {
            self.units = Ghost(self.units@.remove(u));
        }
    }

    /// Take one wall unit out of `player`'s budget.
    pub(crate) fn reduce_player_wall_count(&mut self, player: TwoPlayerIndices)
        requires
            old(self).player_data_spec(player).wall_count >= 1,
        ensures
            final(self).player_data_spec(player).wall_count == old(self).player_data_spec(
                player,
            ).wall_count - 1,
            final(self).player_data_spec(player).current_field == old(self).player_data_spec(
                player,
            ).current_field,
            final(self).player_data_spec(player).shortest_paths == old(self).player_data_spec(
                player,
            ).shortest_paths,
            final(self).player_data_spec(player.spec_other()) == old(self).player_data_spec(
                player.spec_other(),
            ),
            final(self).size == old(self).size,
            final(self).wall_positions == old(self).wall_positions,
            final(self).wall_crossing_positions == old(self).wall_crossing_positions,
            final(self).units == old(self).units,
    {
        match player {
            TwoPlayerIndices::White => self.white_data.reduce_wall_count_by_one(),
            TwoPlayerIndices::Black => self.black_data.reduce_wall_count_by_one(),
        }
    }

    /// Place a wall unit specified by the edge a token would cross
    /// (`first_field` toward `direction`) and the side it extends to.  The
    /// checks run in a fixed order — wall budget, board boundary, occupied
    /// segment, occupied crossing, and finally the blocking invariant by
    /// recomputing both players' shortest paths on the tentative walls — and
    /// every refusal, the blocking one included, leaves the board exactly as
    /// it was.  On success both segments and the crossing are set, the
    /// placing player's budget drops by one, and both caches hold the fresh
    /// non-empty recomputation.
    #[verifier::spinoff_prover]
    #[verifier::rlimit(100)]
    pub fn place_wall(
        &mut self,
        player: TwoPlayerIndices,
        first_field: FieldIndexSquare,
        direction: DirectionsSquare,
        wall_direction: WallDirections,
    ) -> (r: Option<WallPlacmentError>)
        requires
            old(self).wf(),
            cell_in_bounds(old(self).sz(), first_field),
        ensures
            final(self).wf(),
            place_wall_outcome(
                *old(self),
                *final(self),
                r,
                player,
                first_field,
                direction,
                wall_direction,
            ),
    {
        if self.get_player_data(player).get_wall_count() == 0 {
            return Some(WallPlacmentError::NoMoreWalls);
        }
        let second_field = match self.get_field_in_direction(first_field, direction) {
            None => {
                return Some(WallPlacmentError::BoardBoundary);
            },
            Some((f, _)) => f,
        };
        let second_dir = match (direction, wall_direction) {
            (DirectionsSquare::Left, WallDirections::Left) => DirectionsSquare::Down,
            (DirectionsSquare::Left, WallDirections::Right) => DirectionsSquare::Up,
            (DirectionsSquare::Right, WallDirections::Left) => DirectionsSquare::Up,
            (DirectionsSquare::Right, WallDirections::Right) => DirectionsSquare::Down,
            (DirectionsSquare::Up, WallDirections::Left) => DirectionsSquare::Left,
            (DirectionsSquare::Up, WallDirections::Right) => DirectionsSquare::Right,
            (DirectionsSquare::Down, WallDirections::Left) => DirectionsSquare::Right,
            (DirectionsSquare::Down, WallDirections::Right) => DirectionsSquare::Left,
        };
        let end_field = match self.get_field_in_direction(second_field, second_dir) {
            None => {
                return Some(WallPlacmentError::BoardBoundary);
            },
            Some((f, _)) => f,
        };
        let (lower_left_field, is_left_or_right): (FieldIndexSquare, bool) = match (
            direction,
            wall_direction,
        ) {
            (DirectionsSquare::Left, WallDirections::Left) => (end_field, true),
            (DirectionsSquare::Left, WallDirections::Right) => (second_field, true),
            (DirectionsSquare::Right, WallDirections::Left) => (first_field, true),
            (DirectionsSquare::Right, WallDirections::Right) => (
                FieldIndexSquare { column: first_field.column, row: end_field.row },
                true,
            ),
            (DirectionsSquare::Up, WallDirections::Left) => (
                FieldIndexSquare { column: end_field.column, row: first_field.row },
                false,
            ),
            (DirectionsSquare::Up, WallDirections::Right) => (first_field, false),
            (DirectionsSquare::Down, WallDirections::Left) => (second_field, false),
            (DirectionsSquare::Down, WallDirections::Right) => (end_field, false),
        };
        let ghost u = unit_of(lower_left_field, is_left_or_right);
        proof {
            assert(wall_anchor(self.sz(), first_field, direction, wall_direction) == Some(
                (lower_left_field, is_left_or_right),
            ));
            lemma_anchor_coords(self.sz(), first_field, direction, wall_direction);
        }
        match self.place_wall_unsafe(lower_left_field, is_left_or_right) {
            Some(e) => {
                proof {
                    lemma_state_eq_wf(*old(self), *self);
                }
                Some(e)
            },
            None => {
                let ghost mid = *self;
                let white_paths = self.compute_shortest_paths(TwoPlayerIndices::White);
                if white_paths.len() == 0 {
                    self.place_wall_unsafe_redo(lower_left_field, is_left_or_right);
                    proof {
                        lemma_rollback_exact(*old(self), mid, *self, u);
                        lemma_state_eq_wf(*old(self), *self);
                        assert(!has_goal_path(
                            mid.sz(),
                            mid.wall_positions@,
                            TwoPlayerIndices::White,
                            mid.player_position(TwoPlayerIndices::White),
                        ));
                        assert(unit_blocks(*old(self), u));
                    }
                    return Some(WallPlacmentError::PlayerBlocked);
                }
                let black_paths = self.compute_shortest_paths(TwoPlayerIndices::Black);
                if black_paths.len() == 0 {
                    self.place_wall_unsafe_redo(lower_left_field, is_left_or_right);
                    proof {
                        lemma_rollback_exact(*old(self), mid, *self, u);
                        lemma_state_eq_wf(*old(self), *self);
                        assert(!has_goal_path(
                            mid.sz(),
                            mid.wall_positions@,
                            TwoPlayerIndices::Black,
                            mid.player_position(TwoPlayerIndices::Black),
                        ));
                        assert(unit_blocks(*old(self), u));
                    }
                    return Some(WallPlacmentError::PlayerBlocked);
                }
                proof {
                    assert(crate::pathfinding::goal_path(
                        mid.sz(),
                        mid.wall_positions@,
                        TwoPlayerIndices::White,
                        mid.player_position(TwoPlayerIndices::White),
                        paths_view(white_paths)[0],
                    ));
                    assert(crate::pathfinding::goal_path(
                        mid.sz(),
                        mid.wall_positions@,
                        TwoPlayerIndices::Black,
                        mid.player_position(TwoPlayerIndices::Black),
                        paths_view(black_paths)[0],
                    ));
                    assert(!unit_blocks(*old(self), u));
                }
                self.set_player_paths(TwoPlayerIndices::White, white_paths);
                self.set_player_paths(TwoPlayerIndices::Black, black_paths);
                self.reduce_player_wall_count(player);
                proof {
                    lemma_units_ok_same_storage(mid, *self);
                    assert(self.cache_ok(TwoPlayerIndices::White));
                    assert(self.cache_ok(TwoPlayerIndices::Black));
                    assert(self.wf());
                    assert(place_committed(*old(self), *self, u, player));
                }
                None
            },
        }
    }
}

} // verus!
