//! The board itself: wall and crossing storage with closed-form flat
//! indexing, grid topology, and the structural well-formedness invariant.
//!
//! Wall segments sit between two adjacent cells and are addressed by the
//! lower-left of the two cells plus an orientation flag: `true` for a
//! vertical segment (it blocks Left/Right movement), `false` for a
//! horizontal segment (it blocks Up/Down movement).  Walls are only ever
//! placed as two-segment units; the ghost set of placed units ties the two
//! flat boolean grids together.

use vstd::prelude::*;
use crate::board_square::DirectionsSquare;
use crate::board_square::FieldIndexSquare;
use crate::board_square::WallCrossing;
use crate::board_square::WallPlaced;
use crate::player::TwoPlayerIndices;
use crate::player_data::PlayerDataSquare;
use crate::player_data::PlayerDataTrait;

verus! {

/// A two-segment wall unit, identified by the crossing where its segments
/// meet and by its orientation.  A vertical unit at crossing (c, r) covers
/// the vertical segments (c, r) and (c, r + 1); a horizontal unit covers the
/// horizontal segments (c, r) and (c + 1, r).
pub ghost struct WallUnit {
    pub column: int,
    pub row: int,
    pub vertical: bool,
}

/// Is (column, row) a cell of a board with `size` columns and rows?
pub open spec fn cell_in_bounds(size: int, f: FieldIndexSquare) -> bool {
    f.column < size && f.row < size
}

/// Are (c, r) valid lower-left coordinates for a wall segment of the given
/// orientation?
pub open spec fn seg_coords_ok(size: int, c: int, r: int, vertical: bool) -> bool {
    if vertical {
        0 <= c < size - 1 && 0 <= r < size
    } else {
        0 <= c < size && 0 <= r < size - 1
    }
}

/// Position of a wall segment in the flat wall grid: the vertical segments
/// fill the first half, the horizontal segments the second.
pub open spec fn wall_seg_index(size: int, c: int, r: int, vertical: bool) -> int {
    if vertical {
        r + size * c
    } else {
        size * (size - 1) + c + size * r
    }
}

/// Are (c, r) valid coordinates for a crossing?
pub open spec fn crossing_coords_ok(size: int, c: int, r: int) -> bool {
    0 <= c < size - 1 && 0 <= r < size - 1
}

/// Position of a crossing in the flat crossing grid.
pub open spec fn crossing_index(size: int, c: int, r: int) -> int {
    c + (size - 1) * r
}

/// Is the wall segment at (c, r) placed in the given flat wall grid?
pub open spec fn seg_is_wall(
    size: int,
    walls: Seq<WallPlaced>,
    c: int,
    r: int,
    vertical: bool,
) -> bool {
    walls[wall_seg_index(size, c, r, vertical)] == WallPlaced::IsWall
}

/// Does a wall segment block a step from cell `f` in direction `d`?
/// Meaningful when the step stays on the board.
pub open spec fn step_blocked(
    size: int,
    walls: Seq<WallPlaced>,
    f: FieldIndexSquare,
    d: DirectionsSquare,
) -> bool {
    match d {
        DirectionsSquare::Up => seg_is_wall(size, walls, f.column as int, f.row as int, false),
        DirectionsSquare::Down => seg_is_wall(size, walls, f.column as int, f.row as int - 1, false),
        DirectionsSquare::Left => seg_is_wall(size, walls, f.column as int - 1, f.row as int, true),
        DirectionsSquare::Right => seg_is_wall(size, walls, f.column as int, f.row as int, true),
    }
}

/// The cell one step from `f` in direction `d`, or nothing at the board edge.
pub open spec fn neighbor_spec(
    size: int,
    f: FieldIndexSquare,
    d: DirectionsSquare,
) -> Option<FieldIndexSquare> {
    match d {
        DirectionsSquare::Up => if f.row as int == size - 1 {
            None
        } else {
            Some(FieldIndexSquare { column: f.column, row: (f.row + 1) as usize })
        },
        DirectionsSquare::Down => if f.row == 0 {
            None
        } else {
            Some(FieldIndexSquare { column: f.column, row: (f.row - 1) as usize })
        },
        DirectionsSquare::Left => if f.column == 0 {
            None
        } else {
            Some(FieldIndexSquare { column: (f.column - 1) as usize, row: f.row })
        },
        DirectionsSquare::Right => if f.column as int == size - 1 {
            None
        } else {
            Some(FieldIndexSquare { column: (f.column + 1) as usize, row: f.row })
        },
    }
}

/// The neighbor paired with the direction that reaches it, as the board's
/// topology query returns it.
pub open spec fn neighbor_pair_spec(
    size: int,
    f: FieldIndexSquare,
    d: DirectionsSquare,
) -> Option<(FieldIndexSquare, DirectionsSquare)> {
    match neighbor_spec(size, f, d) {
        Some(g) => Some((g, d)),
        None => None,
    }
}

/// The one-element sequence of a present neighbor pair, or nothing.
pub open spec fn opt_pair_seq(o: Option<(FieldIndexSquare, DirectionsSquare)>) -> Seq<
    (FieldIndexSquare, DirectionsSquare),
> {
    match o {
        Some(x) => seq![x],
        None => Seq::empty(),
    }
}

/// All on-board neighbors of a cell with the direction reaching each, in
/// the fixed direction order.
pub open spec fn surrounding_spec(size: int, f: FieldIndexSquare) -> Seq<
    (FieldIndexSquare, DirectionsSquare),
> {
    opt_pair_seq(neighbor_pair_spec(size, f, DirectionsSquare::Up)) + opt_pair_seq(
        neighbor_pair_spec(size, f, DirectionsSquare::Down),
    ) + opt_pair_seq(neighbor_pair_spec(size, f, DirectionsSquare::Left)) + opt_pair_seq(
        neighbor_pair_spec(size, f, DirectionsSquare::Right),
    )
}

/// The one-element sequence of a present, unwalled neighbor pair, or
/// nothing.
pub open spec fn passable_pair_seq(
    size: int,
    walls: Seq<WallPlaced>,
    f: FieldIndexSquare,
    d: DirectionsSquare,
) -> Seq<(FieldIndexSquare, DirectionsSquare)> {
    match neighbor_spec(size, f, d) {
        Some(g) => if !step_blocked(size, walls, f, d) {
            seq![(g, d)]
        } else {
            Seq::empty()
        },
        None => Seq::empty(),
    }
}

/// All neighbors a token can actually step to from a cell, in the fixed
/// direction order.
pub open spec fn reachable_spec(size: int, walls: Seq<WallPlaced>, f: FieldIndexSquare) -> Seq<
    (FieldIndexSquare, DirectionsSquare),
> {
    passable_pair_seq(size, walls, f, DirectionsSquare::Up) + passable_pair_seq(
        size,
        walls,
        f,
        DirectionsSquare::Down,
    ) + passable_pair_seq(size, walls, f, DirectionsSquare::Left) + passable_pair_seq(
        size,
        walls,
        f,
        DirectionsSquare::Right,
    )
}

/// A legal single step: the target cell exists and no wall segment blocks it.
pub open spec fn step_ok(
    size: int,
    walls: Seq<WallPlaced>,
    f: FieldIndexSquare,
    d: DirectionsSquare,
    g: FieldIndexSquare,
) -> bool {
    neighbor_spec(size, f, d) == Some(g) && !step_blocked(size, walls, f, d)
}

/// The goal row of a player: White walks to row 0, Black to the top row.
pub open spec fn goal_row(size: int, player: TwoPlayerIndices) -> int {
    match player {
        TwoPlayerIndices::White => 0,
        TwoPlayerIndices::Black => size - 1,
    }
}

/// Is `f` on the player's goal baseline?
pub open spec fn is_goal(size: int, player: TwoPlayerIndices, f: FieldIndexSquare) -> bool {
    f.row as int == goal_row(size, player)
}

/// Does unit `u` cover the wall segment (c, r, vertical)?
pub open spec fn unit_covers(u: WallUnit, c: int, r: int, vertical: bool) -> bool {
    u.vertical == vertical && if u.vertical {
        c == u.column && (r == u.row || r == u.row + 1)
    } else {
        r == u.row && (c == u.column || c == u.column + 1)
    }
}

/// Is `u` a unit that fits on the board?
pub open spec fn unit_coords_ok(size: int, u: WallUnit) -> bool {
    0 <= u.column < size - 1 && 0 <= u.row < size - 1
}

/// Two distinct units conflict when they occupy the same crossing or share a
/// wall segment.
pub open spec fn unit_conflict(u1: WallUnit, u2: WallUnit) -> bool {
    ||| (u1.column == u2.column && u1.row == u2.row)
    ||| (u1.vertical == u2.vertical && if u1.vertical {
        u1.column == u2.column && -1 <= u1.row - u2.row <= 1
    } else {
        u1.row == u2.row && -1 <= u1.column - u2.column <= 1
    })
}

/// The full board state: both flat wall grids, both players, and the ghost
/// record of the units that were placed.
pub struct SquareBoard {
    pub size: usize,
    pub wall_positions: Vec<WallPlaced>,
    pub wall_crossing_positions: Vec<WallCrossing>,
    pub white_data: PlayerDataSquare,
    pub black_data: PlayerDataSquare,
    pub units: Ghost<Set<WallUnit>>,
}

impl SquareBoard {
    pub open spec fn sz(self) -> int {
        self.size as int
    }

    pub open spec fn wall_seg_placed(self, c: int, r: int, vertical: bool) -> bool {
        seg_is_wall(self.sz(), self.wall_positions@, c, r, vertical)
    }

    pub open spec fn crossing_placed(self, c: int, r: int) -> bool {
        self.wall_crossing_positions@[crossing_index(self.sz(), c, r)]
            == WallCrossing::IsWallCrossing
    }

    pub open spec fn player_data_spec(self, player: TwoPlayerIndices) -> PlayerDataSquare {
        match player {
            TwoPlayerIndices::White => self.white_data,
            TwoPlayerIndices::Black => self.black_data,
        }
    }

    pub open spec fn player_position(self, player: TwoPlayerIndices) -> FieldIndexSquare {
        self.player_data_spec(player).current_field
    }

    /// Sizes and machine limits of the backing storage.
    pub open spec fn storage_ok(self) -> bool {
        &&& 2 <= self.size
        &&& 2 * self.sz() * self.sz() <= usize::MAX
        &&& self.wall_positions@.len() == 2 * self.sz() * (self.sz() - 1)
        &&& self.wall_crossing_positions@.len() == (self.sz() - 1) * (self.sz() - 1)
    }

    /// The two flat grids record exactly the placed units: a segment is a
    /// wall exactly when some unit covers it, a crossing is occupied exactly
    /// when a unit sits on it, and no two units overlap.
    pub open spec fn units_ok(self) -> bool {
        &&& (forall|u: WallUnit| self.units@.contains(u) ==> unit_coords_ok(self.sz(), u))
        &&& (forall|u1: WallUnit, u2: WallUnit|
            self.units@.contains(u1) && self.units@.contains(u2) && u1 != u2
                ==> !unit_conflict(u1, u2))
        &&& (forall|c: int, r: int| crossing_coords_ok(self.sz(), c, r)
            ==> (#[trigger] self.crossing_placed(c, r)
                <==> self.units@.contains(WallUnit { column: c, row: r, vertical: true })
                    || self.units@.contains(WallUnit { column: c, row: r, vertical: false })))
        &&& (forall|c: int, r: int, vertical: bool| seg_coords_ok(self.sz(), c, r, vertical)
            ==> (#[trigger] self.wall_seg_placed(c, r, vertical)
                <==> exists|u: WallUnit|
                    self.units@.contains(u) && unit_covers(u, c, r, vertical)))
    }

    /// Structural well-formedness: storage sizes, in-bounds player positions,
    /// and the unit bookkeeping.  Cache exactness comes on top of this.
    pub open spec fn wf_core(self) -> bool {
        &&& self.storage_ok()
        &&& cell_in_bounds(self.sz(), self.player_position(TwoPlayerIndices::White))
        &&& cell_in_bounds(self.sz(), self.player_position(TwoPlayerIndices::Black))
        &&& self.units_ok()
    }
}

/// Unit bookkeeping only reads the wall grids, the crossing grid and the
/// ghost unit set: boards that agree there agree on it.
pub proof fn lemma_units_ok_same_storage(a: SquareBoard, b: SquareBoard)
    requires
        a.units_ok(),
        b.size == a.size,
        b.wall_positions@ == a.wall_positions@,
        b.wall_crossing_positions@ == a.wall_crossing_positions@,
        b.units@ == a.units@,
    ensures
        b.units_ok(),
{
    assert forall|c: int, r: int| crossing_coords_ok(b.sz(), c, r) implies (
    #[trigger] b.crossing_placed(c, r) <==> b.units@.contains(
        WallUnit { column: c, row: r, vertical: true },
    ) || b.units@.contains(WallUnit { column: c, row: r, vertical: false })) by {
        assert(b.crossing_placed(c, r) == a.crossing_placed(c, r));
        assert(a.crossing_placed(c, r) <==> a.units@.contains(
            WallUnit { column: c, row: r, vertical: true },
        ) || a.units@.contains(WallUnit { column: c, row: r, vertical: false }));
    }
    assert forall|c: int, r: int, vertical: bool|
        seg_coords_ok(b.sz(), c, r, vertical) implies (#[trigger] b.wall_seg_placed(c, r, vertical)
        <==> exists|u: WallUnit| b.units@.contains(u) && unit_covers(u, c, r, vertical)) by {
        assert(b.wall_seg_placed(c, r, vertical) == a.wall_seg_placed(c, r, vertical));
        assert(a.wall_seg_placed(c, r, vertical) <==> exists|u: WallUnit|
            a.units@.contains(u) && unit_covers(u, c, r, vertical));
    }
}

/// The flat index of a wall segment stays inside the wall grid, computed
/// without overflow.
pub proof fn lemma_wall_seg_index_bounds(size: int, c: int, r: int, vertical: bool)
    requires
        2 <= size,
        seg_coords_ok(size, c, r, vertical),
    ensures
        0 <= wall_seg_index(size, c, r, vertical) < 2 * size * (size - 1),
{
    if vertical {
        assert(r + size * c <= (size - 1) + size * (size - 2) < 2 * size * (size - 1))
            by (nonlinear_arith)
            requires 2 <= size && c <= size - 2 && r <= size - 1;
        assert(size * c >= 0) by (nonlinear_arith)
            requires size >= 0 && c >= 0;
    } else {
        assert(size * (size - 1) + c + size * r <= size * (size - 1) + (size - 1) + size * (size
            - 2) < 2 * size * (size - 1)) by (nonlinear_arith)
            requires 2 <= size && c <= size - 1 && r <= size - 2;
        assert(size * (size - 1) + c + size * r >= 0) by (nonlinear_arith)
            requires 2 <= size && c >= 0 && r >= 0;
    }
}

/// Distinct wall segments have distinct flat indices.
pub proof fn lemma_wall_seg_index_injective(
    size: int,
    c1: int,
    r1: int,
    v1: bool,
    c2: int,
    r2: int,
    v2: bool,
)
    requires
        2 <= size,
        seg_coords_ok(size, c1, r1, v1),
        seg_coords_ok(size, c2, r2, v2),
        wall_seg_index(size, c1, r1, v1) == wall_seg_index(size, c2, r2, v2),
    ensures
        c1 == c2 && r1 == r2 && v1 == v2,
{
    assert(c1 == c2 && r1 == r2 && v1 == v2) by (nonlinear_arith)
        requires
            2 <= size,
            seg_coords_ok(size, c1, r1, v1),
            seg_coords_ok(size, c2, r2, v2),
            wall_seg_index(size, c1, r1, v1) == wall_seg_index(size, c2, r2, v2);
}

/// The flat index of a crossing stays inside the crossing grid.
pub proof fn lemma_crossing_index_bounds(size: int, c: int, r: int)
    requires
        2 <= size,
        crossing_coords_ok(size, c, r),
    ensures
        0 <= crossing_index(size, c, r) < (size - 1) * (size - 1),
{
    assert(0 <= c + (size - 1) * r < (size - 1) * (size - 1)) by (nonlinear_arith)
        requires 2 <= size && 0 <= c < size - 1 && 0 <= r < size - 1;
}

/// Distinct crossings have distinct flat indices.
pub proof fn lemma_crossing_index_injective(size: int, c1: int, r1: int, c2: int, r2: int)
    requires
        2 <= size,
        crossing_coords_ok(size, c1, r1),
        crossing_coords_ok(size, c2, r2),
        crossing_index(size, c1, r1) == crossing_index(size, c2, r2),
    ensures
        c1 == c2 && r1 == r2,
{
    assert(c1 == c2 && r1 == r2) by (nonlinear_arith)
        requires
            2 <= size,
            crossing_coords_ok(size, c1, r1),
            crossing_coords_ok(size, c2, r2),
            crossing_index(size, c1, r1) == crossing_index(size, c2, r2);
}

/// Exact flat position of a wall segment, as executable code.
fn wall_index_exec(size: usize, c: usize, r: usize, vertical: bool) -> (i: usize)
    requires
        2 <= size,
        2 * (size as int) * (size as int) <= usize::MAX,
        seg_coords_ok(size as int, c as int, r as int, vertical),
    ensures
        i == wall_seg_index(size as int, c as int, r as int, vertical),
        i < 2 * (size as int) * (size as int - 1),
{
    proof {
        lemma_wall_seg_index_bounds(size as int, c as int, r as int, vertical);
        assert(2 * (size as int) * (size as int - 1) <= 2 * (size as int) * (size as int)
            && 0 <= (size as int) * (c as int) && 0 <= (size as int) * (r as int)
            && 0 <= (size as int) * (size as int - 1)) by (nonlinear_arith)
            requires 2 <= size && 0 <= c as int && 0 <= r as int;
    }
    if vertical {
        r + size * c
    } else {
        size * (size - 1) + c + size * r
    }
}

/// Exact flat position of a crossing, as executable code.
fn crossing_index_exec(size: usize, c: usize, r: usize) -> (i: usize)
    requires
        2 <= size,
        2 * (size as int) * (size as int) <= usize::MAX,
        crossing_coords_ok(size as int, c as int, r as int),
    ensures
        i == crossing_index(size as int, c as int, r as int),
        i < (size as int - 1) * (size as int - 1),
{
    proof {
        lemma_crossing_index_bounds(size as int, c as int, r as int);
        assert((size as int - 1) * (size as int - 1) <= 2 * (size as int) * (size as int)
            && 0 <= (size as int - 1) * (r as int)) by (nonlinear_arith)
            requires 2 <= size && 0 <= r as int;
    }
    c + (size - 1) * r
}

impl SquareBoard {
    /// Read one wall segment.  "Unsafe" here means unchecked: the caller
    /// guarantees that the addressed segment exists.
    pub fn wall_lookup_unsafe(
        &self,
        lower_left_field: FieldIndexSquare,
        is_left_or_right: bool,
    ) -> (r: WallPlaced)
        requires
            self.storage_ok(),
            seg_coords_ok(
                self.sz(),
                lower_left_field.column as int,
                lower_left_field.row as int,
                is_left_or_right,
            ),
        ensures
            (r == WallPlaced::IsWall) == self.wall_seg_placed(
                lower_left_field.column as int,
                lower_left_field.row as int,
                is_left_or_right,
            ),
    {
        let i = wall_index_exec(
            self.size,
            lower_left_field.column,
            lower_left_field.row,
            is_left_or_right,
        );
        self.wall_positions[i]
    }

    /// Read one crossing.  The caller guarantees that the crossing exists.
    pub fn croosing_lookup_unsafe(&self, lower_left_field: FieldIndexSquare) -> (r: WallCrossing)
        requires
            self.storage_ok(),
            crossing_coords_ok(
                self.sz(),
                lower_left_field.column as int,
                lower_left_field.row as int,
            ),
        ensures
            (r == WallCrossing::IsWallCrossing) == self.crossing_placed(
                lower_left_field.column as int,
                lower_left_field.row as int,
            ),
    {
        let i = crossing_index_exec(self.size, lower_left_field.column, lower_left_field.row);
        self.wall_crossing_positions[i]
    }

    /// Overwrite one wall segment.
    pub(crate) fn set_wall_seg(
        &mut self,
        c: usize,
        r: usize,
        vertical: bool,
        value: WallPlaced,
    )
        requires
            old(self).storage_ok(),
            seg_coords_ok(old(self).sz(), c as int, r as int, vertical),
        ensures
            final(self).wall_positions@ == old(self).wall_positions@.update(
                wall_seg_index(old(self).sz(), c as int, r as int, vertical),
                value,
            ),
            final(self).size == old(self).size,
            final(self).wall_crossing_positions == old(self).wall_crossing_positions,
            final(self).white_data == old(self).white_data,
            final(self).black_data == old(self).black_data,
            final(self).units == old(self).units,
    {
        let i = wall_index_exec(self.size, c, r, vertical);
        self.wall_positions.set(i, value);
    }

    /// Overwrite one crossing.
    pub(crate) fn set_crossing(&mut self, c: usize, r: usize, value: WallCrossing)
        requires
            old(self).storage_ok(),
            crossing_coords_ok(old(self).sz(), c as int, r as int),
        ensures
            final(self).wall_crossing_positions@ == old(self).wall_crossing_positions@.update(
                crossing_index(old(self).sz(), c as int, r as int),
                value,
            ),
            final(self).size == old(self).size,
            final(self).wall_positions == old(self).wall_positions,
            final(self).white_data == old(self).white_data,
            final(self).black_data == old(self).black_data,
            final(self).units == old(self).units,
    {
        let i = crossing_index_exec(self.size, c, r);
        self.wall_crossing_positions.set(i, value);
    }

    /// The adjacent cell in the given direction, or nothing exactly when the
    /// cell lies on the board edge in that direction.
    pub fn get_field_in_direction(
        &self,
        field: FieldIndexSquare,
        direction: DirectionsSquare,
    ) -> (r: Option<(FieldIndexSquare, DirectionsSquare)>)
        requires
            2 <= self.size,
            cell_in_bounds(self.sz(), field),
        ensures
            r == neighbor_pair_spec(self.sz(), field, direction),
            r is None <==> ((direction == DirectionsSquare::Right && field.column as int
                == self.sz() - 1) || (direction == DirectionsSquare::Left && field.column == 0)
                || (direction == DirectionsSquare::Up && field.row as int == self.sz() - 1)
                || (direction == DirectionsSquare::Down && field.row == 0)),
            r is Some ==> cell_in_bounds(self.sz(), (r->0).0),
    {
        match direction {
            DirectionsSquare::Up => if field.row == self.size - 1 {
                None
            } else {
                Some((FieldIndexSquare { column: field.column, row: field.row + 1 }, direction))
            },
            DirectionsSquare::Down => if field.row == 0 {
                None
            } else {
                Some((FieldIndexSquare { column: field.column, row: field.row - 1 }, direction))
            },
            DirectionsSquare::Left => if field.column == 0 {
                None
            } else {
                Some((FieldIndexSquare { column: field.column - 1, row: field.row }, direction))
            },
            DirectionsSquare::Right => if field.column == self.size - 1 {
                None
            } else {
                Some((FieldIndexSquare { column: field.column + 1, row: field.row }, direction))
            },
        }
    }

    /// Is the step from `field` in `direction` blocked by a wall segment?
    /// The caller guarantees that the step stays on the board.
    pub fn check_for_wall_unsafe(
        &self,
        field: FieldIndexSquare,
        direction: DirectionsSquare,
    ) -> (r: WallPlaced)
        requires
            self.storage_ok(),
            cell_in_bounds(self.sz(), field),
            neighbor_spec(self.sz(), field, direction) is Some,
        ensures
            (r == WallPlaced::IsWall) == step_blocked(
                self.sz(),
                self.wall_positions@,
                field,
                direction,
            ),
    {
        match direction {
            DirectionsSquare::Up => self.wall_lookup_unsafe(field, false),
            DirectionsSquare::Down => self.wall_lookup_unsafe(
                FieldIndexSquare { column: field.column, row: field.row - 1 },
                false,
            ),
            DirectionsSquare::Left => self.wall_lookup_unsafe(
                FieldIndexSquare { column: field.column - 1, row: field.row },
                true,
            ),
            DirectionsSquare::Right => self.wall_lookup_unsafe(field, true),
        }
    }

    /// Wall state of the edge leaving `field` in `direction`, or nothing at
    /// the board edge.
    pub fn check_for_wall(
        &self,
        field: FieldIndexSquare,
        direction: DirectionsSquare,
    ) -> (r: Option<WallPlaced>)
        requires
            self.storage_ok(),
            cell_in_bounds(self.sz(), field),
        ensures
            r is None <==> neighbor_spec(self.sz(), field, direction) is None,
            r is Some ==> ((r->0 == WallPlaced::IsWall) == step_blocked(
                self.sz(),
                self.wall_positions@,
                field,
                direction,
            )),
    {
        if self.get_field_in_direction(field, direction).is_none() {
            None
        } else {
            Some(self.check_for_wall_unsafe(field, direction))
        }
    }

    /// Is `field` on `player`'s goal baseline?
    pub fn is_final_field(&self, field: FieldIndexSquare, player: TwoPlayerIndices) -> (r: bool)
        requires
            2 <= self.size,
        ensures
            r == is_goal(self.sz(), player, field),
    {
        match player {
            TwoPlayerIndices::White => field.row == 0,
            TwoPlayerIndices::Black => field.row == self.size - 1,
        }
    }

    /// The state kept for one player.
    pub fn get_player_data(&self, player: TwoPlayerIndices) -> (r: &PlayerDataSquare)
        ensures
            *r == self.player_data_spec(player),
    {
        match player {
            TwoPlayerIndices::White => &self.white_data,
            TwoPlayerIndices::Black => &self.black_data,
        }
    }

    /// Every on-board neighbor of `field`, each with the direction that
    /// reaches it, in the fixed direction order.
    pub fn get_surrounding_fields(&self, field: FieldIndexSquare) -> (r: Vec<
        (FieldIndexSquare, DirectionsSquare),
    >)
        requires
            2 <= self.size,
            cell_in_bounds(self.sz(), field),
        ensures
            r@ == surrounding_spec(self.sz(), field),
    {
        let mut r: Vec<(FieldIndexSquare, DirectionsSquare)> = Vec::new();
        if let Some(x) = self.get_field_in_direction(field, DirectionsSquare::Up) {
            r.push(x);
        }
        if let Some(x) = self.get_field_in_direction(field, DirectionsSquare::Down) {
            r.push(x);
        }
        if let Some(x) = self.get_field_in_direction(field, DirectionsSquare::Left) {
            r.push(x);
        }
        if let Some(x) = self.get_field_in_direction(field, DirectionsSquare::Right) {
            r.push(x);
        }
        proof {
            assert(r@ =~= surrounding_spec(self.sz(), field));
        }
        r
    }

    /// Every neighbor a token can step to from `field`: on the board and
    /// not walled off, in the fixed direction order.
    pub fn get_surrounding_possible_fields(&self, field: FieldIndexSquare) -> (r: Vec<
        (FieldIndexSquare, DirectionsSquare),
    >)
        requires
            self.storage_ok(),
            cell_in_bounds(self.sz(), field),
        ensures
            r@ == reachable_spec(self.sz(), self.wall_positions@, field),
    {
        let mut r: Vec<(FieldIndexSquare, DirectionsSquare)> = Vec::new();
        if let Some(x) = self.get_field_in_direction(field, DirectionsSquare::Up) {
            if self.check_for_wall_unsafe(field, DirectionsSquare::Up) == WallPlaced::IsEmpty {
                r.push(x);
            }
        }
        if let Some(x) = self.get_field_in_direction(field, DirectionsSquare::Down) {
            if self.check_for_wall_unsafe(field, DirectionsSquare::Down) == WallPlaced::IsEmpty {
                r.push(x);
            }
        }
        if let Some(x) = self.get_field_in_direction(field, DirectionsSquare::Left) {
            if self.check_for_wall_unsafe(field, DirectionsSquare::Left) == WallPlaced::IsEmpty {
                r.push(x);
            }
        }
        if let Some(x) = self.get_field_in_direction(field, DirectionsSquare::Right) {
            if self.check_for_wall_unsafe(field, DirectionsSquare::Right) == WallPlaced::IsEmpty {
                r.push(x);
            }
        }
        proof {
            assert(r@ =~= reachable_spec(self.sz(), self.wall_positions@, field));
        }
        r
    }

    /// The player's current cell.
    pub fn get_current_field(&self, player: TwoPlayerIndices) -> (r: FieldIndexSquare)
        ensures
            r == self.player_position(player),
    {
        self.get_player_data(player).get_current_field()
    }
}

} // verus!
