//! Token movement: a step succeeds exactly when the target cell exists and
//! the edge is not walled, the mover's path cache is recomputed, and the
//! opponent is untouched.

use vstd::prelude::*;
use crate::board_square::DirectionsSquare;
use crate::board_square::FieldIndexSquare;
use crate::board_square::MoveError;
use crate::board_square::WallPlaced;
use crate::pathfinding::cell_at;
use crate::pathfinding::goal_path;
use crate::pathfinding::has_goal_path;
use crate::pathfinding::paths_view;
use crate::player_data::PathStep;
use crate::player::TwoPlayerIndices;
use crate::player_data::PlayerDataTrait;
use crate::square_board::SquareBoard;
use crate::square_board::cell_in_bounds;
use crate::square_board::is_goal;
use crate::square_board::neighbor_spec;
use crate::square_board::step_blocked;
use crate::square_board::step_ok;

verus! {

/// The direction that walks a step back.
pub open spec fn opposite(d: DirectionsSquare) -> DirectionsSquare {
    match d {
        DirectionsSquare::Up => DirectionsSquare::Down,
        DirectionsSquare::Down => DirectionsSquare::Up,
        DirectionsSquare::Left => DirectionsSquare::Right,
        DirectionsSquare::Right => DirectionsSquare::Left,
    }
}

/// Walls block both directions of an edge alike: a legal step can be walked
/// back.
pub proof fn lemma_step_symm(
    size: int,
    walls: Seq<WallPlaced>,
    a: FieldIndexSquare,
    d: DirectionsSquare,
    b: FieldIndexSquare,
)
    requires
        size <= usize::MAX,
        cell_in_bounds(size, a),
        step_ok(size, walls, a, d, b),
    ensures
        step_ok(size, walls, b, opposite(d), a),
        a != b,
{
    match d {
        DirectionsSquare::Up => {
            assert(b.row == a.row + 1 && b.column == a.column);
        },
        DirectionsSquare::Down => {
            assert(b.row == a.row - 1 && b.column == a.column);
        },
        DirectionsSquare::Left => {
            assert(b.column == a.column - 1 && b.row == a.row);
        },
        DirectionsSquare::Right => {
            assert(b.column == a.column + 1 && b.row == a.row);
        },
    }
}

/// A walk from `c` that first reaches the goal baseline at its final step,
/// at a cell other than `c`, can be shortened into a goal path proper: drop
/// everything up to the walk's last return to `c`.
#[verifier::spinoff_prover]
#[verifier::rlimit(100)]
pub proof fn lemma_strictify(
    size: int,
    walls: Seq<WallPlaced>,
    player: TwoPlayerIndices,
    c: FieldIndexSquare,
    q: Seq<PathStep>,
)
    requires
        q.len() >= 1,
        forall|i: int|
            #![trigger step_ok(size, walls, cell_at(c, q, i), q[i].1, q[i].0)]
            0 <= i < q.len() ==> step_ok(size, walls, cell_at(c, q, i), q[i].1, q[i].0),
        forall|i: int| 0 <= i < q.len() - 1 ==> !is_goal(size, player, (#[trigger] q[i]).0),
        is_goal(size, player, q[q.len() - 1].0),
        q[q.len() - 1].0 != c,
    ensures
        has_goal_path(size, walls, player, c),
    decreases q.len(),
{
    if exists|j: int| 0 <= j < q.len() && (#[trigger] q[j]).0 == c {
        let j = choose|j: int| 0 <= j < q.len() && (#[trigger] q[j]).0 == c;
        assert(!is_goal(size, player, c));
        assert(j < q.len() - 1);
        let q2 = Seq::new((q.len() - j - 1) as nat, |i: int| q[j + 1 + i]);
        assert forall|i: int| 0 <= i < q2.len() implies step_ok(
            size,
            walls,
            cell_at(c, q2, i),
            (#[trigger] q2[i]).1,
            q2[i].0,
        ) by {
            assert(q2[i] == q[j + 1 + i]);
            if i == 0 {
                assert(cell_at(c, q2, 0) == c);
                assert(cell_at(c, q, j + 1) == q[j].0);
                assert(step_ok(size, walls, cell_at(c, q, j + 1), q[j + 1].1, q[j + 1].0));
            } else {
                assert(q2[i - 1] == q[j + i]);
                assert(cell_at(c, q2, i) == q2[i - 1].0);
                assert(cell_at(c, q, j + 1 + i) == q[j + i].0);
                assert(step_ok(
                    size,
                    walls,
                    cell_at(c, q, j + 1 + i),
                    q[j + 1 + i].1,
                    q[j + 1 + i].0,
                ));
            }
        }
        assert forall|i: int| 0 <= i < q2.len() - 1 implies !is_goal(
            size,
            player,
            (#[trigger] q2[i]).0,
        ) by {
            assert(q2[i] == q[j + 1 + i]);
        }
        assert(q2[q2.len() - 1] == q[q.len() - 1]);
        lemma_strictify(size, walls, player, c, q2);
    } else {
        assert forall|i: int| 0 <= i < q.len() implies (#[trigger] q[i]).0 != c by {}
        assert(goal_path(size, walls, player, c, q));
    }
}

/// A single legal step cannot lose the goal: from the cell stepped onto —
/// as long as it is off the baseline — some goal path still exists, either
/// straight back onto a baseline start cell or by rerouting the old path.
pub proof fn lemma_move_has_goal(
    size: int,
    walls: Seq<WallPlaced>,
    player: TwoPlayerIndices,
    o: FieldIndexSquare,
    n: FieldIndexSquare,
    d: DirectionsSquare,
)
    requires
        size <= usize::MAX,
        cell_in_bounds(size, o),
        step_ok(size, walls, o, d, n),
        !is_goal(size, player, n),
        is_goal(size, player, o) || has_goal_path(size, walls, player, o),
    ensures
        has_goal_path(size, walls, player, n),
{
    lemma_step_symm(size, walls, o, d, n);
    let back: PathStep = (o, opposite(d));
    if is_goal(size, player, o) {
        let w = seq![back];
        assert(w[0] == back);
        assert(cell_at(n, w, 0) == n);
        assert(goal_path(size, walls, player, n, w));
    } else {
        let q = choose|q: Seq<PathStep>| goal_path(size, walls, player, o, q);
        let w = seq![back] + q;
        assert(w.len() == 1 + q.len());
        assert(w[0] == back);
        assert forall|i: int| 0 <= i < w.len() implies step_ok(
            size,
            walls,
            cell_at(n, w, i),
            (#[trigger] w[i]).1,
            w[i].0,
        ) by {
            if i == 0 {
                assert(cell_at(n, w, 0) == n);
            } else {
                assert(w[i] == q[i - 1]);
                if i == 1 {
                    assert(cell_at(n, w, 1) == w[0].0);
                    assert(cell_at(o, q, 0) == o);
                } else {
                    assert(w[i - 1] == q[i - 2]);
                    assert(cell_at(n, w, i) == w[i - 1].0);
                    assert(cell_at(o, q, i - 1) == q[i - 2].0);
                }
                assert(step_ok(size, walls, cell_at(o, q, i - 1), q[i - 1].1, q[i - 1].0));
            }
        }
        assert forall|i: int| 0 <= i < w.len() - 1 implies !is_goal(
            size,
            player,
            (#[trigger] w[i]).0,
        ) by {
            if i > 0 {
                assert(w[i] == q[i - 1]);
            }
        }
        assert(w[w.len() - 1] == q[q.len() - 1]);
        assert(is_goal(size, player, w[w.len() - 1].0));
        assert(w[w.len() - 1].0 != n);
        lemma_strictify(size, walls, player, n, w);
    }
}

/// A well-formed board keeps its mover reachable: after a legal step onto a
/// cell off the baseline, the moved player still has a goal path.
#[verifier::spinoff_prover]
proof fn lemma_mover_keeps_goal(
    ob: SquareBoard,
    player: TwoPlayerIndices,
    o: FieldIndexSquare,
    n: FieldIndexSquare,
    d: DirectionsSquare,
)
    requires
        ob.wf(),
        o == ob.player_position(player),
        step_ok(ob.sz(), ob.wall_positions@, o, d, n),
        !is_goal(ob.sz(), player, n),
    ensures
        has_goal_path(ob.sz(), ob.wall_positions@, player, n),
{
    if !ob.on_own_goal(player) {
        assert(ob.player_data_spec(player).shortest_paths.len() > 0);
        assert(goal_path(
            ob.sz(),
            ob.wall_positions@,
            player,
            o,
            paths_view(ob.player_data_spec(player).shortest_paths)[0],
        ));
        assert(has_goal_path(ob.sz(), ob.wall_positions@, player, o));
    }
    lemma_move_has_goal(ob.sz(), ob.wall_positions@, player, o, n, d);
}

impl SquareBoard {
    /// Carry out a step that is already known to be legal: relocate the
    /// player and recompute their path cache.
    #[verifier::spinoff_prover]
    #[verifier::rlimit(100)]
    fn commit_move(
        &mut self,
        player: TwoPlayerIndices,
        direction: DirectionsSquare,
        next_field: FieldIndexSquare,
    )
        requires
            old(self).wf(),
            step_ok(
                old(self).sz(),
                old(self).wall_positions@,
                old(self).player_position(player),
                direction,
                next_field,
            ),
            cell_in_bounds(old(self).sz(), next_field),
        ensures
            final(self).wf(),
            final(self).player_position(player) == next_field,
            final(self).player_data_spec(player.spec_other()) == old(self).player_data_spec(
                player.spec_other(),
            ),
            final(self).player_data_spec(player).wall_count == old(self).player_data_spec(
                player,
            ).wall_count,
            final(self).size == old(self).size,
            final(self).wall_positions == old(self).wall_positions,
            final(self).wall_crossing_positions == old(self).wall_crossing_positions,
            final(self).units == old(self).units,
    {
        let current_field = self.get_current_field(player);
        self.set_player_field(player, next_field);
        let new_paths = self.compute_shortest_paths(player);
        proof {
            if !is_goal(self.sz(), player, next_field) {
                lemma_mover_keeps_goal(*old(self), player, current_field, next_field, direction);
                assert(new_paths@.len() > 0) by {
                    if paths_view(new_paths).len() == 0 {
                        assert(!has_goal_path(
                            self.sz(),
                            self.wall_positions@,
                            player,
                            next_field,
                        ));
                    }
                }
            }
        }
        self.set_player_paths(player, new_paths);
        proof {
            let ob = *old(self);
            crate::square_board::lemma_units_ok_same_storage(ob, *self);
            assert(self.cache_ok(player.spec_other())) by {
                assert(self.player_data_spec(player.spec_other()) == ob.player_data_spec(
                    player.spec_other(),
                ));
                assert(self.player_position(player.spec_other()) == ob.player_position(
                    player.spec_other(),
                ));
            }
            assert(self.cache_ok(player));
            assert(self.wf());
        }
    }

    /// Put `player` on `new_position`.  No legality check: the move logic
    /// owns that.
    pub(crate) fn set_player_field(
        &mut self,
        player: TwoPlayerIndices,
        new_position: FieldIndexSquare,
    )
        ensures
            final(self).player_data_spec(player).current_field == new_position,
            final(self).player_data_spec(player).wall_count == old(self).player_data_spec(
                player,
            ).wall_count,
            final(self).player_data_spec(player).shortest_paths == old(self).player_data_spec(
                player,
            ).shortest_paths,
            final(self).player_data_spec(player.spec_other()) == old(self).player_data_spec(
                player.spec_other(),
            ),
            final(self).size == old(self).size,
            final(self).wall_positions == old(self).wall_positions,
            final(self).wall_crossing_positions == old(self).wall_crossing_positions,
            final(self).units == old(self).units,
    {
        match player {
            TwoPlayerIndices::White => self.white_data.change_current_field(new_position),
            TwoPlayerIndices::Black => self.black_data.change_current_field(new_position),
        }
    }

    /// Replace `player`'s cached shortest-path list.
    pub(crate) fn set_player_paths(
        &mut self,
        player: TwoPlayerIndices,
        new_list: Vec<Vec<PathStep>>,
    )
        ensures
            final(self).player_data_spec(player).shortest_paths == new_list,
            final(self).player_data_spec(player).wall_count == old(self).player_data_spec(
                player,
            ).wall_count,
            final(self).player_data_spec(player).current_field == old(self).player_data_spec(
                player,
            ).current_field,
            final(self).player_data_spec(player.spec_other()) == old(self).player_data_spec(
                player.spec_other(),
            ),
            final(self).size == old(self).size,
            final(self).wall_positions == old(self).wall_positions,
            final(self).wall_crossing_positions == old(self).wall_crossing_positions,
            final(self).units == old(self).units,
    {
        match player {
            TwoPlayerIndices::White => self.white_data.change_shortest_paths(new_list),
            TwoPlayerIndices::Black => self.black_data.change_shortest_paths(new_list),
        }
    }

    /// Recompute and store both players' shortest-path caches from the
    /// current wall configuration and positions.
    #[verifier::spinoff_prover]
    #[verifier::rlimit(100)]
    pub(crate) fn update_shortest_paths(&mut self)
        requires
            old(self).wf_core(),
        ensures
            final(self).wf_core(),
            final(self).size == old(self).size,
            final(self).wall_positions == old(self).wall_positions,
            final(self).wall_crossing_positions == old(self).wall_crossing_positions,
            final(self).units == old(self).units,
            final(self).player_position(TwoPlayerIndices::White) == old(self).player_position(
                TwoPlayerIndices::White,
            ),
            final(self).player_position(TwoPlayerIndices::Black) == old(self).player_position(
                TwoPlayerIndices::Black,
            ),
            final(self).player_data_spec(TwoPlayerIndices::White).wall_count == old(
                self,
            ).player_data_spec(TwoPlayerIndices::White).wall_count,
            final(self).player_data_spec(TwoPlayerIndices::Black).wall_count == old(
                self,
            ).player_data_spec(TwoPlayerIndices::Black).wall_count,
            final(self).board_all_shortest(
                TwoPlayerIndices::White,
                paths_view(final(self).player_data_spec(TwoPlayerIndices::White).shortest_paths),
            ),
            final(self).board_all_shortest(
                TwoPlayerIndices::Black,
                paths_view(final(self).player_data_spec(TwoPlayerIndices::Black).shortest_paths),
            ),
            final(self).player_data_spec(TwoPlayerIndices::White).shortest_paths.len() > 0
                <==> final(self).board_has_goal_path(TwoPlayerIndices::White),
            final(self).player_data_spec(TwoPlayerIndices::Black).shortest_paths.len() > 0
                <==> final(self).board_has_goal_path(TwoPlayerIndices::Black),
    {
        let white_paths = self.compute_shortest_paths(TwoPlayerIndices::White);
        proof {
            if paths_view(white_paths).len() > 0 {
                assert(goal_path(
                    self.sz(),
                    self.wall_positions@,
                    TwoPlayerIndices::White,
                    self.player_position(TwoPlayerIndices::White),
                    paths_view(white_paths)[0],
                ));
            }
        }
        self.set_player_paths(TwoPlayerIndices::White, white_paths);
        let black_paths = self.compute_shortest_paths(TwoPlayerIndices::Black);
        proof {
            if paths_view(black_paths).len() > 0 {
                assert(goal_path(
                    self.sz(),
                    self.wall_positions@,
                    TwoPlayerIndices::Black,
                    self.player_position(TwoPlayerIndices::Black),
                    paths_view(black_paths)[0],
                ));
            }
        }
        self.set_player_paths(TwoPlayerIndices::Black, black_paths);
        proof {
            crate::square_board::lemma_units_ok_same_storage(*old(self), *self);
        }
    }

    /// Move `player` one cell.  Fails with `BoardBoundary` exactly when the
    /// target cell is off the board, with `Wall` exactly when a wall segment
    /// blocks the edge; a refusal leaves the board untouched.  On success
    /// the player stands on the adjacent cell and their path cache is the
    /// exact recomputation; the opponent's state never changes.
    #[verifier::spinoff_prover]
    #[verifier::rlimit(100)]
    pub fn move_player(
        &mut self,
        player: TwoPlayerIndices,
        direction: DirectionsSquare,
    ) -> (r: Option<MoveError>)
        requires
            old(self).wf(),
        ensures
            final(self).wf(),
            r == Some(MoveError::BoardBoundary) <==> neighbor_spec(
                old(self).sz(),
                old(self).player_position(player),
                direction,
            ) is None,
            r == Some(MoveError::Wall) <==> (neighbor_spec(
                old(self).sz(),
                old(self).player_position(player),
                direction,
            ) is Some && step_blocked(
                old(self).sz(),
                old(self).wall_positions@,
                old(self).player_position(player),
                direction,
            )),
            r is Some ==> *final(self) == *old(self),
            r is None <==> (neighbor_spec(
                old(self).sz(),
                old(self).player_position(player),
                direction,
            ) is Some && !step_blocked(
                old(self).sz(),
                old(self).wall_positions@,
                old(self).player_position(player),
                direction,
            )),
            r is None ==> final(self).player_position(player) == neighbor_spec(
                old(self).sz(),
                old(self).player_position(player),
                direction,
            )->0,
            r is None ==> final(self).player_data_spec(player.spec_other()) == old(
                self,
            ).player_data_spec(player.spec_other()),
            r is None ==> final(self).player_data_spec(player).wall_count == old(
                self,
            ).player_data_spec(player).wall_count,
            final(self).size == old(self).size,
            final(self).wall_positions == old(self).wall_positions,
            final(self).wall_crossing_positions == old(self).wall_crossing_positions,
            final(self).units == old(self).units,
    {
        let current_field = self.get_current_field(player);
        match self.get_field_in_direction(current_field, direction) {
            None => Some(MoveError::BoardBoundary),
            Some((next_field, _)) => {
                if self.check_for_wall_unsafe(current_field, direction) == WallPlaced::IsWall {
                    Some(MoveError::Wall)
                } else {
                    self.commit_move(player, direction, next_field);
                    None
                }
            },
        }
    }
}

} // verus!
