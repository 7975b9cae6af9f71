//! The global guarantees of the engine, stated as theorems over any
//! well-formed board: the blocking invariant, the crossing/segment
//! bookkeeping, and the determinacy of shortest-path enumeration.

use vstd::prelude::*;
use crate::board_square::FieldIndexSquare;
use crate::board_square::WallPlaced;
use crate::pathfinding::all_shortest;
use crate::pathfinding::dirs_lex_lt;
use crate::pathfinding::goal_path;
use crate::pathfinding::has_goal_path;
use crate::pathfinding::lemma_lex_asym;
use crate::pathfinding::path_dirs;
use crate::pathfinding::paths_view;
use crate::player::TwoPlayerIndices;
use crate::player_data::PathStep;
use crate::square_board::SquareBoard;
use crate::square_board::WallUnit;
use crate::square_board::crossing_coords_ok;
use crate::square_board::unit_covers;

verus! {

/// The blocking invariant: on any well-formed board where neither player
/// has reached their own baseline yet, both players still have a path to
/// their goal, and both cached path lists are non-empty.  (Once a player
/// stands on their own baseline, a wall unit placed beforehand may seal
/// them in with it, and the list of paths to a further baseline cell can
/// be empty.)
pub proof fn lemma_blocking_invariant(b: SquareBoard)
    requires
        b.wf(),
        !b.on_own_goal(TwoPlayerIndices::White),
        !b.on_own_goal(TwoPlayerIndices::Black),
    ensures
        b.board_has_goal_path(TwoPlayerIndices::White),
        b.board_has_goal_path(TwoPlayerIndices::Black),
        b.player_data_spec(TwoPlayerIndices::White).shortest_paths.len() > 0,
        b.player_data_spec(TwoPlayerIndices::Black).shortest_paths.len() > 0,
{
    assert(goal_path(
        b.sz(),
        b.wall_positions@,
        TwoPlayerIndices::White,
        b.player_position(TwoPlayerIndices::White),
        paths_view(b.player_data_spec(TwoPlayerIndices::White).shortest_paths)[0],
    ));
    assert(goal_path(
        b.sz(),
        b.wall_positions@,
        TwoPlayerIndices::Black,
        b.player_position(TwoPlayerIndices::Black),
        paths_view(b.player_data_spec(TwoPlayerIndices::Black).shortest_paths)[0],
    ));
}

/// The crossing invariant: a crossing is occupied exactly when a wall unit
/// was placed on it, and every placed unit has both of its wall segments
/// placed.  In particular an occupied crossing always sits between two
/// placed segments of one unit.
pub proof fn lemma_crossing_invariant(b: SquareBoard)
    requires
        b.wf_core(),
    ensures
        forall|c: int, r: int|
            crossing_coords_ok(b.sz(), c, r) ==> (#[trigger] b.crossing_placed(c, r)
                <==> b.units@.contains(WallUnit { column: c, row: r, vertical: true })
                    || b.units@.contains(WallUnit { column: c, row: r, vertical: false })),
        forall|c: int, r: int|
            crossing_coords_ok(b.sz(), c, r) && #[trigger] b.crossing_placed(c, r) ==> ((
            b.wall_seg_placed(c, r, true) && b.wall_seg_placed(c, r + 1, true)) || (
            b.wall_seg_placed(c, r, false) && b.wall_seg_placed(c + 1, r, false))),
{
    assert forall|c: int, r: int|
        crossing_coords_ok(b.sz(), c, r) && #[trigger] b.crossing_placed(c, r) implies ((
    b.wall_seg_placed(c, r, true) && b.wall_seg_placed(c, r + 1, true)) || (b.wall_seg_placed(
        c,
        r,
        false,
    ) && b.wall_seg_placed(c + 1, r, false))) by {
        let uv = WallUnit { column: c, row: r, vertical: true };
        let uh = WallUnit { column: c, row: r, vertical: false };
        if b.units@.contains(uv) {
            assert(unit_covers(uv, c, r, true));
            assert(unit_covers(uv, c, r + 1, true));
            assert(b.wall_seg_placed(c, r, true) && b.wall_seg_placed(c, r + 1, true));
        } else {
            assert(b.units@.contains(uh));
            assert(unit_covers(uh, c, r, false));
            assert(unit_covers(uh, c + 1, r, false));
            assert(b.wall_seg_placed(c, r, false) && b.wall_seg_placed(c + 1, r, false));
        }
    }
}

/// Two lists that both satisfy the exact characterization and agree up to
/// position `i` agree everywhere: at the first disagreement each entry's
/// copy in the other list would have to sit strictly later, making each
/// lexicographically greater than the other.
#[verifier::spinoff_prover]
#[verifier::rlimit(100)]
proof fn lemma_sorted_lists_eq_from(
    p1: Seq<Seq<PathStep>>,
    p2: Seq<Seq<PathStep>>,
    len0: int,
    i: int,
)
    requires
        p1.len() == p2.len(),
        p1.no_duplicates(),
        p2.no_duplicates(),
        forall|i1: int, i2: int|
            #![trigger p1[i1], p1[i2]]
            0 <= i1 < i2 < p1.len() ==> dirs_lex_lt(path_dirs(p1[i1]), path_dirs(p1[i2])),
        forall|i1: int, i2: int|
            #![trigger p2[i1], p2[i2]]
            0 <= i1 < i2 < p2.len() ==> dirs_lex_lt(path_dirs(p2[i1]), path_dirs(p2[i2])),
        forall|m: int| 0 <= m < p1.len() ==> (#[trigger] p1[m]).len() == len0,
        forall|m: int| 0 <= m < p2.len() ==> (#[trigger] p2[m]).len() == len0,
        forall|m: int| 0 <= m < p1.len() ==> p2.contains(#[trigger] p1[m]),
        forall|m: int| 0 <= m < p2.len() ==> p1.contains(#[trigger] p2[m]),
        0 <= i <= p1.len(),
        forall|m: int| 0 <= m < i ==> p1[m] == p2[m],
    ensures
        forall|m: int| 0 <= m < p1.len() ==> p1[m] == p2[m],
    decreases p1.len() - i,
{
    if i < p1.len() {
        assert(p2.contains(p1[i]));
        let j = choose|j: int| 0 <= j < p2.len() && p2[j] == p1[i];
        assert(p1.contains(p2[i]));
        let j2 = choose|j: int| 0 <= j < p1.len() && p1[j] == p2[i];
        if p1[i] != p2[i] {
            if j < i {
                assert(p2[j] == p1[j]);
                assert(p1[j] == p1[i] && j != i);
                assert(false);
            }
            if j2 < i {
                assert(p1[j2] == p2[j2]);
                assert(p2[j2] == p2[i] && j2 != i);
                assert(false);
            }
            assert(i < j && i < j2);
            assert(dirs_lex_lt(path_dirs(p2[i]), path_dirs(p2[j])));
            assert(path_dirs(p2[j]) == path_dirs(p1[i]));
            assert(dirs_lex_lt(path_dirs(p1[i]), path_dirs(p1[j2])));
            assert(path_dirs(p1[j2]) == path_dirs(p2[i]));
            assert(path_dirs(p2[i]).len() == p2[i].len());
            assert(path_dirs(p1[i]).len() == p1[i].len());
            lemma_lex_asym(path_dirs(p2[i]), path_dirs(p1[i]));
            assert(false);
        }
        lemma_sorted_lists_eq_from(p1, p2, len0, i + 1);
    }
}

/// Shortest-path enumeration is determined by the board alone: any two
/// lists that both satisfy the exact characterization are equal, entry for
/// entry — each holds every minimum-length goal path exactly once, in the
/// fixed discovery order.  Repeating the query with no intervening mutation
/// therefore returns the identical list.
pub proof fn lemma_all_shortest_unique(
    size: int,
    walls: Seq<WallPlaced>,
    player: TwoPlayerIndices,
    s: FieldIndexSquare,
    p1: Seq<Seq<PathStep>>,
    p2: Seq<Seq<PathStep>>,
)
    requires
        all_shortest(size, walls, player, s, p1),
        all_shortest(size, walls, player, s, p2),
    ensures
        forall|q: Seq<PathStep>| p1.contains(q) <==> p2.contains(q),
        p1.len() == p2.len(),
        p1 == p2,
{
    if p1.len() > 0 && p2.len() == 0 {
        assert(goal_path(size, walls, player, s, p1[0]));
        assert(!has_goal_path(size, walls, player, s));
        assert(false);
    }
    if p2.len() > 0 && p1.len() == 0 {
        assert(goal_path(size, walls, player, s, p2[0]));
        assert(!has_goal_path(size, walls, player, s));
        assert(false);
    }
    assert forall|q: Seq<PathStep>| p1.contains(q) implies p2.contains(q) by {
        let i = choose|i: int| 0 <= i < p1.len() && p1[i] == q;
        assert(goal_path(size, walls, player, s, p1[i]));
        assert(goal_path(size, walls, player, s, p2[0]));
        assert(p2[0].len() <= q.len());
        assert(p1[i].len() <= p2[0].len());
        assert(q.len() == p2[0].len());
        assert(p2.contains(q));
    }
    assert forall|q: Seq<PathStep>| p2.contains(q) implies p1.contains(q) by {
        let i = choose|i: int| 0 <= i < p2.len() && p2[i] == q;
        assert(goal_path(size, walls, player, s, p2[i]));
        assert(goal_path(size, walls, player, s, p1[0]));
        assert(p1[0].len() <= q.len());
        assert(p2[i].len() <= p1[0].len());
        assert(q.len() == p1[0].len());
        assert(p1.contains(q));
    }
    p1.unique_seq_to_set();
    p2.unique_seq_to_set();
    assert(p1.to_set() =~= p2.to_set());
    let len0: int = if p1.len() > 0 {
        p1[0].len() as int
    } else {
        0
    };
    assert forall|m: int| 0 <= m < p1.len() implies (#[trigger] p1[m]).len() == len0 by {
        assert(goal_path(size, walls, player, s, p1[m]));
        assert(goal_path(size, walls, player, s, p1[0]));
        assert(p1[m].len() <= p1[0].len());
        assert(p1[0].len() <= p1[m].len());
    }
    assert forall|m: int| 0 <= m < p2.len() implies (#[trigger] p2[m]).len() == len0 by {
        assert(goal_path(size, walls, player, s, p2[m]));
        assert(goal_path(size, walls, player, s, p2[0]));
        assert(goal_path(size, walls, player, s, p1[0]));
        assert(p2[m].len() <= p2[0].len() && p2[0].len() <= p2[m].len());
        assert(p2[0].len() <= p1[0].len() && p1[0].len() <= p2[0].len());
    }
    assert forall|m: int| 0 <= m < p1.len() implies p2.contains(#[trigger] p1[m]) by {
        assert(0 <= m < p1.len() && p1[m] == p1[m]);
        assert(p1.contains(p1[m]));
    }
    assert forall|m: int| 0 <= m < p2.len() implies p1.contains(#[trigger] p2[m]) by {
        assert(0 <= m < p2.len() && p2[m] == p2[m]);
        assert(p2.contains(p2[m]));
    }
    lemma_sorted_lists_eq_from(p1, p2, len0, 0);
    assert(p1 =~= p2);
}

/// Query idempotence at the board level: any two recomputations of a
/// player's shortest paths on the same board — in particular two calls with
/// no intervening mutation — yield the identical list.
pub proof fn lemma_query_idempotent(
    b: SquareBoard,
    player: TwoPlayerIndices,
    r1: Seq<Seq<PathStep>>,
    r2: Seq<Seq<PathStep>>,
)
    requires
        b.board_all_shortest(player, r1),
        b.board_all_shortest(player, r2),
    ensures
        r1 == r2,
{
    lemma_all_shortest_unique(
        b.sz(),
        b.wall_positions@,
        player,
        b.player_position(player),
        r1,
        r2,
    );
}

} // verus!
