//! Shortest-path enumeration: the specification of wall-respecting paths,
//! the level-synchronous breadth-first search that returns every
//! minimum-length path to the goal baseline, and the board's full
//! well-formedness predicate (structure plus exact, non-stale path caches).

use vstd::prelude::*;
use crate::board_square::DirectionsSquare;
use crate::board_square::DirectionsTrait;
use crate::board_square::FieldIndexSquare;
use crate::board_square::WallPlaced;
use crate::player::TwoPlayerIndices;
use crate::player_data::PathStep;
use crate::player_data::PlayerDataSquare;
use crate::square_board::SquareBoard;
use crate::square_board::cell_in_bounds;
use crate::square_board::is_goal;
use crate::square_board::neighbor_spec;
use crate::square_board::neighbor_pair_spec;
use crate::square_board::step_blocked;
use crate::square_board::step_ok;

verus! {

/// The cell where a walk from `s` stands after `i` of the steps of `p`.
pub open spec fn cell_at(s: FieldIndexSquare, p: Seq<PathStep>, i: int) -> FieldIndexSquare {
    if i == 0 {
        s
    } else {
        p[i - 1].0
    }
}

/// The cell where the whole walk ends.
pub open spec fn path_end(s: FieldIndexSquare, p: Seq<PathStep>) -> FieldIndexSquare {
    cell_at(s, p, p.len() as int)
}

/// Every step of `p` is a legal step from where the previous one ended.
pub open spec fn valid_from(
    size: int,
    walls: Seq<WallPlaced>,
    s: FieldIndexSquare,
    p: Seq<PathStep>,
) -> bool {
    forall|i: int|
        0 <= i < p.len() ==> step_ok(size, walls, cell_at(s, p, i), (#[trigger] p[i]).1, p[i].0)
}

/// An interior path: a legal walk from `s` that never enters the goal
/// baseline and never returns to `s`.
pub open spec fn ipath(
    size: int,
    walls: Seq<WallPlaced>,
    player: TwoPlayerIndices,
    s: FieldIndexSquare,
    p: Seq<PathStep>,
) -> bool {
    &&& valid_from(size, walls, s, p)
    &&& forall|i: int|
        0 <= i < p.len() ==> !is_goal(size, player, (#[trigger] p[i]).0) && p[i].0 != s
}

/// Is `c` reachable from `s` by an interior path of at most `n` steps?
pub open spec fn ireach(
    size: int,
    walls: Seq<WallPlaced>,
    player: TwoPlayerIndices,
    s: FieldIndexSquare,
    c: FieldIndexSquare,
    n: int,
) -> bool {
    exists|p: Seq<PathStep>|
        #[trigger] ipath(size, walls, player, s, p) && p.len() <= n && path_end(s, p) == c
}

/// A goal path: at least one step, legal throughout, off the goal baseline
/// and away from `s` until the final step, which enters the goal baseline.
pub open spec fn goal_path(
    size: int,
    walls: Seq<WallPlaced>,
    player: TwoPlayerIndices,
    s: FieldIndexSquare,
    p: Seq<PathStep>,
) -> bool {
    &&& p.len() >= 1
    &&& valid_from(size, walls, s, p)
    &&& forall|i: int|
        0 <= i < p.len() - 1 ==> !is_goal(size, player, (#[trigger] p[i]).0) && p[i].0 != s
    &&& is_goal(size, player, p[p.len() - 1].0)
    &&& p[p.len() - 1].0 != s
}

/// Does any goal path exist at all?
pub open spec fn has_goal_path(
    size: int,
    walls: Seq<WallPlaced>,
    player: TwoPlayerIndices,
    s: FieldIndexSquare,
) -> bool {
    exists|p: Seq<PathStep>| goal_path(size, walls, player, s, p)
}

/// The mathematical value of a list of paths.
pub open spec fn paths_view(v: Vec<Vec<PathStep>>) -> Seq<Seq<PathStep>> {
    v@.map_values(|p: Vec<PathStep>| p@)
}

/// `paths` holds exactly every minimum-length goal path, each exactly once
/// and in the canonical discovery order: each entry is a goal path, no goal
/// path is shorter than any entry, every goal path of the entries' length
/// is an entry, no entry repeats, the entries ascend strictly in the
/// lexicographic order of their direction sequences, and the list is empty
/// only when no goal path exists at all.
pub open spec fn all_shortest(
    size: int,
    walls: Seq<WallPlaced>,
    player: TwoPlayerIndices,
    s: FieldIndexSquare,
    paths: Seq<Seq<PathStep>>,
) -> bool {
    &&& paths.no_duplicates()
    &&& (forall|i1: int, i2: int|
        #![trigger paths[i1], paths[i2]]
        0 <= i1 < i2 < paths.len() ==> dirs_lex_lt(path_dirs(paths[i1]), path_dirs(paths[i2])))
    &&& (forall|i: int|
        0 <= i < paths.len() ==> goal_path(size, walls, player, s, #[trigger] paths[i]))
    &&& (forall|i: int, q: Seq<PathStep>|
        #![trigger paths[i], goal_path(size, walls, player, s, q)]
        0 <= i < paths.len() && goal_path(size, walls, player, s, q) ==> paths[i].len()
            <= q.len())
    &&& (forall|q: Seq<PathStep>|
        #![trigger goal_path(size, walls, player, s, q)]
        goal_path(size, walls, player, s, q) && paths.len() > 0 && q.len() == paths[0].len()
            ==> paths.contains(q))
    &&& (paths.len() == 0 ==> !has_goal_path(size, walls, player, s))
}

impl SquareBoard {
    /// Exactly every minimum-length goal path for `player` on this board.
    pub open spec fn board_all_shortest(
        self,
        player: TwoPlayerIndices,
        paths: Seq<Seq<PathStep>>,
    ) -> bool {
        all_shortest(
            self.sz(),
            self.wall_positions@,
            player,
            self.player_position(player),
            paths,
        )
    }

    /// Does `player` have any path to their goal baseline?
    pub open spec fn board_has_goal_path(self, player: TwoPlayerIndices) -> bool {
        has_goal_path(self.sz(), self.wall_positions@, player, self.player_position(player))
    }

    /// Does `player` already stand on their own goal baseline?
    pub open spec fn on_own_goal(self, player: TwoPlayerIndices) -> bool {
        is_goal(self.sz(), player, self.player_position(player))
    }

    /// The cached path list of `player` is exactly the current recomputation
    /// — never stale — and, while the player has not yet reached their own
    /// baseline, non-empty: the blocking invariant.  (A player who already
    /// stands on their baseline can be sealed in with it, and then no path
    /// to a further baseline cell exists.)
    pub open spec fn cache_ok(self, player: TwoPlayerIndices) -> bool {
        &&& self.board_all_shortest(
            player,
            paths_view(self.player_data_spec(player).shortest_paths),
        )
        &&& (!self.on_own_goal(player) ==> self.player_data_spec(player).shortest_paths.len()
            > 0)
    }

    /// Full board well-formedness: structure, unit bookkeeping, and both
    /// players' caches exact and non-empty.
    pub open spec fn wf(self) -> bool {
        &&& self.wf_core()
        &&& self.cache_ok(TwoPlayerIndices::White)
        &&& self.cache_ok(TwoPlayerIndices::Black)
    }
}

/// Appending a legal step to an interior path gives an interior path when
/// the new cell is neither a goal cell nor the start.
pub proof fn lemma_ipath_push(
    size: int,
    walls: Seq<WallPlaced>,
    player: TwoPlayerIndices,
    s: FieldIndexSquare,
    p: Seq<PathStep>,
    g: FieldIndexSquare,
    d: DirectionsSquare,
)
    requires
        ipath(size, walls, player, s, p),
        step_ok(size, walls, path_end(s, p), d, g),
        !is_goal(size, player, g),
        g != s,
    ensures
        ipath(size, walls, player, s, p.push((g, d))),
        path_end(s, p.push((g, d))) == g,
        p.push((g, d)).len() == p.len() + 1,
{
    let q = p.push((g, d));
    assert forall|i: int| 0 <= i < q.len() implies step_ok(
        size,
        walls,
        cell_at(s, q, i),
        (#[trigger] q[i]).1,
        q[i].0,
    ) by {
        if i < p.len() {
            assert(q[i] == p[i]);
            assert(cell_at(s, q, i) == cell_at(s, p, i));
            assert(step_ok(size, walls, cell_at(s, p, i), p[i].1, p[i].0));
        } else {
            assert(q[i] == (g, d));
            assert(cell_at(s, q, i) == path_end(s, p));
        }
    }
    assert(path_end(s, q) == q[q.len() - 1].0);
}

/// Appending a legal step into the goal baseline onto an interior path
/// gives a goal path.
pub proof fn lemma_goal_push(
    size: int,
    walls: Seq<WallPlaced>,
    player: TwoPlayerIndices,
    s: FieldIndexSquare,
    p: Seq<PathStep>,
    g: FieldIndexSquare,
    d: DirectionsSquare,
)
    requires
        ipath(size, walls, player, s, p),
        step_ok(size, walls, path_end(s, p), d, g),
        is_goal(size, player, g),
        g != s,
    ensures
        goal_path(size, walls, player, s, p.push((g, d))),
        p.push((g, d)).len() == p.len() + 1,
{
    let q = p.push((g, d));
    assert forall|i: int| 0 <= i < q.len() implies step_ok(
        size,
        walls,
        cell_at(s, q, i),
        (#[trigger] q[i]).1,
        q[i].0,
    ) by {
        if i < p.len() {
            assert(q[i] == p[i]);
            assert(cell_at(s, q, i) == cell_at(s, p, i));
            assert(step_ok(size, walls, cell_at(s, p, i), p[i].1, p[i].0));
        } else {
            assert(q[i] == (g, d));
            assert(cell_at(s, q, i) == path_end(s, p));
        }
    }
    assert(q[q.len() - 1].0 == g);
    assert forall|i: int| 0 <= i < q.len() - 1 implies !is_goal(size, player, (#[trigger] q[i]).0)
        && q[i].0 != s by {
        assert(q[i] == p[i]);
    }
}

/// A prefix of an interior path is an interior path, ending where the walk
/// stood after that many steps.
pub proof fn lemma_ipath_take(
    size: int,
    walls: Seq<WallPlaced>,
    player: TwoPlayerIndices,
    s: FieldIndexSquare,
    p: Seq<PathStep>,
    n: int,
)
    requires
        ipath(size, walls, player, s, p),
        0 <= n <= p.len(),
    ensures
        ipath(size, walls, player, s, p.take(n)),
        p.take(n).len() == n,
        path_end(s, p.take(n)) == cell_at(s, p, n),
{
    let q = p.take(n);
    assert forall|i: int| 0 <= i < q.len() implies step_ok(
        size,
        walls,
        cell_at(s, q, i),
        (#[trigger] q[i]).1,
        q[i].0,
    ) by {
        assert(q[i] == p[i]);
        assert(cell_at(s, q, i) == cell_at(s, p, i));
        assert(step_ok(size, walls, cell_at(s, p, i), p[i].1, p[i].0));
    }
    assert forall|i: int| 0 <= i < q.len() implies !is_goal(size, player, (#[trigger] q[i]).0)
        && q[i].0 != s by {
        assert(q[i] == p[i]);
    }
}

/// The prefix of a goal path before its final step is an interior path, and
/// the final step is a legal step from that prefix's end into the goal row.
pub proof fn lemma_goal_path_split(
    size: int,
    walls: Seq<WallPlaced>,
    player: TwoPlayerIndices,
    s: FieldIndexSquare,
    q: Seq<PathStep>,
)
    requires
        goal_path(size, walls, player, s, q),
    ensures
        ipath(size, walls, player, s, q.take(q.len() - 1)),
        q.take(q.len() - 1).len() == q.len() - 1,
        step_ok(
            size,
            walls,
            path_end(s, q.take(q.len() - 1)),
            q[q.len() - 1].1,
            q[q.len() - 1].0,
        ),
        q == q.take(q.len() - 1).push(q[q.len() - 1]),
{
    let n = q.len() - 1;
    let p = q.take(n);
    assert forall|i: int| 0 <= i < p.len() implies step_ok(
        size,
        walls,
        cell_at(s, p, i),
        (#[trigger] p[i]).1,
        p[i].0,
    ) by {
        assert(p[i] == q[i]);
        assert(cell_at(s, p, i) == cell_at(s, q, i));
        assert(step_ok(size, walls, cell_at(s, q, i), q[i].1, q[i].0));
    }
    assert forall|i: int| 0 <= i < p.len() implies !is_goal(size, player, (#[trigger] p[i]).0)
        && p[i].0 != s by {
        assert(p[i] == q[i]);
    }
    assert(path_end(s, p) == cell_at(s, q, n));
    assert(step_ok(size, walls, cell_at(s, q, n), q[n].1, q[n].0));
    assert(q =~= q.take(n).push(q[n]));
}

/// The empty walk witnesses that the start is always interior-reachable.
pub proof fn lemma_ireach_start(
    size: int,
    walls: Seq<WallPlaced>,
    player: TwoPlayerIndices,
    s: FieldIndexSquare,
    n: int,
)
    requires
        n >= 0,
    ensures
        ireach(size, walls, player, s, s, n),
{
    let p = Seq::<PathStep>::empty();
    assert(ipath(size, walls, player, s, p));
    assert(path_end(s, p) == s);
}

/// A goal cell other than the start is never interior-reachable.
pub proof fn lemma_goal_not_ireach(
    size: int,
    walls: Seq<WallPlaced>,
    player: TwoPlayerIndices,
    s: FieldIndexSquare,
    g: FieldIndexSquare,
    n: int,
)
    requires
        is_goal(size, player, g),
        g != s,
    ensures
        !ireach(size, walls, player, s, g, n),
{
    assert forall|p: Seq<PathStep>|
        #[trigger] ipath(size, walls, player, s, p) && p.len() <= n implies path_end(s, p)
        != g by {
        if p.len() == 0 {
            assert(path_end(s, p) == s);
        } else {
            assert(!is_goal(size, player, p[p.len() - 1].0));
            assert(path_end(s, p) == p[p.len() - 1].0);
        }
    }
}

/// Interior reachability is monotone in the step budget.
pub proof fn lemma_ireach_mono(
    size: int,
    walls: Seq<WallPlaced>,
    player: TwoPlayerIndices,
    s: FieldIndexSquare,
    c: FieldIndexSquare,
    n: int,
    m: int,
)
    requires
        ireach(size, walls, player, s, c, n),
        n <= m,
    ensures
        ireach(size, walls, player, s, c, m),
{
    let p = choose|p: Seq<PathStep>|
        #[trigger] ipath(size, walls, player, s, p) && p.len() <= n && path_end(s, p) == c;
    assert(ipath(size, walls, player, s, p) && p.len() <= m && path_end(s, p) == c);
}

/// An interior path of exactly `level` steps whose end is not reachable any
/// faster: the breadth-first frontier at that level holds exactly these.
pub open spec fn tight_ipath(
    size: int,
    walls: Seq<WallPlaced>,
    player: TwoPlayerIndices,
    s: FieldIndexSquare,
    p: Seq<PathStep>,
    level: int,
) -> bool {
    &&& ipath(size, walls, player, s, p)
    &&& p.len() == level
    &&& !ireach(size, walls, player, s, path_end(s, p), level - 1)
}

/// No goal path has `n` steps or fewer.
pub open spec fn no_goal_path_upto(
    size: int,
    walls: Seq<WallPlaced>,
    player: TwoPlayerIndices,
    s: FieldIndexSquare,
    n: int,
) -> bool {
    forall|q: Seq<PathStep>|
        #![trigger goal_path(size, walls, player, s, q)]
        goal_path(size, walls, player, s, q) ==> q.len() > n
}

/// Dropping the last step of a tight interior path leaves a tight interior
/// path: were the prefix's end reachable faster, so would the whole path's.
pub proof fn lemma_tight_prefix(
    size: int,
    walls: Seq<WallPlaced>,
    player: TwoPlayerIndices,
    s: FieldIndexSquare,
    p: Seq<PathStep>,
    level: int,
)
    requires
        level >= 0,
        tight_ipath(size, walls, player, s, p, level + 1),
    ensures
        tight_ipath(size, walls, player, s, p.take(level), level),
        step_ok(
            size,
            walls,
            path_end(s, p.take(level)),
            p[level].1,
            p[level].0,
        ),
        p[level].0 == path_end(s, p),
        !is_goal(size, player, p[level].0),
        p[level].0 != s,
        p == p.take(level).push(p[level]),
{
    lemma_ipath_take(size, walls, player, s, p, level);
    let pp = p.take(level);
    assert(step_ok(size, walls, cell_at(s, p, level), p[level].1, p[level].0));
    assert(path_end(s, pp) == cell_at(s, p, level));
    assert(path_end(s, p) == p[level].0);
    if ireach(size, walls, player, s, path_end(s, pp), level - 1) {
        let r = choose|r: Seq<PathStep>|
            #[trigger] ipath(size, walls, player, s, r) && r.len() <= level - 1 && path_end(s, r)
                == path_end(s, pp);
        lemma_ipath_push(size, walls, player, s, r, p[level].0, p[level].1);
        assert(ipath(size, walls, player, s, r.push(p[level])) && r.push(p[level]).len() <= level
            && path_end(s, r.push(p[level])) == path_end(s, p));
        assert(ireach(size, walls, player, s, path_end(s, p), level));
        assert(false);
    }
    assert(p =~= p.take(level).push(p[level]));
}

/// When no interior path of exactly `level` steps is tight, every interior
/// path's end was already reachable within `level - 1` steps: the search
/// space is saturated.
pub proof fn lemma_ipath_collapse(
    size: int,
    walls: Seq<WallPlaced>,
    player: TwoPlayerIndices,
    s: FieldIndexSquare,
    level: int,
    p: Seq<PathStep>,
)
    requires
        level >= 0,
        forall|q: Seq<PathStep>| !tight_ipath(size, walls, player, s, q, level),
        ipath(size, walls, player, s, p),
    ensures
        ireach(size, walls, player, s, path_end(s, p), level - 1),
    decreases p.len(),
{
    if p.len() <= level - 1 {
        assert(ireach(size, walls, player, s, path_end(s, p), level - 1));
    } else if p.len() == level {
        assert(!tight_ipath(size, walls, player, s, p, level));
    } else {
        let n = p.len() - 1;
        lemma_ipath_take(size, walls, player, s, p, n);
        lemma_ipath_collapse(size, walls, player, s, level, p.take(n));
        let r = choose|r: Seq<PathStep>|
            #[trigger] ipath(size, walls, player, s, r) && r.len() <= level - 1 && path_end(s, r)
                == path_end(s, p.take(n));
        assert(step_ok(size, walls, cell_at(s, p, n), p[n].1, p[n].0));
        assert(path_end(s, p.take(n)) == cell_at(s, p, n));
        assert(!is_goal(size, player, p[n].0) && p[n].0 != s);
        lemma_ipath_push(size, walls, player, s, r, p[n].0, p[n].1);
        let r2 = r.push(p[n]);
        assert(path_end(s, r2) == p[n].0 && p[n].0 == path_end(s, p));
        if r2.len() <= level - 1 {
            assert(ireach(size, walls, player, s, path_end(s, p), level - 1));
        } else {
            assert(r2.len() == level);
            assert(!tight_ipath(size, walls, player, s, r2, level));
            assert(ireach(size, walls, player, s, path_end(s, r2), level - 1));
        }
    }
}

/// When the frontier dies out — no tight interior path of the current
/// length, and no goal path at most that long — no goal path exists at all.
pub proof fn lemma_exhausted_no_goal(
    size: int,
    walls: Seq<WallPlaced>,
    player: TwoPlayerIndices,
    s: FieldIndexSquare,
    level: int,
)
    requires
        level >= 0,
        forall|q: Seq<PathStep>| !tight_ipath(size, walls, player, s, q, level),
        no_goal_path_upto(size, walls, player, s, level),
    ensures
        !has_goal_path(size, walls, player, s),
{
    assert forall|q: Seq<PathStep>| !goal_path(size, walls, player, s, q) by {
        if goal_path(size, walls, player, s, q) {
            assert(q.len() > level);
            lemma_goal_path_split(size, walls, player, s, q);
            let n = q.len() - 1;
            let g = q[n].0;
            let d = q[n].1;
            lemma_ipath_collapse(size, walls, player, s, level, q.take(n));
            let r = choose|r: Seq<PathStep>|
                #[trigger] ipath(size, walls, player, s, r) && r.len() <= level - 1 && path_end(
                    s,
                    r,
                ) == path_end(s, q.take(n));
            lemma_goal_push(size, walls, player, s, r, g, d);
            assert(goal_path(size, walls, player, s, r.push((g, d))));
            assert(r.push((g, d)).len() > level);
            assert(false);
        }
    }
}

/// A duplicate-free list of on-board cells has at most `size * size`
/// entries.
pub proof fn lemma_visited_card(size: int, vs: Seq<FieldIndexSquare>)
    requires
        2 <= size,
        vs.no_duplicates(),
        forall|i: int| 0 <= i < vs.len() ==> cell_in_bounds(size, #[trigger] vs[i]),
    ensures
        vs.len() <= size * size,
{
    let enc = vs.map_values(|c: FieldIndexSquare| c.column + size * c.row);
    assert forall|i: int, j: int| 0 <= i < enc.len() && 0 <= j < enc.len() && i != j implies enc[i]
        != enc[j] by {
        assert(vs[i] != vs[j]);
        assert(enc[i] == vs[i].column + size * vs[i].row);
        assert(enc[j] == vs[j].column + size * vs[j].row);
        assert(vs[i].column + size * vs[i].row != vs[j].column + size * vs[j].row)
            by (nonlinear_arith)
            requires
                2 <= size,
                0 <= vs[i].column < size,
                0 <= vs[i].row < size,
                0 <= vs[j].column < size,
                0 <= vs[j].row < size,
                vs[i] != vs[j],
        {
            assert(vs[i].column != vs[j].column || vs[i].row != vs[j].row);
        }
    }
    enc.unique_seq_to_set();
    assert forall|x: int| enc.to_set().contains(x) implies vstd::set_lib::set_int_range(
        0,
        size * size,
    ).contains(x) by {
        let i = choose|i: int| 0 <= i < enc.len() && enc[i] == x;
        assert(enc[i] == vs[i].column + size * vs[i].row);
        assert(0 <= vs[i].column + size * vs[i].row < size * size) by (nonlinear_arith)
            requires
                2 <= size,
                0 <= vs[i].column < size,
                0 <= vs[i].row < size;
    }
    vstd::set_lib::lemma_int_range(0, size * size);
    vstd::set_lib::lemma_len_subset(
        enc.to_set(),
        vstd::set_lib::set_int_range(0, size * size),
    );
}

/// `s2` keeps every element of `s1` at its place and may add more at the
/// end.
pub open spec fn seq_extends<T>(s2: Seq<T>, s1: Seq<T>) -> bool {
    s1.len() <= s2.len() && forall|i: int| 0 <= i < s1.len() ==> s2[i] == #[trigger] s1[i]
}

/// A breadth-first frontier entry: a tight interior path paired with its end
/// cell.
pub open spec fn frontier_ok(
    size: int,
    walls: Seq<WallPlaced>,
    player: TwoPlayerIndices,
    s: FieldIndexSquare,
    fr: Seq<(Vec<PathStep>, FieldIndexSquare)>,
    level: int,
) -> bool {
    forall|i: int|
        0 <= i < fr.len() ==> tight_ipath(size, walls, player, s, (#[trigger] fr[i]).0@, level)
            && fr[i].1 == path_end(s, fr[i].0@)
}

/// The frontier holds every tight interior path of its level.
pub open spec fn frontier_complete(
    size: int,
    walls: Seq<WallPlaced>,
    player: TwoPlayerIndices,
    s: FieldIndexSquare,
    fr: Seq<(Vec<PathStep>, FieldIndexSquare)>,
    level: int,
) -> bool {
    forall|p: Seq<PathStep>|
        #![trigger tight_ipath(size, walls, player, s, p, level)]
        tight_ipath(size, walls, player, s, p, level) ==> exists|i: int|
            0 <= i < fr.len() && (#[trigger] fr[i]).0@ == p
}

/// The visited list holds exactly the cells interior-reachable within
/// `level` steps.
pub open spec fn visited_exact(
    size: int,
    walls: Seq<WallPlaced>,
    player: TwoPlayerIndices,
    s: FieldIndexSquare,
    vs: Seq<FieldIndexSquare>,
    level: int,
) -> bool {
    forall|c: FieldIndexSquare|
        #![trigger vs.contains(c)]
        #![trigger ireach(size, walls, player, s, c, level)]
        vs.contains(c) <==> ireach(size, walls, player, s, c, level)
}

/// Every collected result is a goal path of the given length.
pub open spec fn results_ok(
    size: int,
    walls: Seq<WallPlaced>,
    player: TwoPlayerIndices,
    s: FieldIndexSquare,
    rs: Seq<Vec<PathStep>>,
    len: int,
) -> bool {
    forall|i: int|
        0 <= i < rs.len() ==> goal_path(size, walls, player, s, (#[trigger] rs[i])@)
            && rs[i]@.len() == len
}

/// Every goal path of the given length has been collected.
pub open spec fn results_complete(
    size: int,
    walls: Seq<WallPlaced>,
    player: TwoPlayerIndices,
    s: FieldIndexSquare,
    rs: Seq<Vec<PathStep>>,
    len: int,
) -> bool {
    forall|q: Seq<PathStep>|
        #![trigger goal_path(size, walls, player, s, q)]
        goal_path(size, walls, player, s, q) && q.len() == len ==> exists|i: int|
            0 <= i < rs.len() && (#[trigger] rs[i])@ == q
}

/// A duplicate-free list of on-board cells.
pub open spec fn cells_ok(size: int, vs: Seq<FieldIndexSquare>) -> bool {
    vs.no_duplicates() && forall|i: int| 0 <= i < vs.len() ==> cell_in_bounds(size, #[trigger] vs[i])
}

/// The fixed enumeration position of a direction.
pub open spec fn dir_rank(d: DirectionsSquare) -> int {
    match d {
        DirectionsSquare::Up => 0,
        DirectionsSquare::Down => 1,
        DirectionsSquare::Left => 2,
        DirectionsSquare::Right => 3,
    }
}

/// The directions a path takes, in step order.
pub open spec fn path_dirs(p: Seq<PathStep>) -> Seq<DirectionsSquare> {
    p.map_values(|st: PathStep| st.1)
}

/// Strict lexicographic order on equal-length direction sequences, by the
/// fixed direction ranks: the order in which the search discovers paths.
pub open spec fn dirs_lex_lt(a: Seq<DirectionsSquare>, b: Seq<DirectionsSquare>) -> bool {
    exists|k: int|
        #![trigger a[k], b[k]]
        0 <= k < a.len() && (forall|m: int| 0 <= m < k ==> a[m] == b[m]) && dir_rank(a[k])
            < dir_rank(b[k])
}

/// The lexicographic order is asymmetric.
pub proof fn lemma_lex_asym(a: Seq<DirectionsSquare>, b: Seq<DirectionsSquare>)
    requires
        a.len() == b.len(),
        dirs_lex_lt(a, b),
    ensures
        !dirs_lex_lt(b, a),
{
    let k1 = choose|k: int|
        #![trigger a[k], b[k]]
        0 <= k < a.len() && (forall|m: int| 0 <= m < k ==> a[m] == b[m]) && dir_rank(a[k])
            < dir_rank(b[k]);
    if dirs_lex_lt(b, a) {
        let k2 = choose|k: int|
            #![trigger b[k], a[k]]
            0 <= k < b.len() && (forall|m: int| 0 <= m < k ==> b[m] == a[m]) && dir_rank(b[k])
                < dir_rank(a[k]);
        if k1 < k2 {
            assert(b[k1] == a[k1]);
            assert(false);
        } else if k2 < k1 {
            assert(a[k2] == b[k2]);
            assert(false);
        } else {
            assert(false);
        }
    }
}

/// Appending one step each to lexicographically ordered sequences keeps
/// them ordered.
pub proof fn lemma_lex_push(
    a: Seq<DirectionsSquare>,
    b: Seq<DirectionsSquare>,
    x: DirectionsSquare,
    y: DirectionsSquare,
)
    requires
        a.len() == b.len(),
        dirs_lex_lt(a, b),
    ensures
        dirs_lex_lt(a.push(x), b.push(y)),
{
    let k = choose|k: int|
        #![trigger a[k], b[k]]
        0 <= k < a.len() && (forall|m: int| 0 <= m < k ==> a[m] == b[m]) && dir_rank(a[k])
            < dir_rank(b[k]);
    assert(a.push(x)[k] == a[k] && b.push(y)[k] == b[k]);
    assert forall|m: int| 0 <= m < k implies a.push(x)[m] == b.push(y)[m] by {
        assert(a.push(x)[m] == a[m] && b.push(y)[m] == b[m]);
    }
}

/// Appending a lower-ranked step to a sequence orders it before the same
/// sequence with a higher-ranked step.
pub proof fn lemma_lex_push_rank(a: Seq<DirectionsSquare>, x: DirectionsSquare, y: DirectionsSquare)
    requires
        dir_rank(x) < dir_rank(y),
    ensures
        dirs_lex_lt(a.push(x), a.push(y)),
{
    let k = a.len() as int;
    assert(a.push(x)[k] == x && a.push(y)[k] == y);
    assert forall|m: int| 0 <= m < k implies a.push(x)[m] == a.push(y)[m] by {
        assert(a.push(x)[m] == a[m] && a.push(y)[m] == a[m]);
    }
}

/// Extending a path by one step appends that step's direction.
pub proof fn lemma_path_dirs_push(p: Seq<PathStep>, g: FieldIndexSquare, d: DirectionsSquare)
    ensures
        path_dirs(p.push((g, d))) == path_dirs(p).push(d),
{
    assert(path_dirs(p.push((g, d))) =~= path_dirs(p).push(d));
}

/// No two frontier entries carry the same path.
pub open spec fn frontier_distinct(fr: Seq<(Vec<PathStep>, FieldIndexSquare)>) -> bool {
    forall|i1: int, i2: int|
        #![trigger fr[i1], fr[i2]]
        0 <= i1 < fr.len() && 0 <= i2 < fr.len() && i1 != i2 ==> fr[i1].0@ != fr[i2].0@
}

/// No two collected results carry the same path.
pub open spec fn results_distinct(rs: Seq<Vec<PathStep>>) -> bool {
    forall|i1: int, i2: int|
        #![trigger rs[i1], rs[i2]]
        0 <= i1 < rs.len() && 0 <= i2 < rs.len() && i1 != i2 ==> rs[i1]@ != rs[i2]@
}

/// The frontier entries come in strictly increasing discovery order.
pub open spec fn frontier_lex_sorted(fr: Seq<(Vec<PathStep>, FieldIndexSquare)>) -> bool {
    forall|i1: int, i2: int|
        #![trigger fr[i1], fr[i2]]
        0 <= i1 < i2 < fr.len() ==> dirs_lex_lt(path_dirs(fr[i1].0@), path_dirs(fr[i2].0@))
}

/// The collected results come in strictly increasing discovery order.
pub open spec fn results_lex_sorted(rs: Seq<Vec<PathStep>>) -> bool {
    forall|i1: int, i2: int|
        #![trigger rs[i1], rs[i2]]
        0 <= i1 < i2 < rs.len() ==> dirs_lex_lt(path_dirs(rs[i1]@), path_dirs(rs[i2]@))
}

/// Every entry of the new frontier was produced by a frontier entry and
/// direction already processed: its prefix is the path of some entry below
/// `fi` — or at `fi` with a direction of rank below `k` — and its last step
/// records that direction.  This pins each entry to the one (entry,
/// direction) pair that can produce it, which is what rules duplicates out.
pub open spec fn nf_from_processed(
    fr: Seq<(Vec<PathStep>, FieldIndexSquare)>,
    nf: Seq<(Vec<PathStep>, FieldIndexSquare)>,
    level: int,
    fi: int,
    k: int,
) -> bool {
    forall|i: int|
        0 <= i < nf.len() ==> ((#[trigger] nf[i]).0@.len() == level + 1 && exists|j: int|
            0 <= j < fr.len() && (#[trigger] fr[j]).0@ == nf[i].0@.take(level) && (j < fi || (j
                == fi && dir_rank(nf[i].0@[level].1) < k)))
}

/// The same bookkeeping for the collected results.
pub open spec fn rs_from_processed(
    fr: Seq<(Vec<PathStep>, FieldIndexSquare)>,
    rs: Seq<Vec<PathStep>>,
    level: int,
    fi: int,
    k: int,
) -> bool {
    forall|i: int|
        0 <= i < rs.len() ==> ((#[trigger] rs[i])@.len() == level + 1 && exists|j: int|
            0 <= j < fr.len() && (#[trigger] fr[j]).0@ == rs[i]@.take(level) && (j < fi || (j
                == fi && dir_rank(rs[i]@[level].1) < k)))
}

/// The expansion of `base` (ending at `e`) in direction `d` has been dealt
/// with: if the step exists, is not walled off and leads to an unvisited
/// cell, then the extended path is in the new frontier (interior cell) or
/// among the results (goal cell).
pub open spec fn dir_handled(
    size: int,
    walls: Seq<WallPlaced>,
    player: TwoPlayerIndices,
    visited: Seq<FieldIndexSquare>,
    nf: Seq<(Vec<PathStep>, FieldIndexSquare)>,
    rs: Seq<Vec<PathStep>>,
    base: Seq<PathStep>,
    e: FieldIndexSquare,
    d: DirectionsSquare,
) -> bool {
    {
        let n = neighbor_spec(size, e, d);
        (n is Some && !step_blocked(size, walls, e, d) && !visited.contains(n->0)) ==> (if is_goal(
            size,
            player,
            n->0,
        ) {
            exists|i: int| 0 <= i < rs.len() && (#[trigger] rs[i])@ == base.push((n->0, d))
        } else {
            exists|i: int| 0 <= i < nf.len() && (#[trigger] nf[i]).0@ == base.push((n->0, d))
        })
    }
}

/// `dir_handled` for the frontier entry at index `j`.
pub open spec fn entry_dir_handled(
    size: int,
    walls: Seq<WallPlaced>,
    player: TwoPlayerIndices,
    visited: Seq<FieldIndexSquare>,
    nf: Seq<(Vec<PathStep>, FieldIndexSquare)>,
    rs: Seq<Vec<PathStep>>,
    fr: Seq<(Vec<PathStep>, FieldIndexSquare)>,
    j: int,
    d: DirectionsSquare,
) -> bool {
    dir_handled(size, walls, player, visited, nf, rs, fr[j].0@, fr[j].1, d)
}

/// Every direction of every frontier entry below `upto` has been dealt
/// with.
pub open spec fn entries_handled(
    size: int,
    walls: Seq<WallPlaced>,
    player: TwoPlayerIndices,
    visited: Seq<FieldIndexSquare>,
    nf: Seq<(Vec<PathStep>, FieldIndexSquare)>,
    rs: Seq<Vec<PathStep>>,
    fr: Seq<(Vec<PathStep>, FieldIndexSquare)>,
    upto: int,
) -> bool {
    forall|j: int, d: DirectionsSquare|
        0 <= j < upto ==> #[trigger] entry_dir_handled(
            size,
            walls,
            player,
            visited,
            nf,
            rs,
            fr,
            j,
            d,
        )
}

/// Handledness survives when the new frontier and the results only grow.
pub proof fn lemma_dir_handled_mono(
    size: int,
    walls: Seq<WallPlaced>,
    player: TwoPlayerIndices,
    visited: Seq<FieldIndexSquare>,
    nf1: Seq<(Vec<PathStep>, FieldIndexSquare)>,
    nf2: Seq<(Vec<PathStep>, FieldIndexSquare)>,
    rs1: Seq<Vec<PathStep>>,
    rs2: Seq<Vec<PathStep>>,
    base: Seq<PathStep>,
    e: FieldIndexSquare,
    d: DirectionsSquare,
)
    requires
        dir_handled(size, walls, player, visited, nf1, rs1, base, e, d),
        seq_extends(nf2, nf1),
        seq_extends(rs2, rs1),
    ensures
        dir_handled(size, walls, player, visited, nf2, rs2, base, e, d),
{
    let n = neighbor_spec(size, e, d);
    if n is Some && !step_blocked(size, walls, e, d) && !visited.contains(n->0) {
        if is_goal(size, player, n->0) {
            let i = choose|i: int|
                0 <= i < rs1.len() && (#[trigger] rs1[i])@ == base.push((n->0, d));
            assert(rs2[i] == rs1[i]);
        } else {
            let i = choose|i: int|
                0 <= i < nf1.len() && (#[trigger] nf1[i]).0@ == base.push((n->0, d));
            assert(nf2[i] == nf1[i]);
        }
    }
}

/// `entries_handled` survives when the new frontier and the results only
/// grow.
pub proof fn lemma_entries_handled_mono(
    size: int,
    walls: Seq<WallPlaced>,
    player: TwoPlayerIndices,
    visited: Seq<FieldIndexSquare>,
    nf1: Seq<(Vec<PathStep>, FieldIndexSquare)>,
    nf2: Seq<(Vec<PathStep>, FieldIndexSquare)>,
    rs1: Seq<Vec<PathStep>>,
    rs2: Seq<Vec<PathStep>>,
    fr: Seq<(Vec<PathStep>, FieldIndexSquare)>,
    upto: int,
)
    requires
        entries_handled(size, walls, player, visited, nf1, rs1, fr, upto),
        seq_extends(nf2, nf1),
        seq_extends(rs2, rs1),
    ensures
        entries_handled(size, walls, player, visited, nf2, rs2, fr, upto),
{
    assert forall|j: int, d: DirectionsSquare| 0 <= j < upto implies #[trigger] entry_dir_handled(
        size,
        walls,
        player,
        visited,
        nf2,
        rs2,
        fr,
        j,
        d,
    ) by {
        assert(entry_dir_handled(size, walls, player, visited, nf1, rs1, fr, j, d));
        lemma_dir_handled_mono(
            size,
            walls,
            player,
            visited,
            nf1,
            nf2,
            rs1,
            rs2,
            fr[j].0@,
            fr[j].1,
            d,
        );
    }
}

/// What a sequence holds after a push: everything it held, and the new
/// element.
pub proof fn lemma_push_contains<T>(sq: Seq<T>, x: T, y: T)
    ensures
        sq.push(x).contains(y) <==> (sq.contains(y) || y == x),
{
    if sq.push(x).contains(y) {
        let i = choose|i: int| 0 <= i < sq.push(x).len() && sq.push(x)[i] == y;
        if i < sq.len() {
            assert(sq[i] == y);
        } else {
            assert(y == x);
        }
    }
    if sq.contains(y) {
        let i = choose|i: int| 0 <= i < sq.len() && sq[i] == y;
        assert(sq.push(x)[i] == y);
    }
    assert(sq.push(x)[sq.len() as int] == x);
}

/// One expansion step keeps the entry bookkeeping exact: the at most one
/// path added to the new frontier or the results is `base` extended by the
/// direction just processed, which no earlier pair can have produced, so
/// no list acquires a duplicate.
#[verifier::spinoff_prover]
#[verifier::rlimit(100)]
proof fn lemma_track_expansion(
    fr: Seq<(Vec<PathStep>, FieldIndexSquare)>,
    level: int,
    fi: int,
    k: int,
    d: DirectionsSquare,
    g: FieldIndexSquare,
    base: Seq<PathStep>,
    nf_prev: Seq<(Vec<PathStep>, FieldIndexSquare)>,
    nf_next: Seq<(Vec<PathStep>, FieldIndexSquare)>,
    rs_prev: Seq<Vec<PathStep>>,
    rs_next: Seq<Vec<PathStep>>,
)
    requires
        0 <= fi < fr.len(),
        0 <= k <= 3,
        dir_rank(d) == k,
        level >= 0,
        frontier_distinct(fr),
        frontier_lex_sorted(fr),
        forall|j: int| 0 <= j < fr.len() ==> (#[trigger] fr[j]).0@.len() == level,
        base == fr[fi].0@,
        base.len() == level,
        frontier_distinct(nf_prev),
        frontier_lex_sorted(nf_prev),
        results_distinct(rs_prev),
        results_lex_sorted(rs_prev),
        nf_from_processed(fr, nf_prev, level, fi, k),
        rs_from_processed(fr, rs_prev, level, fi, k),
        seq_extends(nf_next, nf_prev),
        nf_next.len() <= nf_prev.len() + 1,
        forall|i: int|
            nf_prev.len() <= i < nf_next.len() ==> (#[trigger] nf_next[i]).0@ == base.push(
                (g, d),
            ),
        seq_extends(rs_next, rs_prev),
        rs_next.len() <= rs_prev.len() + 1,
        forall|i: int|
            rs_prev.len() <= i < rs_next.len() ==> (#[trigger] rs_next[i])@ == base.push((g, d)),
    ensures
        frontier_distinct(nf_next),
        frontier_lex_sorted(nf_next),
        results_distinct(rs_next),
        results_lex_sorted(rs_next),
        nf_from_processed(fr, nf_next, level, fi, k + 1),
        rs_from_processed(fr, rs_next, level, fi, k + 1),
{
    let ext = base.push((g, d));
    assert(ext.take(level) =~= base);
    assert(ext[level].1 == d);
    lemma_path_dirs_push(base, g, d);
    // Every already-present entry was discovered by an earlier pair, so it
    // sorts strictly before the fresh extension.
    assert forall|i: int| 0 <= i < nf_prev.len() implies dirs_lex_lt(
        path_dirs((#[trigger] nf_prev[i]).0@),
        path_dirs(ext),
    ) by {
        let j = choose|j: int|
            0 <= j < fr.len() && (#[trigger] fr[j]).0@ == nf_prev[i].0@.take(level) && (j < fi
                || (j == fi && dir_rank(nf_prev[i].0@[level].1) < k));
        let last = nf_prev[i].0@[level];
        assert(nf_prev[i].0@ =~= fr[j].0@.push(last));
        lemma_path_dirs_push(fr[j].0@, last.0, last.1);
        assert(path_dirs(nf_prev[i].0@) == path_dirs(fr[j].0@).push(last.1));
        if j < fi {
            assert(dirs_lex_lt(path_dirs(fr[j].0@), path_dirs(base)));
            assert(path_dirs(fr[j].0@).len() == path_dirs(base).len());
            lemma_lex_push(path_dirs(fr[j].0@), path_dirs(base), last.1, d);
        } else {
            assert(j == fi && dir_rank(last.1) < dir_rank(d));
            lemma_lex_push_rank(path_dirs(base), last.1, d);
        }
    }
    assert forall|i: int| 0 <= i < rs_prev.len() implies dirs_lex_lt(
        path_dirs((#[trigger] rs_prev[i])@),
        path_dirs(ext),
    ) by {
        let j = choose|j: int|
            0 <= j < fr.len() && (#[trigger] fr[j]).0@ == rs_prev[i]@.take(level) && (j < fi || (
            j == fi && dir_rank(rs_prev[i]@[level].1) < k));
        let last = rs_prev[i]@[level];
        assert(rs_prev[i]@ =~= fr[j].0@.push(last));
        lemma_path_dirs_push(fr[j].0@, last.0, last.1);
        assert(path_dirs(rs_prev[i]@) == path_dirs(fr[j].0@).push(last.1));
        if j < fi {
            assert(dirs_lex_lt(path_dirs(fr[j].0@), path_dirs(base)));
            assert(path_dirs(fr[j].0@).len() == path_dirs(base).len());
            lemma_lex_push(path_dirs(fr[j].0@), path_dirs(base), last.1, d);
        } else {
            assert(j == fi && dir_rank(last.1) < dir_rank(d));
            lemma_lex_push_rank(path_dirs(base), last.1, d);
        }
    }
    assert forall|i1: int, i2: int|
        #![trigger nf_next[i1], nf_next[i2]]
        0 <= i1 < i2 < nf_next.len() implies dirs_lex_lt(
        path_dirs(nf_next[i1].0@),
        path_dirs(nf_next[i2].0@),
    ) by {
        if i2 < nf_prev.len() {
            assert(nf_next[i1] == nf_prev[i1]);
            assert(nf_next[i2] == nf_prev[i2]);
        } else {
            assert(nf_next[i1] == nf_prev[i1]);
            assert(nf_next[i2].0@ == ext);
            assert(dirs_lex_lt(path_dirs(nf_prev[i1].0@), path_dirs(ext)));
        }
    }
    assert forall|i1: int, i2: int|
        #![trigger rs_next[i1], rs_next[i2]]
        0 <= i1 < i2 < rs_next.len() implies dirs_lex_lt(
        path_dirs(rs_next[i1]@),
        path_dirs(rs_next[i2]@),
    ) by {
        if i2 < rs_prev.len() {
            assert(rs_next[i1] == rs_prev[i1]);
            assert(rs_next[i2] == rs_prev[i2]);
        } else {
            assert(rs_next[i1] == rs_prev[i1]);
            assert(rs_next[i2]@ == ext);
            assert(dirs_lex_lt(path_dirs(rs_prev[i1]@), path_dirs(ext)));
        }
    }
    // No already-present entry can equal the fresh extension: its recorded
    // pair is strictly earlier than (fi, d).
    assert forall|i: int| 0 <= i < nf_prev.len() implies (#[trigger] nf_prev[i]).0@ != ext by {
        if nf_prev[i].0@ == ext {
            let j = choose|j: int|
                0 <= j < fr.len() && (#[trigger] fr[j]).0@ == nf_prev[i].0@.take(level) && (j < fi
                    || (j == fi && dir_rank(nf_prev[i].0@[level].1) < k));
            assert(fr[j].0@ == base);
            assert(j == fi);
            assert(dir_rank(d) < k);
            assert(false);
        }
    }
    assert forall|i: int| 0 <= i < rs_prev.len() implies (#[trigger] rs_prev[i])@ != ext by {
        if rs_prev[i]@ == ext {
            let j = choose|j: int|
                0 <= j < fr.len() && (#[trigger] fr[j]).0@ == rs_prev[i]@.take(level) && (j < fi
                    || (j == fi && dir_rank(rs_prev[i]@[level].1) < k));
            assert(fr[j].0@ == base);
            assert(j == fi);
            assert(dir_rank(d) < k);
            assert(false);
        }
    }
    assert forall|i1: int, i2: int|
        #![trigger nf_next[i1], nf_next[i2]]
        0 <= i1 < nf_next.len() && 0 <= i2 < nf_next.len() && i1 != i2 implies nf_next[i1].0@
        != nf_next[i2].0@ by {
        if i1 < nf_prev.len() && i2 < nf_prev.len() {
            assert(nf_next[i1] == nf_prev[i1]);
            assert(nf_next[i2] == nf_prev[i2]);
        } else if i1 < nf_prev.len() {
            assert(nf_next[i1] == nf_prev[i1]);
            assert(nf_next[i2].0@ == ext);
        } else {
            assert(i2 < nf_prev.len());
            assert(nf_next[i2] == nf_prev[i2]);
            assert(nf_next[i1].0@ == ext);
        }
    }
    assert forall|i1: int, i2: int|
        #![trigger rs_next[i1], rs_next[i2]]
        0 <= i1 < rs_next.len() && 0 <= i2 < rs_next.len() && i1 != i2 implies rs_next[i1]@
        != rs_next[i2]@ by {
        if i1 < rs_prev.len() && i2 < rs_prev.len() {
            assert(rs_next[i1] == rs_prev[i1]);
            assert(rs_next[i2] == rs_prev[i2]);
        } else if i1 < rs_prev.len() {
            assert(rs_next[i1] == rs_prev[i1]);
            assert(rs_next[i2]@ == ext);
        } else {
            assert(i2 < rs_prev.len());
            assert(rs_next[i2] == rs_prev[i2]);
            assert(rs_next[i1]@ == ext);
        }
    }
    assert forall|i: int| 0 <= i < nf_next.len() implies ((#[trigger] nf_next[i]).0@.len()
        == level + 1 && exists|j: int|
        0 <= j < fr.len() && (#[trigger] fr[j]).0@ == nf_next[i].0@.take(level) && (j < fi || (j
            == fi && dir_rank(nf_next[i].0@[level].1) < k + 1))) by {
        if i < nf_prev.len() {
            assert(nf_next[i] == nf_prev[i]);
            let j = choose|j: int|
                0 <= j < fr.len() && (#[trigger] fr[j]).0@ == nf_prev[i].0@.take(level) && (j < fi
                    || (j == fi && dir_rank(nf_prev[i].0@[level].1) < k));
            assert(0 <= j < fr.len() && fr[j].0@ == nf_next[i].0@.take(level) && (j < fi || (j
                == fi && dir_rank(nf_next[i].0@[level].1) < k + 1)));
        } else {
            assert(nf_next[i].0@ == ext);
            assert(0 <= fi < fr.len() && fr[fi].0@ == nf_next[i].0@.take(level) && dir_rank(
                nf_next[i].0@[level].1,
            ) < k + 1);
        }
    }
    assert forall|i: int| 0 <= i < rs_next.len() implies ((#[trigger] rs_next[i])@.len()
        == level + 1 && exists|j: int|
        0 <= j < fr.len() && (#[trigger] fr[j]).0@ == rs_next[i]@.take(level) && (j < fi || (j
            == fi && dir_rank(rs_next[i]@[level].1) < k + 1))) by {
        if i < rs_prev.len() {
            assert(rs_next[i] == rs_prev[i]);
            let j = choose|j: int|
                0 <= j < fr.len() && (#[trigger] fr[j]).0@ == rs_prev[i]@.take(level) && (j < fi
                    || (j == fi && dir_rank(rs_prev[i]@[level].1) < k));
            assert(0 <= j < fr.len() && fr[j].0@ == rs_next[i]@.take(level) && (j < fi || (j
                == fi && dir_rank(rs_next[i]@[level].1) < k + 1)));
        } else {
            assert(rs_next[i]@ == ext);
            assert(0 <= fi < fr.len() && fr[fi].0@ == rs_next[i]@.take(level) && dir_rank(
                rs_next[i]@[level].1,
            ) < k + 1);
        }
    }
}

/// Once all four directions of entry `fi` are processed, the bookkeeping
/// reads as "all entries below `fi + 1`".
proof fn lemma_from_processed_advance(
    fr: Seq<(Vec<PathStep>, FieldIndexSquare)>,
    nf: Seq<(Vec<PathStep>, FieldIndexSquare)>,
    rs: Seq<Vec<PathStep>>,
    level: int,
    fi: int,
)
    requires
        nf_from_processed(fr, nf, level, fi, 4),
        rs_from_processed(fr, rs, level, fi, 4),
    ensures
        nf_from_processed(fr, nf, level, fi + 1, 0),
        rs_from_processed(fr, rs, level, fi + 1, 0),
{
    assert forall|i: int| 0 <= i < nf.len() implies ((#[trigger] nf[i]).0@.len() == level + 1
        && exists|j: int|
        0 <= j < fr.len() && (#[trigger] fr[j]).0@ == nf[i].0@.take(level) && (j < fi + 1 || (j
            == fi + 1 && dir_rank(nf[i].0@[level].1) < 0))) by {
        let j = choose|j: int|
            0 <= j < fr.len() && (#[trigger] fr[j]).0@ == nf[i].0@.take(level) && (j < fi || (j
                == fi && dir_rank(nf[i].0@[level].1) < 4));
        assert(j < fi + 1);
        assert(0 <= j < fr.len() && fr[j].0@ == nf[i].0@.take(level) && j < fi + 1);
    }
    assert forall|i: int| 0 <= i < rs.len() implies ((#[trigger] rs[i])@.len() == level + 1
        && exists|j: int|
        0 <= j < fr.len() && (#[trigger] fr[j]).0@ == rs[i]@.take(level) && (j < fi + 1 || (j
            == fi + 1 && dir_rank(rs[i]@[level].1) < 0))) by {
        let j = choose|j: int|
            0 <= j < fr.len() && (#[trigger] fr[j]).0@ == rs[i]@.take(level) && (j < fi || (j
                == fi && dir_rank(rs[i]@[level].1) < 4));
        assert(j < fi + 1);
        assert(0 <= j < fr.len() && fr[j].0@ == rs[i]@.take(level) && j < fi + 1);
    }
}

/// Extension of sequences is transitive.
pub proof fn lemma_extends_trans<T>(s3: Seq<T>, s2: Seq<T>, s1: Seq<T>)
    requires
        seq_extends(s3, s2),
        seq_extends(s2, s1),
    ensures
        seq_extends(s3, s1),
{
    assert forall|i: int| 0 <= i < s1.len() implies s3[i] == #[trigger] s1[i] by {
        assert(s2[i] == s1[i]);
        assert(s3[i] == s2[i]);
    }
}

/// After expanding entry `fi` in all four directions, every direction of
/// every entry up to and including `fi` has been dealt with.
#[verifier::spinoff_prover]
proof fn lemma_entry_step_handled(
    size: int,
    walls: Seq<WallPlaced>,
    player: TwoPlayerIndices,
    visited: Seq<FieldIndexSquare>,
    fr: Seq<(Vec<PathStep>, FieldIndexSquare)>,
    fi: int,
    base: Seq<PathStep>,
    e: FieldIndexSquare,
    nf0: Seq<(Vec<PathStep>, FieldIndexSquare)>,
    nf1: Seq<(Vec<PathStep>, FieldIndexSquare)>,
    nf2: Seq<(Vec<PathStep>, FieldIndexSquare)>,
    nf3: Seq<(Vec<PathStep>, FieldIndexSquare)>,
    nf4: Seq<(Vec<PathStep>, FieldIndexSquare)>,
    rs0: Seq<Vec<PathStep>>,
    rs1: Seq<Vec<PathStep>>,
    rs2: Seq<Vec<PathStep>>,
    rs3: Seq<Vec<PathStep>>,
    rs4: Seq<Vec<PathStep>>,
)
    requires
        0 <= fi < fr.len(),
        fr[fi].0@ == base,
        fr[fi].1 == e,
        entries_handled(size, walls, player, visited, nf0, rs0, fr, fi),
        dir_handled(size, walls, player, visited, nf1, rs1, base, e, DirectionsSquare::Up),
        dir_handled(size, walls, player, visited, nf2, rs2, base, e, DirectionsSquare::Down),
        dir_handled(size, walls, player, visited, nf3, rs3, base, e, DirectionsSquare::Left),
        dir_handled(size, walls, player, visited, nf4, rs4, base, e, DirectionsSquare::Right),
        seq_extends(nf1, nf0),
        seq_extends(nf2, nf1),
        seq_extends(nf3, nf2),
        seq_extends(nf4, nf3),
        seq_extends(rs1, rs0),
        seq_extends(rs2, rs1),
        seq_extends(rs3, rs2),
        seq_extends(rs4, rs3),
    ensures
        entries_handled(size, walls, player, visited, nf4, rs4, fr, fi + 1),
{
    lemma_extends_trans(nf4, nf3, nf2);
    lemma_extends_trans(nf4, nf2, nf1);
    lemma_extends_trans(nf4, nf1, nf0);
    lemma_extends_trans(rs4, rs3, rs2);
    lemma_extends_trans(rs4, rs2, rs1);
    lemma_extends_trans(rs4, rs1, rs0);
    lemma_dir_handled_mono(
        size, walls, player, visited, nf1, nf4, rs1, rs4, base, e, DirectionsSquare::Up,
    );
    lemma_dir_handled_mono(
        size, walls, player, visited, nf2, nf4, rs2, rs4, base, e, DirectionsSquare::Down,
    );
    lemma_dir_handled_mono(
        size, walls, player, visited, nf3, nf4, rs3, rs4, base, e, DirectionsSquare::Left,
    );
    lemma_entries_handled_mono(size, walls, player, visited, nf0, nf4, rs0, rs4, fr, fi);
    assert forall|j: int, d: DirectionsSquare|
        0 <= j < fi + 1 implies #[trigger] entry_dir_handled(
        size,
        walls,
        player,
        visited,
        nf4,
        rs4,
        fr,
        j,
        d,
    ) by {
        if j == fi {
            match d {
                DirectionsSquare::Up => {},
                DirectionsSquare::Down => {},
                DirectionsSquare::Left => {},
                DirectionsSquare::Right => {},
            }
        } else {
            assert(entry_dir_handled(size, walls, player, visited, nf4, rs4, fr, j, d));
        }
    }
}

/// When every frontier entry has been expanded in every direction, the new
/// frontier holds every tight interior path one level deeper.
#[verifier::spinoff_prover]
proof fn lemma_next_frontier_complete(
    size: int,
    walls: Seq<WallPlaced>,
    player: TwoPlayerIndices,
    s: FieldIndexSquare,
    visited: Seq<FieldIndexSquare>,
    fr: Seq<(Vec<PathStep>, FieldIndexSquare)>,
    nf: Seq<(Vec<PathStep>, FieldIndexSquare)>,
    rs: Seq<Vec<PathStep>>,
    level: int,
)
    requires
        level >= 0,
        frontier_ok(size, walls, player, s, fr, level),
        frontier_complete(size, walls, player, s, fr, level),
        visited_exact(size, walls, player, s, visited, level),
        entries_handled(size, walls, player, visited, nf, rs, fr, fr.len() as int),
    ensures
        frontier_complete(size, walls, player, s, nf, level + 1),
{
    assert forall|p: Seq<PathStep>|
        #![trigger tight_ipath(size, walls, player, s, p, level + 1)]
        tight_ipath(size, walls, player, s, p, level + 1) implies exists|i: int|
        0 <= i < nf.len() && (#[trigger] nf[i]).0@ == p by {
        lemma_tight_prefix(size, walls, player, s, p, level);
        let pp = p.take(level);
        assert(tight_ipath(size, walls, player, s, pp, level));
        let j = choose|j: int| 0 <= j < fr.len() && (#[trigger] fr[j]).0@ == pp;
        let d = p[level].1;
        let g = p[level].0;
        assert(entry_dir_handled(size, walls, player, visited, nf, rs, fr, j, d));
        assert(fr[j].1 == path_end(s, pp));
        assert(step_ok(size, walls, path_end(s, pp), d, g));
        assert(path_end(s, p) == g);
        assert(!ireach(size, walls, player, s, g, level));
        assert(!visited.contains(g));
        assert(!is_goal(size, player, g));
        assert(pp.push((g, d)) == p);
    }
}

/// When every frontier entry has been expanded in every direction and no
/// goal path was short enough before, the results hold every goal path one
/// level deeper.
#[verifier::spinoff_prover]
proof fn lemma_results_now_complete(
    size: int,
    walls: Seq<WallPlaced>,
    player: TwoPlayerIndices,
    s: FieldIndexSquare,
    visited: Seq<FieldIndexSquare>,
    fr: Seq<(Vec<PathStep>, FieldIndexSquare)>,
    nf: Seq<(Vec<PathStep>, FieldIndexSquare)>,
    rs: Seq<Vec<PathStep>>,
    level: int,
)
    requires
        level >= 0,
        frontier_ok(size, walls, player, s, fr, level),
        frontier_complete(size, walls, player, s, fr, level),
        visited_exact(size, walls, player, s, visited, level),
        no_goal_path_upto(size, walls, player, s, level),
        entries_handled(size, walls, player, visited, nf, rs, fr, fr.len() as int),
    ensures
        results_complete(size, walls, player, s, rs, level + 1),
{
    assert forall|q: Seq<PathStep>|
        #![trigger goal_path(size, walls, player, s, q)]
        goal_path(size, walls, player, s, q) && q.len() == level + 1 implies exists|i: int|
        0 <= i < rs.len() && (#[trigger] rs[i])@ == q by {
        lemma_goal_path_split(size, walls, player, s, q);
        let n = q.len() - 1;
        let pp = q.take(n);
        let g = q[n].0;
        let d = q[n].1;
        if ireach(size, walls, player, s, path_end(s, pp), level - 1) {
            let r0 = choose|r0: Seq<PathStep>|
                #[trigger] ipath(size, walls, player, s, r0) && r0.len() <= level - 1 && path_end(
                    s,
                    r0,
                ) == path_end(s, pp);
            lemma_goal_push(size, walls, player, s, r0, g, d);
            assert(goal_path(size, walls, player, s, r0.push((g, d))));
            assert(r0.push((g, d)).len() <= level);
            assert(false);
        }
        assert(tight_ipath(size, walls, player, s, pp, level));
        let j = choose|j: int| 0 <= j < fr.len() && (#[trigger] fr[j]).0@ == pp;
        assert(entry_dir_handled(size, walls, player, visited, nf, rs, fr, j, d));
        assert(fr[j].1 == path_end(s, pp));
        assert(step_ok(size, walls, path_end(s, pp), d, g));
        lemma_goal_not_ireach(size, walls, player, s, g, level);
        assert(!visited.contains(g));
        assert(is_goal(size, player, g));
        assert(pp.push((g, d)) == q);
    }
}

/// After merging the newly visited cells, the visited list captures exactly
/// the cells reachable one level deeper.
#[verifier::spinoff_prover]
proof fn lemma_merge_visited_exact(
    size: int,
    walls: Seq<WallPlaced>,
    player: TwoPlayerIndices,
    s: FieldIndexSquare,
    old_visited: Seq<FieldIndexSquare>,
    merged: Seq<FieldIndexSquare>,
    nf: Seq<(Vec<PathStep>, FieldIndexSquare)>,
    nv: Seq<FieldIndexSquare>,
    level: int,
)
    requires
        level >= 0,
        visited_exact(size, walls, player, s, old_visited, level),
        frontier_ok(size, walls, player, s, nf, level + 1),
        frontier_complete(size, walls, player, s, nf, level + 1),
        nv == nf.map_values(|en: (Vec<PathStep>, FieldIndexSquare)| en.1),
        forall|c: FieldIndexSquare|
            #![trigger merged.contains(c)]
            merged.contains(c) <==> (old_visited.contains(c) || nv.contains(c)),
    ensures
        visited_exact(size, walls, player, s, merged, level + 1),
{
    assert forall|c: FieldIndexSquare|
        #![trigger merged.contains(c)]
        #![trigger ireach(size, walls, player, s, c, level + 1)]
        merged.contains(c) <==> ireach(size, walls, player, s, c, level + 1) by {
        if merged.contains(c) {
            if old_visited.contains(c) {
                assert(ireach(size, walls, player, s, c, level));
                lemma_ireach_mono(size, walls, player, s, c, level, level + 1);
            } else {
                assert(nv.contains(c));
                let i = choose|i: int| 0 <= i < nv.len() && nv[i] == c;
                assert(nv[i] == (nf.map_values(
                    |en: (Vec<PathStep>, FieldIndexSquare)| en.1,
                ))[i]);
                assert(nf[i].1 == c);
                assert(tight_ipath(size, walls, player, s, nf[i].0@, level + 1));
                assert(path_end(s, nf[i].0@) == c);
                assert(ireach(size, walls, player, s, c, level + 1));
            }
        }
        if ireach(size, walls, player, s, c, level + 1) {
            if ireach(size, walls, player, s, c, level) {
                assert(old_visited.contains(c));
                assert(merged.contains(c));
            } else {
                let p = choose|p: Seq<PathStep>|
                    #[trigger] ipath(size, walls, player, s, p) && p.len() <= level + 1
                        && path_end(s, p) == c;
                assert(p.len() == level + 1);
                assert(tight_ipath(size, walls, player, s, p, level + 1));
                let i = choose|i: int| 0 <= i < nf.len() && (#[trigger] nf[i]).0@ == p;
                assert(nf[i].1 == path_end(s, nf[i].0@));
                assert(nv[i] == (nf.map_values(
                    |en: (Vec<PathStep>, FieldIndexSquare)| en.1,
                ))[i]);
                assert(nv[i] == c);
                assert(nv.contains(c));
                assert(merged.contains(c));
            }
        }
    }
}

/// When no goal path was found at the new level either, the bound on goal
/// path lengths moves up by one.
#[verifier::spinoff_prover]
proof fn lemma_no_goal_update(
    size: int,
    walls: Seq<WallPlaced>,
    player: TwoPlayerIndices,
    s: FieldIndexSquare,
    rs: Seq<Vec<PathStep>>,
    level: int,
)
    requires
        level >= 0,
        no_goal_path_upto(size, walls, player, s, level),
        results_complete(size, walls, player, s, rs, level + 1),
        rs.len() == 0,
    ensures
        no_goal_path_upto(size, walls, player, s, level + 1),
{
    assert forall|q: Seq<PathStep>|
        #![trigger goal_path(size, walls, player, s, q)]
        goal_path(size, walls, player, s, q) implies q.len() > level + 1 by {
        assert(q.len() > level);
        if q.len() == level + 1 {
            let i = choose|i: int| 0 <= i < rs.len() && (#[trigger] rs[i])@ == q;
            assert(false);
        }
    }
}

/// A search that ends with an empty frontier and no result proves that no
/// goal path exists, so the empty list is the exact answer.
#[verifier::spinoff_prover]
proof fn lemma_exit_empty(
    size: int,
    walls: Seq<WallPlaced>,
    player: TwoPlayerIndices,
    s: FieldIndexSquare,
    fr: Seq<(Vec<PathStep>, FieldIndexSquare)>,
    pv: Seq<Seq<PathStep>>,
    level: int,
)
    requires
        level >= 0,
        fr.len() == 0,
        frontier_complete(size, walls, player, s, fr, level),
        no_goal_path_upto(size, walls, player, s, level),
        pv.len() == 0,
    ensures
        all_shortest(size, walls, player, s, pv),
{
    assert(pv.no_duplicates());
    assert forall|p: Seq<PathStep>|
        !#[trigger] tight_ipath(size, walls, player, s, p, level) by {
        if tight_ipath(size, walls, player, s, p, level) {
            let i = choose|i: int| 0 <= i < fr.len() && (#[trigger] fr[i]).0@ == p;
            assert(false);
        }
    }
    lemma_exhausted_no_goal(size, walls, player, s, level);
}

/// A search that collected results has found exactly the shortest goal
/// paths.
#[verifier::spinoff_prover]
proof fn lemma_exit_found(
    size: int,
    walls: Seq<WallPlaced>,
    player: TwoPlayerIndices,
    s: FieldIndexSquare,
    rs: Seq<Vec<PathStep>>,
    pv: Seq<Seq<PathStep>>,
    level: int,
)
    requires
        level >= 1,
        rs.len() > 0,
        results_ok(size, walls, player, s, rs, level),
        results_complete(size, walls, player, s, rs, level),
        results_distinct(rs),
        results_lex_sorted(rs),
        no_goal_path_upto(size, walls, player, s, level - 1),
        pv == rs.map_values(|p: Vec<PathStep>| p@),
    ensures
        all_shortest(size, walls, player, s, pv),
{
    assert(pv.len() == rs.len());
    assert forall|i1: int, i2: int|
        0 <= i1 < pv.len() && 0 <= i2 < pv.len() && i1 != i2 implies #[trigger] pv[i1]
        != #[trigger] pv[i2] by {
        assert(pv[i1] == (rs[i1])@);
        assert(pv[i2] == (rs[i2])@);
    }
    assert(pv.no_duplicates());
    assert forall|i1: int, i2: int|
        #![trigger pv[i1], pv[i2]]
        0 <= i1 < i2 < pv.len() implies dirs_lex_lt(path_dirs(pv[i1]), path_dirs(pv[i2])) by {
        assert(pv[i1] == (rs[i1])@);
        assert(pv[i2] == (rs[i2])@);
        assert(dirs_lex_lt(path_dirs(rs[i1]@), path_dirs(rs[i2]@)));
    }
    assert forall|i: int|
        0 <= i < pv.len() implies goal_path(size, walls, player, s, #[trigger] pv[i]) && pv[i].len()
        == level by {
        assert(pv[i] == (rs[i])@);
    }
    assert forall|i: int, q: Seq<PathStep>|
        #![trigger pv[i], goal_path(size, walls, player, s, q)]
        0 <= i < pv.len() && goal_path(size, walls, player, s, q) implies pv[i].len()
        <= q.len() by {
        assert(q.len() > level - 1);
        assert(pv[i] == (rs[i])@);
    }
    assert forall|q: Seq<PathStep>|
        #![trigger goal_path(size, walls, player, s, q)]
        goal_path(size, walls, player, s, q) && pv.len() > 0 && q.len() == pv[0].len() implies pv
        .contains(q) by {
        assert(pv[0] == (rs[0])@);
        assert(q.len() == level);
        let i = choose|i: int| 0 <= i < rs.len() && (#[trigger] rs[i])@ == q;
        assert(pv[i] == q);
        assert(pv.contains(q));
    }
}

/// The starting state of the search is exact for level zero: the frontier
/// holds the empty walk, and only the start cell has been visited.
#[verifier::spinoff_prover]
proof fn lemma_bfs_init(
    size: int,
    walls: Seq<WallPlaced>,
    player: TwoPlayerIndices,
    s: FieldIndexSquare,
    fr: Seq<(Vec<PathStep>, FieldIndexSquare)>,
    vs: Seq<FieldIndexSquare>,
)
    requires
        2 <= size,
        cell_in_bounds(size, s),
        fr.len() == 1,
        fr[0].0@ == Seq::<PathStep>::empty(),
        fr[0].1 == s,
        vs == seq![s],
    ensures
        frontier_ok(size, walls, player, s, fr, 0),
        frontier_complete(size, walls, player, s, fr, 0),
        visited_exact(size, walls, player, s, vs, 0),
        cells_ok(size, vs),
        vs.len() <= size * size,
        no_goal_path_upto(size, walls, player, s, 0),
{
    assert(ipath(size, walls, player, s, Seq::<PathStep>::empty()));
    assert(path_end(s, fr[0].0@) == s);
    assert(!ireach(size, walls, player, s, s, -1)) by {
        if ireach(size, walls, player, s, s, -1) {
            let p = choose|p: Seq<PathStep>|
                #[trigger] ipath(size, walls, player, s, p) && p.len() <= -1 && path_end(s, p)
                    == s;
            assert(false);
        }
    }
    assert(frontier_ok(size, walls, player, s, fr, 0));
    assert forall|p: Seq<PathStep>|
        #![trigger tight_ipath(size, walls, player, s, p, 0)]
        tight_ipath(size, walls, player, s, p, 0) implies exists|i: int|
        0 <= i < fr.len() && (#[trigger] fr[i]).0@ == p by {
        assert(p.len() == 0);
        assert(fr[0].0@ =~= p);
    }
    assert forall|c: FieldIndexSquare|
        #![trigger vs.contains(c)]
        #![trigger ireach(size, walls, player, s, c, 0)]
        vs.contains(c) <==> ireach(size, walls, player, s, c, 0) by {
        if vs.contains(c) {
            assert(vs[0] == s);
            assert(c == s);
            lemma_ireach_start(size, walls, player, s, 0);
        }
        if ireach(size, walls, player, s, c, 0) {
            let p = choose|p: Seq<PathStep>|
                #[trigger] ipath(size, walls, player, s, p) && p.len() <= 0 && path_end(s, p)
                    == c;
            assert(path_end(s, p) == s);
            assert(vs[0] == c);
            assert(vs.contains(c));
        }
    }
    assert(cells_ok(size, vs));
    assert(1 <= size * size) by (nonlinear_arith)
        requires 2 <= size;
    assert forall|q: Seq<PathStep>|
        goal_path(size, walls, player, s, q) implies q.len() > 0 by {}
    assert(no_goal_path_upto(size, walls, player, s, 0));
}

/// Every cell a legal walk passes through lies on the board.
pub proof fn lemma_cell_at_in_bounds(
    size: int,
    walls: Seq<WallPlaced>,
    s: FieldIndexSquare,
    p: Seq<PathStep>,
    i: int,
)
    requires
        2 <= size,
        valid_from(size, walls, s, p),
        cell_in_bounds(size, s),
        0 <= i <= p.len(),
    ensures
        cell_in_bounds(size, cell_at(s, p, i)),
    decreases i,
{
    if i > 0 {
        lemma_cell_at_in_bounds(size, walls, s, p, i - 1);
        assert(step_ok(size, walls, cell_at(s, p, i - 1), p[i - 1].1, p[i - 1].0));
    }
}

/// Is `c` among the cells of `v`?
fn contains_cell(v: &Vec<FieldIndexSquare>, c: FieldIndexSquare) -> (r: bool)
    ensures
        r == v@.contains(c),
{
    let mut i: usize = 0;
    while i < v.len()
        invariant
            i <= v@.len(),
            forall|j: int| 0 <= j < i ==> v@[j] != c,
        decreases v@.len() - i,
    {
        if v[i] == c {
            assert(v@[i as int] == c);
            return true;
        }
        i = i + 1;
    }
    false
}

/// An element-for-element copy of a path.
fn clone_path(p: &Vec<PathStep>) -> (r: Vec<PathStep>)
    ensures
        r@ == p@,
{
    let mut r: Vec<PathStep> = Vec::new();
    let mut i: usize = 0;
    while i < p.len()
        invariant
            i <= p@.len(),
            r@ == p@.take(i as int),
        decreases p@.len() - i,
    {
        r.push(p[i]);
        assert(r@ =~= p@.take(i as int + 1));
        i = i + 1;
    }
    assert(r@ =~= p@);
    r
}

impl SquareBoard {
    /// Expand one frontier path one step in one direction: push the extended
    /// path into the next frontier, or into the results if the step reaches
    /// the goal baseline; skip steps that leave the board, run into a wall,
    /// or land on an already visited cell.
    #[verifier::loop_isolation(false)]
    #[verifier::rlimit(50)]
    fn expand_step(
        &self,
        player: TwoPlayerIndices,
        base: &Vec<PathStep>,
        e: FieldIndexSquare,
        d: DirectionsSquare,
        visited: &Vec<FieldIndexSquare>,
        next_paths: &mut Vec<(Vec<PathStep>, FieldIndexSquare)>,
        new_visited: &mut Vec<FieldIndexSquare>,
        results: &mut Vec<Vec<PathStep>>,
        Ghost(s): Ghost<FieldIndexSquare>,
        Ghost(level): Ghost<int>,
    )
        requires
            self.storage_ok(),
            cell_in_bounds(self.sz(), s),
            cell_in_bounds(self.sz(), e),
            level >= 0,
            tight_ipath(self.sz(), self.wall_positions@, player, s, base@, level),
            e == path_end(s, base@),
            visited_exact(self.sz(), self.wall_positions@, player, s, visited@, level),
            frontier_ok(self.sz(), self.wall_positions@, player, s, old(next_paths)@, level + 1),
            old(new_visited)@ == old(next_paths)@.map_values(
                |en: (Vec<PathStep>, FieldIndexSquare)| en.1,
            ),
            forall|i: int|
                0 <= i < old(new_visited)@.len() ==> cell_in_bounds(
                    self.sz(),
                    #[trigger] old(new_visited)@[i],
                ) && !visited@.contains(old(new_visited)@[i]),
            results_ok(self.sz(), self.wall_positions@, player, s, old(results)@, level + 1),
        ensures
            frontier_ok(self.sz(), self.wall_positions@, player, s, final(next_paths)@, level + 1),
            final(new_visited)@ == final(next_paths)@.map_values(
                |en: (Vec<PathStep>, FieldIndexSquare)| en.1,
            ),
            forall|i: int|
                0 <= i < final(new_visited)@.len() ==> cell_in_bounds(
                    self.sz(),
                    #[trigger] final(new_visited)@[i],
                ) && !visited@.contains(final(new_visited)@[i]),
            results_ok(self.sz(), self.wall_positions@, player, s, final(results)@, level + 1),
            dir_handled(
                self.sz(),
                self.wall_positions@,
                player,
                visited@,
                final(next_paths)@,
                final(results)@,
                base@,
                e,
                d,
            ),
            seq_extends(final(next_paths)@, old(next_paths)@),
            seq_extends(final(results)@, old(results)@),
            final(next_paths)@.len() <= old(next_paths)@.len() + 1,
            final(results)@.len() <= old(results)@.len() + 1,
            forall|i: int|
                old(next_paths)@.len() <= i < final(next_paths)@.len() ==> (
                #[trigger] final(next_paths)@[i]).0@ == base@.push(
                    (neighbor_spec(self.sz(), e, d)->0, d),
                ),
            forall|i: int|
                old(results)@.len() <= i < final(results)@.len() ==> (
                #[trigger] final(results)@[i])@ == base@.push(
                    (neighbor_spec(self.sz(), e, d)->0, d),
                ),
    {
        let ghost size = self.sz();
        let ghost walls = self.wall_positions@;
        let nb = self.get_field_in_direction(e, d);
        match nb {
            None => {},
            Some((g, _)) => {
                if self.check_for_wall_unsafe(e, d) == WallPlaced::IsWall {
                } else {
                    if !contains_cell(visited, g) {
                        proof {
                            lemma_ireach_start(size, walls, player, s, level);
                            assert(visited@.contains(s));
                            assert(g != s);
                            assert(step_ok(size, walls, e, d, g));
                        }
                        let mut newp = clone_path(base);
                        newp.push((g, d));
                        assert(newp@ == base@.push((g, d)));
                        if self.is_final_field(g, player) {
                            proof {
                                lemma_goal_push(size, walls, player, s, base@, g, d);
                            }
                            results.push(newp);
                            proof {
                                assert((results@[results@.len() - 1])@ == base@.push((g, d)));
                            }
                        } else {
                            proof {
                                lemma_ipath_push(size, walls, player, s, base@, g, d);
                                assert(!ireach(size, walls, player, s, g, level));
                                assert(tight_ipath(size, walls, player, s, newp@, level + 1));
                            }
                            next_paths.push((newp, g));
                            new_visited.push(g);
                            proof {
                                assert(new_visited@ =~= next_paths@.map_values(
                                    |en: (Vec<PathStep>, FieldIndexSquare)| en.1,
                                ));
                                assert((next_paths@[next_paths@.len() - 1]).0@ == base@.push(
                                    (g, d),
                                ));
                            }
                        }
                    }
                }
            },
        }
    }
}

impl SquareBoard {
    /// Enumerate every minimum-length path from `player`'s current cell to
    /// their goal baseline, by level-synchronous breadth-first search over
    /// the wall-aware grid graph.  An empty result means no such path
    /// exists; that outcome is what the wall-placement check relies on.
    #[verifier::rlimit(100)]
    pub fn compute_shortest_paths(&self, player: TwoPlayerIndices) -> (r: Vec<Vec<PathStep>>)
        requires
            self.storage_ok(),
            cell_in_bounds(self.sz(), self.player_position(player)),
        ensures
            self.board_all_shortest(player, paths_view(r)),
    {
        let ghost size = self.sz();
        let ghost walls = self.wall_positions@;
        let start = self.get_current_field(player);
        let ghost s = start;
        let mut shortest_paths: Vec<Vec<PathStep>> = Vec::new();
        let mut current_paths: Vec<(Vec<PathStep>, FieldIndexSquare)> = Vec::new();
        let empty_path: Vec<PathStep> = Vec::new();
        current_paths.push((empty_path, start));
        let mut visited_fields: Vec<FieldIndexSquare> = Vec::new();
        visited_fields.push(start);
        let ghost mut level: int = 0;
        proof {
            assert(current_paths@[0].0@ =~= Seq::<PathStep>::empty());
            assert(visited_fields@ =~= seq![s]);
            lemma_bfs_init(size, walls, player, s, current_paths@, visited_fields@);
        }
        while shortest_paths.len() == 0 && current_paths.len() > 0
            invariant
                self.storage_ok(),
                size == self.sz(),
                walls == self.wall_positions@,
                s == self.player_position(player),
                s == start,
                cell_in_bounds(size, s),
                frontier_distinct(current_paths@),
                frontier_lex_sorted(current_paths@),
                results_distinct(shortest_paths@),
                results_lex_sorted(shortest_paths@),
                frontier_ok(size, walls, player, s, current_paths@, level),
                frontier_complete(size, walls, player, s, current_paths@, level),
                visited_exact(size, walls, player, s, visited_fields@, level),
                cells_ok(size, visited_fields@),
                visited_fields@.len() <= size * size,
                level >= 0,
                results_ok(size, walls, player, s, shortest_paths@, level),
                shortest_paths@.len() > 0 ==> results_complete(
                    size,
                    walls,
                    player,
                    s,
                    shortest_paths@,
                    level,
                ),
                shortest_paths@.len() > 0 ==> level >= 1,
                no_goal_path_upto(
                    size,
                    walls,
                    player,
                    s,
                    if shortest_paths@.len() == 0 {
                        level
                    } else {
                        level - 1
                    },
                ),
            decreases size * size - visited_fields@.len(), current_paths@.len(),
        {
            let ghost old_visited = visited_fields@;
            let mut next_paths: Vec<(Vec<PathStep>, FieldIndexSquare)> = Vec::new();
            let mut new_visited_fields: Vec<FieldIndexSquare> = Vec::new();
            let mut fi: usize = 0;
            while fi < current_paths.len()
                invariant
                    self.storage_ok(),
                    size == self.sz(),
                    walls == self.wall_positions@,
                    cell_in_bounds(size, s),
                    level >= 0,
                    frontier_distinct(current_paths@),
                    frontier_lex_sorted(current_paths@),
                    frontier_ok(size, walls, player, s, current_paths@, level),
                    visited_exact(size, walls, player, s, visited_fields@, level),
                    fi <= current_paths@.len(),
                    frontier_distinct(next_paths@),
                    frontier_lex_sorted(next_paths@),
                    results_distinct(shortest_paths@),
                    results_lex_sorted(shortest_paths@),
                    nf_from_processed(current_paths@, next_paths@, level, fi as int, 0),
                    rs_from_processed(current_paths@, shortest_paths@, level, fi as int, 0),
                    frontier_ok(size, walls, player, s, next_paths@, level + 1),
                    new_visited_fields@ == next_paths@.map_values(
                        |en: (Vec<PathStep>, FieldIndexSquare)| en.1,
                    ),
                    forall|i: int|
                        0 <= i < new_visited_fields@.len() ==> cell_in_bounds(
                            size,
                            #[trigger] new_visited_fields@[i],
                        ) && !visited_fields@.contains(new_visited_fields@[i]),
                    results_ok(size, walls, player, s, shortest_paths@, level + 1),
                    entries_handled(
                        size,
                        walls,
                        player,
                        visited_fields@,
                        next_paths@,
                        shortest_paths@,
                        current_paths@,
                        fi as int,
                    ),
                decreases current_paths@.len() - fi,
            {
                let base = clone_path(&current_paths[fi].0);
                let e = current_paths[fi].1;
                proof {
                    assert((current_paths@[fi as int]).0@ == base@);
                    assert(tight_ipath(size, walls, player, s, base@, level));
                    assert(e == path_end(s, base@));
                    lemma_cell_at_in_bounds(size, walls, s, base@, base@.len() as int);
                    assert forall|j: int|
                        0 <= j < current_paths@.len() implies (
                    #[trigger] current_paths@[j]).0@.len() == level by {
                        assert(tight_ipath(size, walls, player, s, current_paths@[j].0@, level));
                    }
                }
                let ghost nf0 = next_paths@;
                let ghost rs0 = shortest_paths@;
                self.expand_step(
                    player,
                    &base,
                    e,
                    DirectionsSquare::Up,
                    &visited_fields,
                    &mut next_paths,
                    &mut new_visited_fields,
                    &mut shortest_paths,
                    Ghost(s),
                    Ghost(level),
                );
                let ghost nf1 = next_paths@;
                let ghost rs1 = shortest_paths@;
                proof {
                    lemma_track_expansion(
                        current_paths@,
                        level,
                        fi as int,
                        0,
                        DirectionsSquare::Up,
                        neighbor_spec(size, e, DirectionsSquare::Up)->0,
                        base@,
                        nf0,
                        nf1,
                        rs0,
                        rs1,
                    );
                }
                self.expand_step(
                    player,
                    &base,
                    e,
                    DirectionsSquare::Down,
                    &visited_fields,
                    &mut next_paths,
                    &mut new_visited_fields,
                    &mut shortest_paths,
                    Ghost(s),
                    Ghost(level),
                );
                let ghost nf2 = next_paths@;
                let ghost rs2 = shortest_paths@;
                proof {
                    lemma_track_expansion(
                        current_paths@,
                        level,
                        fi as int,
                        1,
                        DirectionsSquare::Down,
                        neighbor_spec(size, e, DirectionsSquare::Down)->0,
                        base@,
                        nf1,
                        nf2,
                        rs1,
                        rs2,
                    );
                }
                self.expand_step(
                    player,
                    &base,
                    e,
                    DirectionsSquare::Left,
                    &visited_fields,
                    &mut next_paths,
                    &mut new_visited_fields,
                    &mut shortest_paths,
                    Ghost(s),
                    Ghost(level),
                );
                let ghost nf3 = next_paths@;
                let ghost rs3 = shortest_paths@;
                proof {
                    lemma_track_expansion(
                        current_paths@,
                        level,
                        fi as int,
                        2,
                        DirectionsSquare::Left,
                        neighbor_spec(size, e, DirectionsSquare::Left)->0,
                        base@,
                        nf2,
                        nf3,
                        rs2,
                        rs3,
                    );
                }
                self.expand_step(
                    player,
                    &base,
                    e,
                    DirectionsSquare::Right,
                    &visited_fields,
                    &mut next_paths,
                    &mut new_visited_fields,
                    &mut shortest_paths,
                    Ghost(s),
                    Ghost(level),
                );
                proof {
                    lemma_track_expansion(
                        current_paths@,
                        level,
                        fi as int,
                        3,
                        DirectionsSquare::Right,
                        neighbor_spec(size, e, DirectionsSquare::Right)->0,
                        base@,
                        nf3,
                        next_paths@,
                        rs3,
                        shortest_paths@,
                    );
                    lemma_from_processed_advance(
                        current_paths@,
                        next_paths@,
                        shortest_paths@,
                        level,
                        fi as int,
                    );
                    lemma_entry_step_handled(
                        size,
                        walls,
                        player,
                        visited_fields@,
                        current_paths@,
                        fi as int,
                        base@,
                        e,
                        nf0,
                        nf1,
                        nf2,
                        nf3,
                        next_paths@,
                        rs0,
                        rs1,
                        rs2,
                        rs3,
                        shortest_paths@,
                    );
                }
                fi = fi + 1;
            }
            proof {
                lemma_next_frontier_complete(
                    size,
                    walls,
                    player,
                    s,
                    visited_fields@,
                    current_paths@,
                    next_paths@,
                    shortest_paths@,
                    level,
                );
                lemma_results_now_complete(
                    size,
                    walls,
                    player,
                    s,
                    visited_fields@,
                    current_paths@,
                    next_paths@,
                    shortest_paths@,
                    level,
                );
            }
            let mut vi: usize = 0;
            while vi < new_visited_fields.len()
                invariant
                    2 <= size,
                    vi <= new_visited_fields@.len(),
                    forall|i: int|
                        0 <= i < new_visited_fields@.len() ==> cell_in_bounds(
                            size,
                            #[trigger] new_visited_fields@[i],
                        ) && !old_visited.contains(new_visited_fields@[i]),
                    seq_extends(visited_fields@, old_visited),
                    visited_fields@.len() <= old_visited.len() + vi,
                    cells_ok(size, visited_fields@),
                    forall|c: FieldIndexSquare|
                        #![trigger visited_fields@.contains(c)]
                        visited_fields@.contains(c) <==> (old_visited.contains(c)
                            || new_visited_fields@.take(vi as int).contains(c)),
                decreases new_visited_fields@.len() - vi,
            {
                let c = new_visited_fields[vi];
                let ghost pre = visited_fields@;
                if !contains_cell(&visited_fields, c) {
                    visited_fields.push(c);
                }
                proof {
                    assert(new_visited_fields@.take(vi as int + 1) =~= new_visited_fields@.take(
                        vi as int,
                    ).push(c));
                    assert forall|x: FieldIndexSquare|
                        #![trigger visited_fields@.contains(x)]
                        visited_fields@.contains(x) <==> (old_visited.contains(x)
                            || new_visited_fields@.take(vi as int + 1).contains(x)) by {
                        lemma_push_contains(new_visited_fields@.take(vi as int), c, x);
                        if pre.contains(c) {
                            assert(visited_fields@ == pre);
                        } else {
                            assert(visited_fields@ == pre.push(c));
                            lemma_push_contains(pre, c, x);
                            assert(visited_fields@.contains(x) <==> (pre.contains(x) || x == c));
                        }
                        assert(new_visited_fields@.take(vi as int + 1).contains(x) <==> (
                            new_visited_fields@.take(vi as int).contains(x) || x == c));
                    }
                }
                vi = vi + 1;
            }
            proof {
                lemma_visited_card(size, visited_fields@);
                assert(new_visited_fields@.take(new_visited_fields@.len() as int)
                    =~= new_visited_fields@);
                lemma_merge_visited_exact(
                    size,
                    walls,
                    player,
                    s,
                    old_visited,
                    visited_fields@,
                    next_paths@,
                    new_visited_fields@,
                    level,
                );
                if shortest_paths@.len() == 0 {
                    lemma_no_goal_update(size, walls, player, s, shortest_paths@, level);
                }
                if new_visited_fields@.len() > 0 {
                    let c0 = new_visited_fields@[0];
                    assert(!old_visited.contains(c0));
                    assert(new_visited_fields@.contains(c0));
                    assert(visited_fields@.contains(c0));
                    let k = choose|k: int|
                        0 <= k < visited_fields@.len() && visited_fields@[k] == c0;
                    if k < old_visited.len() {
                        assert(old_visited[k] == c0);
                        assert(old_visited.contains(c0));
                        assert(false);
                    }
                    assert(visited_fields@.len() > old_visited.len());
                } else {
                    assert(next_paths@.len() == new_visited_fields@.len());
                    assert(visited_fields@.len() <= old_visited.len());
                    assert(visited_fields@.len() == old_visited.len());
                }
                level = level + 1;
            }
            current_paths = next_paths;
        }
        proof {
            if shortest_paths@.len() == 0 {
                assert(current_paths@.len() == 0);
                assert(paths_view(shortest_paths).len() == 0);
                lemma_exit_empty(
                    size,
                    walls,
                    player,
                    s,
                    current_paths@,
                    paths_view(shortest_paths),
                    level,
                );
            } else {
                lemma_exit_found(
                    size,
                    walls,
                    player,
                    s,
                    shortest_paths@,
                    paths_view(shortest_paths),
                    level,
                );
            }
        }
        shortest_paths
    }
}

} // verus!
