//! Shortest-path routing over the grid: breadth-first search over
//! 4-directional neighbors, restricted to corridor cells — except that the
//! target itself may be entered as the final step, never passed through.
//!
//! `find_path` returns a shortest waypoint sequence from start to target,
//! both inclusive; a single-element path when start equals target; and an
//! empty sequence when no corridor route exists, which callers treat as a
//! routing stall.

use vstd::prelude::*;

use crate::board::Board;
use crate::module::{is_corridor_kind, GridPos};

verus! {

/// Sentinel distance for cells the search has not reached.
pub const UNREACHED: usize = usize::MAX;

/// 4-directional neighborhood.
pub open spec fn adjacent(a: GridPos, b: GridPos) -> bool {
    ||| (a.x == b.x && (a.y - b.y == 1 || b.y - a.y == 1))
    ||| (a.y == b.y && (a.x - b.x == 1 || b.x - a.x == 1))
}

/// Whether a route heading for `target` may step onto `q`: on the grid,
/// and either a corridor cell or the target itself.
pub open spec fn step_target_ok(board: Board, target: GridPos, q: GridPos) -> bool {
    board.in_bounds(q) && (is_corridor_kind(board.module_at(q).kind) || q == target)
}

/// A legal waypoint sequence from `start` to `target`: nonempty, endpoints
/// as named, consecutive cells adjacent, and every cell after the first an
/// admissible step toward `target`.
pub open spec fn valid_path(board: Board, start: GridPos, target: GridPos, path: Seq<GridPos>)
    -> bool {
    &&& path.len() >= 1
    &&& path[0] == start
    &&& path.last() == target
    &&& forall|i: int|
        1 <= i < path.len() ==> adjacent(path[i - 1], #[trigger] path[i]) && step_target_ok(
            board,
            target,
            path[i],
        )
}

/// Whether any legal route connects `start` to `target`.
pub open spec fn connected(board: Board, start: GridPos, target: GridPos) -> bool {
    exists|path: Seq<GridPos>| valid_path(board, start, target, path)
}

/// Whether the search may expand `p`: the start always (a route may leave
/// any cell), otherwise only corridor cells, and never the target, which
/// is entered but not passed through.
pub open spec fn can_expand(board: Board, start: GridPos, target: GridPos, p: GridPos) -> bool {
    &&& board.in_bounds(p)
    &&& p != target
    &&& (p == start || is_corridor_kind(board.module_at(p).kind))
}

/// How many cells the search has reached.
pub open spec fn count_set(d: Seq<usize>) -> nat
    decreases d.len(),
{
    if d.len() == 0 {
        0
    } else {
        count_set(d.drop_last()) + if d.last() != UNREACHED {
            1nat
        } else {
            0nat
        }
    }
}

pub proof fn lemma_count_le_len(d: Seq<usize>)
    ensures
        count_set(d) <= d.len(),
    decreases d.len(),
{
    if d.len() > 0 {
        lemma_count_le_len(d.drop_last());
    }
}

/// Reaching one more cell raises the count by exactly one.
pub proof fn lemma_count_update(d: Seq<usize>, j: int, v: usize)
    requires
        0 <= j < d.len(),
        d[j] == UNREACHED,
        v != UNREACHED,
    ensures
        count_set(d.update(j, v)) == count_set(d) + 1,
    decreases d.len(),
{
    let d2 = d.update(j, v);
    if j == d.len() - 1 {
        assert(d2.drop_last() =~= d.drop_last());
        assert(d2.last() == v && d.last() == UNREACHED);
    } else {
        assert(d2.drop_last() =~= d.drop_last().update(j, v));
        lemma_count_update(d.drop_last(), j, v);
        assert(d2.last() == d.last());
    }
}

/// The distance labels assigned so far are sound: the start is at zero,
/// and every other reached cell records an admissible predecessor one step
/// closer to the start.
pub open spec fn parent_ok(
    board: Board,
    start: GridPos,
    target: GridPos,
    d: Seq<usize>,
    par: Seq<usize>,
) -> bool {
    &&& d.len() == board.modules@.len()
    &&& par.len() == d.len()
    &&& d[board.pos_index(start)] == 0
    &&& forall|i: int|
        0 <= i < d.len() && (#[trigger] d[i]) != UNREACHED && i != board.pos_index(start) ==> {
            &&& 0 < d[i] < UNREACHED
            &&& 0 <= par[i] < d.len()
            &&& d[par[i] as int] != UNREACHED
            &&& d[par[i] as int] + 1 == d[i]
            &&& adjacent(board.pos_of_index(par[i] as int), board.pos_of_index(i))
            &&& step_target_ok(board, target, board.pos_of_index(i))
            &&& can_expand(board, start, target, board.pos_of_index(par[i] as int))
        }
}

/// All assigned distances are at most `bound`.
pub open spec fn dist_bounded(d: Seq<usize>, bound: int) -> bool {
    forall|i: int| 0 <= i < d.len() ==> (#[trigger] d[i]) == UNREACHED || d[i] <= bound
}

/// Every reached cell strictly below `level` has had its whole admissible
/// neighborhood reached, each neighbor at most one step further.
pub open spec fn closed_below(
    board: Board,
    start: GridPos,
    target: GridPos,
    d: Seq<usize>,
    level: int,
) -> bool {
    forall|i: int, q: GridPos|
        #![trigger d[i], step_target_ok(board, target, q)]
        0 <= i < d.len() && d[i] != UNREACHED && d[i] < level && can_expand(
            board,
            start,
            target,
            board.pos_of_index(i),
        ) && adjacent(board.pos_of_index(i), q) && step_target_ok(board, target, q) ==> {
            &&& d[board.pos_index(q)] != UNREACHED
            &&& d[board.pos_index(q)] <= d[i] + 1
        }
}

/// The frontier is exactly the set of cells at distance `level`.
pub open spec fn frontier_ok(board: Board, d: Seq<usize>, fr: Seq<usize>, level: int) -> bool {
    &&& forall|k: int|
        0 <= k < fr.len() ==> (#[trigger] fr[k]) < d.len() && d[fr[k] as int] == level
    &&& forall|i: int|
        0 <= i < d.len() && (#[trigger] d[i]) != UNREACHED && d[i] == level ==> fr.contains(
            i as usize,
        )
}

/// An adjacent cell is one of the four axis neighbors.
pub proof fn lemma_adjacent_four(p: GridPos, q: GridPos)
    requires
        adjacent(p, q),
    ensures
        ({
            ||| (q.x == p.x + 1 && q.y == p.y)
            ||| (q.x == p.x - 1 && q.y == p.y)
            ||| (q.y == p.y + 1 && q.x == p.x)
            ||| (q.y == p.y - 1 && q.x == p.x)
        }),
{
}

/// Along any legal route whose interior avoids the target, the search's
/// final labelling reaches the `j`-th cell within `j` steps — the lower
/// half of BFS optimality.
pub proof fn lemma_prefix_reach(
    board: Board,
    start: GridPos,
    target: GridPos,
    d: Seq<usize>,
    par: Seq<usize>,
    p: Seq<GridPos>,
    j: int,
)
    requires
        board.grid_wf(),
        board.in_bounds(start),
        start != target,
        parent_ok(board, start, target, d, par),
        closed_below(board, start, target, d, UNREACHED as int),
        p.len() >= 1,
        p[0] == start,
        forall|i: int|
            1 <= i < p.len() ==> adjacent(p[i - 1], #[trigger] p[i]) && step_target_ok(
                board,
                target,
                p[i],
            ),
        0 <= j < p.len(),
        forall|i: int| 1 <= i < j ==> #[trigger] p[i] != target,
    ensures
        d[board.pos_index(p[j])] != UNREACHED,
        d[board.pos_index(p[j])] <= j,
    decreases j,
{
    board.lemma_pos_index(start);
    if j == 0 {
    } else {
        lemma_prefix_reach(board, start, target, d, par, p, j - 1);
        let prev = p[j - 1];
        let prev_idx = board.pos_index(prev);
        if j - 1 >= 1 {
            assert(board.in_bounds(prev)) by {
                assert(step_target_ok(board, target, prev));
            }
        }
        board.lemma_pos_index(prev);
        assert(board.pos_of_index(prev_idx) == prev) by {
            assert(board.modules@[prev_idx].pos == prev);
            board.lemma_index_pos(prev_idx);
            board.lemma_pos_index(board.pos_of_index(prev_idx));
        }
        assert(can_expand(board, start, target, prev)) by {
            if j - 1 == 0 {
            } else {
                assert(p[j - 1] != target);
                assert(step_target_ok(board, target, prev));
            }
        }
        assert(adjacent(board.pos_of_index(prev_idx), p[j]));
        assert(step_target_ok(board, target, p[j]));
        assert(d[prev_idx] != UNREACHED && d[prev_idx] < UNREACHED as int);
    }
}

/// The lower half of BFS optimality for whole routes: once the search has
/// closed every reached cell, any legal route of length `L` puts the
/// target at distance at most `L - 1`.
pub proof fn lemma_path_bound(
    board: Board,
    start: GridPos,
    target: GridPos,
    d: Seq<usize>,
    par: Seq<usize>,
    p: Seq<GridPos>,
)
    requires
        board.grid_wf(),
        board.in_bounds(start),
        start != target,
        parent_ok(board, start, target, d, par),
        closed_below(board, start, target, d, UNREACHED as int),
        valid_path(board, start, target, p),
    ensures
        d[board.pos_index(target)] != UNREACHED,
        d[board.pos_index(target)] <= p.len() - 1,
    decreases p.len(),
{
    if forall|i: int| 1 <= i < p.len() - 1 ==> #[trigger] p[i] != target {
        assert(p[p.len() - 1] == target);
        lemma_prefix_reach(board, start, target, d, par, p, p.len() - 1);
    } else {
        let i = choose|i: int| 1 <= i < p.len() - 1 && #[trigger] p[i] == target;
        let q = p.take(i + 1);
        assert(q.len() == i + 1);
        assert(q[0] == start);
        assert(q.last() == target);
        assert(forall|k: int|
            1 <= k < q.len() ==> adjacent(q[k - 1], #[trigger] q[k]) && step_target_ok(
                board,
                target,
                q[k],
            ));
        assert(valid_path(board, start, target, q));
        lemma_path_bound(board, start, target, d, par, q);
    }
}

/// The cells of the frontier's processed prefix have had their whole
/// admissible neighborhoods reached, each neighbor at most one past `level`.
pub open spec fn frontier_closed_upto(
    board: Board,
    start: GridPos,
    target: GridPos,
    d: Seq<usize>,
    fr: Seq<usize>,
    f: int,
    level: int,
) -> bool {
    forall|j: int, q: GridPos|
        #![trigger fr[j], step_target_ok(board, target, q)]
        0 <= j < f && can_expand(board, start, target, board.pos_of_index(fr[j] as int))
            && adjacent(board.pos_of_index(fr[j] as int), q) && step_target_ok(board, target, q)
            ==> {
            &&& d[board.pos_index(q)] != UNREACHED
            &&& d[board.pos_index(q)] <= level + 1
        }
}


/// The running invariant of the search between levels.
pub open spec fn search_inv(
    board: Board,
    start: GridPos,
    target: GridPos,
    d: Seq<usize>,
    par: Seq<usize>,
    level: int,
) -> bool {
    &&& d.len() == board.modules@.len()
    &&& par.len() == d.len()
    &&& parent_ok(board, start, target, d, par)
    &&& dist_bounded(d, level)
    &&& closed_below(board, start, target, d, level)
}

/// A fully-unreached labelling has count zero.
proof fn lemma_count_all_unreached(d: Seq<usize>)
    requires
        forall|i: int| 0 <= i < d.len() ==> #[trigger] d[i] == UNREACHED,
    ensures
        count_set(d) == 0,
    decreases d.len(),
{
    if d.len() > 0 {
        lemma_count_all_unreached(d.drop_last());
    }
}

/// Discovery shape: the relation between the labelling before and after
/// one probe of `q` from `u`.
pub open spec fn discover_shape(
    board: Board,
    target: GridPos,
    d: Seq<usize>,
    par: Seq<usize>,
    nx: Seq<usize>,
    level: int,
    u: usize,
    q: GridPos,
    d2: Seq<usize>,
    par2: Seq<usize>,
    nx2: Seq<usize>,
) -> bool {
    let discovered = board.in_bounds(q) && step_target_ok(board, target, q) && d[board.pos_index(
        q,
    )] == UNREACHED;
    if discovered {
        &&& d2 == d.update(board.pos_index(q), (level + 1) as usize)
        &&& par2 == par.update(board.pos_index(q), u)
        &&& nx2 == nx.push((board.pos_index(q)) as usize)
    } else {
        &&& d2 == d
        &&& par2 == par
        &&& nx2 == nx
    }
}

/// One probe keeps the parent labelling sound.
#[verifier::spinoff_prover]
proof fn lemma_discover_parent_ok(
    board: Board,
    start: GridPos,
    target: GridPos,
    d: Seq<usize>,
    par: Seq<usize>,
    nx: Seq<usize>,
    level: int,
    u: usize,
    q: GridPos,
    d2: Seq<usize>,
    par2: Seq<usize>,
    nx2: Seq<usize>,
)
    requires
        board.grid_wf(),
        board.in_bounds(start),
        board.in_bounds(target),
        parent_ok(board, start, target, d, par),
        u < d.len(),
        d[u as int] == level,
        0 <= level,
        level + 1 < UNREACHED,
        can_expand(board, start, target, board.pos_of_index(u as int)),
        adjacent(board.pos_of_index(u as int), q),
        d.len() <= usize::MAX,
        discover_shape(board, target, d, par, nx, level, u, q, d2, par2, nx2),
    ensures
        parent_ok(board, start, target, d2, par2),
{
    board.lemma_pos_index(start);
    let discovered = board.in_bounds(q) && step_target_ok(board, target, q) && d[board.pos_index(q)] == UNREACHED;
    if discovered {
        board.lemma_pos_index(q);
        let qi = board.pos_index(q);
        board.lemma_index_pos(qi);
        assert(board.pos_of_index(qi) == q) by {
            assert(board.modules@[qi].pos == q);
            assert(board.modules@[qi].pos == board.pos_of_index(qi));
        }
        assert(qi != u as int);
        assert(qi != board.pos_index(start));
        assert forall|i: int|
            0 <= i < d2.len() && (#[trigger] d2[i]) != UNREACHED && i != board.pos_index(start)
            implies {
            &&& 0 < d2[i] < UNREACHED
            &&& 0 <= par2[i] < d2.len()
            &&& d2[par2[i] as int] != UNREACHED
            &&& d2[par2[i] as int] + 1 == d2[i]
            &&& adjacent(board.pos_of_index(par2[i] as int), board.pos_of_index(i))
            &&& step_target_ok(board, target, board.pos_of_index(i))
            &&& can_expand(board, start, target, board.pos_of_index(par2[i] as int))
        } by {
            if i == qi {
                assert(d2[i] == level + 1);
                assert(par2[i] == u);
                assert(d2[u as int] == level);
            } else {
                assert(d2[i] == d[i] && par2[i] == par[i]);
                assert(d[par[i] as int] != UNREACHED);
                assert(par[i] as int != qi);
                assert(d2[par[i] as int] == d[par[i] as int]);
            }
        }
    }
}

/// One probe keeps the next frontier exactly the cells one past `level`.
#[verifier::spinoff_prover]
proof fn lemma_discover_frontier(
    board: Board,
    start: GridPos,
    target: GridPos,
    d: Seq<usize>,
    par: Seq<usize>,
    nx: Seq<usize>,
    level: int,
    u: usize,
    q: GridPos,
    d2: Seq<usize>,
    par2: Seq<usize>,
    nx2: Seq<usize>,
)
    requires
        board.grid_wf(),
        board.in_bounds(target),
        d.len() == board.modules@.len(),
        frontier_ok(board, d, nx, level + 1),
        u < d.len(),
        0 <= level,
        level + 1 < UNREACHED,
        d.len() <= usize::MAX,
        discover_shape(board, target, d, par, nx, level, u, q, d2, par2, nx2),
    ensures
        frontier_ok(board, d2, nx2, level + 1),
        count_set(d2) == count_set(d) + (nx2.len() - nx.len()),
{
    let discovered = board.in_bounds(q) && step_target_ok(board, target, q) && d[board.pos_index(q)] == UNREACHED;
    if discovered {
        board.lemma_pos_index(q);
        let qi = board.pos_index(q);
        lemma_count_update(d, qi, (level + 1) as usize);
        assert(nx2.len() == nx.len() + 1);
        assert forall|k: int|
            0 <= k < nx2.len() implies (#[trigger] nx2[k]) < d2.len() && d2[nx2[k] as int] == level
            + 1 by {
            if k < nx.len() {
                assert(nx2[k] == nx[k]);
                assert(d[nx[k] as int] == level + 1);
                assert(nx[k] as int != qi);
                assert(d2[nx[k] as int] == d[nx[k] as int]);
                assert(d2[nx2[k] as int] == level + 1);
            } else {
                assert(nx2[k] == qi as usize);
                assert(d2[qi] == (level + 1) as usize);
                assert(d2[nx2[k] as int] == level + 1);
            }
        }
        assert forall|i: int|
            0 <= i < d2.len() && (#[trigger] d2[i]) != UNREACHED && d2[i] == level + 1 implies nx2
            .contains(i as usize) by {
            if i == qi {
                assert(nx2[nx2.len() - 1] == qi as usize);
            } else {
                assert(d[i] == level + 1);
                assert(nx.contains(i as usize));
                let k = choose|k: int| 0 <= k < nx.len() && nx[k] == i as usize;
                assert(nx2[k] == i as usize);
            }
        }
    }
}

/// One probe keeps every cell below `level` closed.
#[verifier::spinoff_prover]
proof fn lemma_discover_closed(
    board: Board,
    start: GridPos,
    target: GridPos,
    d: Seq<usize>,
    par: Seq<usize>,
    nx: Seq<usize>,
    level: int,
    u: usize,
    q: GridPos,
    d2: Seq<usize>,
    par2: Seq<usize>,
    nx2: Seq<usize>,
)
    requires
        board.grid_wf(),
        board.in_bounds(target),
        d.len() == board.modules@.len(),
        closed_below(board, start, target, d, level),
        u < d.len(),
        level + 1 < UNREACHED,
        0 <= level,
        d.len() <= usize::MAX,
        discover_shape(board, target, d, par, nx, level, u, q, d2, par2, nx2),
    ensures
        closed_below(board, start, target, d2, level),
{
    let discovered = board.in_bounds(q) && step_target_ok(board, target, q) && d[board.pos_index(q)] == UNREACHED;
    if discovered {
        board.lemma_pos_index(q);
        let qi = board.pos_index(q);
        assert forall|i: int, r: GridPos|
            #![trigger d2[i], step_target_ok(board, target, r)]
            0 <= i < d2.len() && d2[i] != UNREACHED && d2[i] < level && can_expand(
                board,
                start,
                target,
                board.pos_of_index(i),
            ) && adjacent(board.pos_of_index(i), r) && step_target_ok(board, target, r) implies {
            &&& d2[board.pos_index(r)] != UNREACHED
            &&& d2[board.pos_index(r)] <= d2[i] + 1
        } by {
            assert(i != qi);
            assert(d[i] == d2[i]);
            assert(d[board.pos_index(r)] != UNREACHED && d[board.pos_index(r)] <= d[i] + 1);
            board.lemma_pos_index(r);
            assert(board.pos_index(r) != qi);
            assert(d2[board.pos_index(r)] == d[board.pos_index(r)]);
        }
    }
}

/// One neighbor probe preserves every search invariant and leaves the
/// probed cell reached.
#[verifier::spinoff_prover]
proof fn lemma_discover_preserves(
    board: Board,
    start: GridPos,
    target: GridPos,
    d: Seq<usize>,
    par: Seq<usize>,
    nx: Seq<usize>,
    level: int,
    u: usize,
    q: GridPos,
    d2: Seq<usize>,
    par2: Seq<usize>,
    nx2: Seq<usize>,
)
    requires
        board.grid_wf(),
        board.in_bounds(start),
        board.in_bounds(target),
        parent_ok(board, start, target, d, par),
        dist_bounded(d, level + 1),
        closed_below(board, start, target, d, level),
        frontier_ok(board, d, nx, level + 1),
        u < d.len(),
        d[u as int] == level,
        0 <= level,
        level + 1 < UNREACHED,
        can_expand(board, start, target, board.pos_of_index(u as int)),
        adjacent(board.pos_of_index(u as int), q),
        d.len() <= usize::MAX,
        discover_shape(board, target, d, par, nx, level, u, q, d2, par2, nx2),
    ensures
        parent_ok(board, start, target, d2, par2),
        dist_bounded(d2, level + 1),
        closed_below(board, start, target, d2, level),
        frontier_ok(board, d2, nx2, level + 1),
        count_set(d2) == count_set(d) + (nx2.len() - nx.len()),
        nx2.len() >= nx.len(),
        forall|k: int| 0 <= k < nx.len() ==> #[trigger] nx2[k] == nx[k],
        forall|i: int| 0 <= i < d.len() && (#[trigger] d[i]) != UNREACHED ==> d2[i] == d[i],
        forall|i: int| 0 <= i < d.len() && #[trigger] d2[i] != d[i] ==> d[i] == UNREACHED && d2[i]
            == level + 1,
        step_target_ok(board, target, q) ==> d2[board.pos_index(q)] != UNREACHED && d2[
        board.pos_index(q)] <= level + 1,
        d2.len() == d.len(),
        par2.len() == par.len(),
{
    lemma_discover_parent_ok(board, start, target, d, par, nx, level, u, q, d2, par2, nx2);
    lemma_discover_frontier(board, start, target, d, par, nx, level, u, q, d2, par2, nx2);
    lemma_discover_closed(board, start, target, d, par, nx, level, u, q, d2, par2, nx2);
    if step_target_ok(board, target, q) {
        board.lemma_pos_index(q);
        if board.in_bounds(q) && d[board.pos_index(q)] == UNREACHED {
        } else {
            assert(d[board.pos_index(q)] != UNREACHED);
            assert(d[board.pos_index(q)] <= level + 1);
        }
    }
}

impl Board {
    /// One neighbor probe of the search: discover `q` at `level + 1` with
    /// predecessor `u` if it is an admissible, not-yet-reached step toward
    /// `target`; otherwise change nothing.
    fn try_discover(
        &self,
        target: GridPos,
        dist: &mut Vec<usize>,
        parent: &mut Vec<usize>,
        next: &mut Vec<usize>,
        u: usize,
        q: GridPos,
        level: usize,
    )
        requires
            self.grid_wf(),
            old(dist)@.len() == self.modules@.len(),
            old(parent)@.len() == self.modules@.len(),
            u < self.modules@.len(),
            level + 1 < UNREACHED,
        ensures
            ({
                let discovered = self.in_bounds(q) && step_target_ok(*self, target, q) && old(dist)@[self.pos_index(q)] == UNREACHED;
                if discovered {
                    &&& final(dist)@ == old(dist)@.update(self.pos_index(q), (level + 1) as usize)
                    &&& final(parent)@ == old(parent)@.update(self.pos_index(q), u)
                    &&& final(next)@ == old(next)@.push((self.pos_index(q)) as usize)
                } else {
                    &&& final(dist)@ == old(dist)@
                    &&& final(parent)@ == old(parent)@
                    &&& final(next)@ == old(next)@
                }
            }),
    {
        if self.inbounds(q) {
            let qi = self.idx_of(q);
            let trav = self.modules[qi].kind.is_traversable();
            let is_tgt = q == target;
            proof {
                assert(self.module_at(q) == self.modules@[qi as int]);
            }
            if (trav || is_tgt) && dist[qi] == UNREACHED {
                dist.set(qi, level + 1);
                parent.set(qi, u);
                next.push(qi);
            }
        }
    }

    /// Expand one frontier cell: probe its four neighbors, extending the
    /// labelling and the next frontier, and leave the cell's whole
    /// admissible neighborhood reached.
    #[verifier::rlimit(100)]
    #[verifier::spinoff_prover]
    fn expand_node(
        &self,
        start: GridPos,
        target: GridPos,
        dist: &mut Vec<usize>,
        parent: &mut Vec<usize>,
        next: &mut Vec<usize>,
        u: usize,
        level: usize,
    )
        requires
            self.grid_wf(),
            self.in_bounds(start),
            self.in_bounds(target),
            parent_ok(*self, start, target, old(dist)@, old(parent)@),
            dist_bounded(old(dist)@, level + 1),
            closed_below(*self, start, target, old(dist)@, level as int),
            frontier_ok(*self, old(dist)@, old(next)@, level + 1),
            u < self.modules@.len(),
            old(dist)@[u as int] == level,
            level + 1 < UNREACHED,
        ensures
            parent_ok(*self, start, target, final(dist)@, final(parent)@),
            dist_bounded(final(dist)@, level + 1),
            closed_below(*self, start, target, final(dist)@, level as int),
            frontier_ok(*self, final(dist)@, final(next)@, level + 1),
            count_set(final(dist)@) == count_set(old(dist)@) + (final(next)@.len() - old(next)@.len()),
            final(next)@.len() >= old(next)@.len(),
            forall|i: int|
                0 <= i < old(dist)@.len() && (#[trigger] old(dist)@[i]) != UNREACHED ==> final(dist)@[i] == old(dist)@[i],
            forall|i: int|
                0 <= i < old(dist)@.len() && #[trigger] final(dist)@[i] != old(dist)@[i] ==> old(dist)@[i] == UNREACHED && final(dist)@[i] == level + 1,
            can_expand(*self, start, target, self.pos_of_index(u as int)) ==> forall|q: GridPos|
                adjacent(self.pos_of_index(u as int), q) && #[trigger] step_target_ok(
                    *self,
                    target,
                    q,
                ) ==> final(dist)@[self.pos_index(q)] != UNREACHED && final(dist)@[self.pos_index(
                    q,
                )] <= level + 1,
            final(dist)@.len() == old(dist)@.len(),
            final(parent)@.len() == old(parent)@.len(),
    {
        let u_pos = self.modules[u].pos;
        let dist_len = dist.len();
        proof {
            self.lemma_index_pos(u as int);
            assert(u_pos == self.pos_of_index(u as int));
            assert(dist@.len() == dist_len && dist_len <= usize::MAX);
        }
        let expandable = !(u_pos == target) && (u_pos == start || self.modules[u]
            .kind
            .is_traversable());
        if !expandable {
            proof {
                assert(!can_expand(*self, start, target, self.pos_of_index(u as int)));
            }
            return ;
        }
        proof {
            assert(can_expand(*self, start, target, self.pos_of_index(u as int)));
        }
        let q1 = GridPos { x: u_pos.x + 1, y: u_pos.y };
        let q2 = GridPos { x: u_pos.x - 1, y: u_pos.y };
        let q3 = GridPos { x: u_pos.x, y: u_pos.y + 1 };
        let q4 = GridPos { x: u_pos.x, y: u_pos.y - 1 };
        let ghost da = dist@;
        let ghost pa = parent@;
        let ghost na = next@;
        self.try_discover(target, dist, parent, next, u, q1, level);
        proof {
            lemma_discover_preserves(
                *self,
                start,
                target,
                da,
                pa,
                na,
                level as int,
                u,
                q1,
                dist@,
                parent@,
                next@,
            );
        }
        let ghost db = dist@;
        let ghost pb = parent@;
        let ghost nb = next@;
        self.try_discover(target, dist, parent, next, u, q2, level);
        proof {
            lemma_discover_preserves(
                *self,
                start,
                target,
                db,
                pb,
                nb,
                level as int,
                u,
                q2,
                dist@,
                parent@,
                next@,
            );
        }
        let ghost dc = dist@;
        let ghost pc = parent@;
        let ghost nc = next@;
        self.try_discover(target, dist, parent, next, u, q3, level);
        proof {
            lemma_discover_preserves(
                *self,
                start,
                target,
                dc,
                pc,
                nc,
                level as int,
                u,
                q3,
                dist@,
                parent@,
                next@,
            );
        }
        let ghost dd = dist@;
        let ghost pd = parent@;
        let ghost nd = next@;
        self.try_discover(target, dist, parent, next, u, q4, level);
        proof {
            lemma_discover_preserves(
                *self,
                start,
                target,
                dd,
                pd,
                nd,
                level as int,
                u,
                q4,
                dist@,
                parent@,
                next@,
            );
            assert forall|q: GridPos|
                adjacent(self.pos_of_index(u as int), q) && #[trigger] step_target_ok(
                    *self,
                    target,
                    q,
                ) implies final(dist)@[self.pos_index(q)] != UNREACHED && final(dist)@[
            self.pos_index(q)] <= level + 1 by {
                lemma_adjacent_four(self.pos_of_index(u as int), q);
                self.lemma_pos_index(q);
                if q.x == u_pos.x + 1 && q.y == u_pos.y {
                    assert(q == q1);
                    assert(db[self.pos_index(q)] != UNREACHED && db[self.pos_index(q)] <= level
                        + 1);
                    assert(dc[self.pos_index(q)] == db[self.pos_index(q)]);
                    assert(dd[self.pos_index(q)] == dc[self.pos_index(q)]);
                    assert(dist@[self.pos_index(q)] == dd[self.pos_index(q)]);
                } else if q.x == u_pos.x - 1 && q.y == u_pos.y {
                    assert(q == q2);
                    assert(dc[self.pos_index(q)] != UNREACHED && dc[self.pos_index(q)] <= level
                        + 1);
                    assert(dd[self.pos_index(q)] == dc[self.pos_index(q)]);
                    assert(dist@[self.pos_index(q)] == dd[self.pos_index(q)]);
                } else if q.y == u_pos.y + 1 && q.x == u_pos.x {
                    assert(q == q3);
                    assert(dd[self.pos_index(q)] != UNREACHED && dd[self.pos_index(q)] <= level
                        + 1);
                    assert(dist@[self.pos_index(q)] == dd[self.pos_index(q)]);
                } else {
                    assert(q == q4);
                }
            }
        }
    }
}

/// Reaching new cells at `level + 1` does not disturb a frontier of cells
/// at `level`.
proof fn lemma_monotone_frontier(
    board: Board,
    dold: Seq<usize>,
    dnew: Seq<usize>,
    fr: Seq<usize>,
    level: int,
)
    requires
        dold.len() == dnew.len(),
        frontier_ok(board, dold, fr, level),
        forall|i: int| 0 <= i < dold.len() && (#[trigger] dold[i]) != UNREACHED ==> dnew[i]
            == dold[i],
        forall|i: int|
            0 <= i < dold.len() && #[trigger] dnew[i] != dold[i] ==> dold[i] == UNREACHED
                && dnew[i] == level + 1,
    ensures
        frontier_ok(board, dnew, fr, level),
{
    assert forall|k: int|
        0 <= k < fr.len() implies (#[trigger] fr[k]) < dnew.len() && dnew[fr[k] as int]
        == level by {
        assert(dold[fr[k] as int] == level);
    }
    assert forall|i: int|
        0 <= i < dnew.len() && (#[trigger] dnew[i]) != UNREACHED && dnew[i] == level implies fr
        .contains(i as usize) by {
        if dnew[i] != dold[i] {
            assert(dnew[i] == level + 1);
        }
        assert(dold[i] == level);
    }
}

/// After expanding the cell `fr[f]`, the closed prefix of the frontier
/// grows by one.
proof fn lemma_extend_coverage(
    board: Board,
    start: GridPos,
    target: GridPos,
    da: Seq<usize>,
    dnew: Seq<usize>,
    fr: Seq<usize>,
    f: int,
    level: int,
    u: usize,
)
    requires
        board.grid_wf(),
        da.len() == dnew.len(),
        da.len() == board.modules@.len(),
        frontier_closed_upto(board, start, target, da, fr, f, level),
        0 <= f < fr.len(),
        fr[f] == u,
        forall|i: int| 0 <= i < da.len() && (#[trigger] da[i]) != UNREACHED ==> dnew[i] == da[i],
        can_expand(board, start, target, board.pos_of_index(u as int)) ==> forall|q: GridPos|
            adjacent(board.pos_of_index(u as int), q) && #[trigger] step_target_ok(
                board,
                target,
                q,
            ) ==> dnew[board.pos_index(q)] != UNREACHED && dnew[board.pos_index(q)] <= level + 1,
    ensures
        frontier_closed_upto(board, start, target, dnew, fr, f + 1, level),
{
    assert forall|j: int, q: GridPos|
        0 <= j < f + 1 && can_expand(
            board,
            start,
            target,
            board.pos_of_index(#[trigger] fr[j] as int),
        ) && adjacent(board.pos_of_index(fr[j] as int), q) && #[trigger] step_target_ok(
            board,
            target,
            q,
        ) implies {
        &&& dnew[board.pos_index(q)] != UNREACHED
        &&& dnew[board.pos_index(q)] <= level + 1
    } by {
        board.lemma_pos_index(q);
        if j < f {
            assert(da[board.pos_index(q)] != UNREACHED && da[board.pos_index(q)] <= level + 1);
            assert(dnew[board.pos_index(q)] == da[board.pos_index(q)]);
        } else {
            assert(fr[j] == u);
        }
    }
}

/// Once a whole frontier at `level` is expanded, every cell at or below
/// `level` is closed.
proof fn lemma_level_closed(
    board: Board,
    start: GridPos,
    target: GridPos,
    d: Seq<usize>,
    fr: Seq<usize>,
    level: int,
)
    requires
        board.grid_wf(),
        d.len() == board.modules@.len(),
        closed_below(board, start, target, d, level),
        frontier_ok(board, d, fr, level),
        frontier_closed_upto(board, start, target, d, fr, fr.len() as int, level),
        d.len() <= usize::MAX,
    ensures
        closed_below(board, start, target, d, level + 1),
{
    assert forall|i: int, q: GridPos|
        #![trigger d[i], step_target_ok(board, target, q)]
        0 <= i < d.len() && d[i] != UNREACHED && d[i] < level + 1 && can_expand(
            board,
            start,
            target,
            board.pos_of_index(i),
        ) && adjacent(board.pos_of_index(i), q) && step_target_ok(board, target, q) implies {
        &&& d[board.pos_index(q)] != UNREACHED
        &&& d[board.pos_index(q)] <= d[i] + 1
    } by {
        if d[i] < level {
        } else {
            assert(d[i] == level);
            assert(fr.contains(i as usize));
            let j = choose|j: int| 0 <= j < fr.len() && fr[j] == i as usize;
            assert(board.pos_of_index(fr[j] as int) == board.pos_of_index(i));
        }
    }
}

/// One step of the parent-chain walk: the recorded predecessor is one step
/// closer to the start and adjacent to the current cell.
proof fn lemma_walk_step(
    board: Board,
    start: GridPos,
    target: GridPos,
    d: Seq<usize>,
    par: Seq<usize>,
    cur: usize,
)
    requires
        board.grid_wf(),
        parent_ok(board, start, target, d, par),
        cur < d.len(),
        d[cur as int] != UNREACHED,
        cur as int != board.pos_index(start),
        d.len() == board.modules@.len(),
    ensures
        0 <= par[cur as int] < d.len(),
        d[par[cur as int] as int] != UNREACHED,
        d[par[cur as int] as int] + 1 == d[cur as int],
        adjacent(board.modules@[par[cur as int] as int].pos, board.modules@[cur as int].pos),
        step_target_ok(board, target, board.modules@[cur as int].pos),
{
    board.lemma_index_pos(par[cur as int] as int);
    assert(board.modules@[par[cur as int] as int].pos == board.pos_of_index(
        par[cur as int] as int,
    ));
    assert(board.modules@[cur as int].pos == board.pos_of_index(cur as int));
}

/// After a whole level is expanded, the search invariant holds one level
/// up, and the reached-count has grown by the new frontier's size.
proof fn lemma_level_advance(
    board: Board,
    start: GridPos,
    target: GridPos,
    d: Seq<usize>,
    par: Seq<usize>,
    next: Seq<usize>,
    level: int,
    count0: nat,
)
    requires
        d.len() == board.modules@.len(),
        par.len() == d.len(),
        parent_ok(board, start, target, d, par),
        dist_bounded(d, level + 1),
        closed_below(board, start, target, d, level + 1),
        frontier_ok(board, d, next, level + 1),
        count_set(d) == count0 + next.len(),
        count0 >= level + 1,
    ensures
        search_inv(board, start, target, d, par, level + 1),
        next.len() > 0 ==> count_set(d) >= level + 2,
        count_set(d) <= d.len(),
{
    assert(dist_bounded(d, level + 2));
    lemma_count_le_len(d);
}

/// Once the frontier empties, every reached cell is fully closed.
proof fn lemma_closure_at_exit(
    board: Board,
    start: GridPos,
    target: GridPos,
    d: Seq<usize>,
    fr: Seq<usize>,
    level: int,
)
    requires
        d.len() == board.modules@.len(),
        dist_bounded(d, level),
        closed_below(board, start, target, d, level),
        frontier_ok(board, d, fr, level),
        fr.len() == 0,
    ensures
        closed_below(board, start, target, d, UNREACHED as int),
        forall|i: int| 0 <= i < d.len() && (#[trigger] d[i]) != UNREACHED ==> d[i] < level,
{
    assert forall|i: int|
        0 <= i < d.len() && (#[trigger] d[i]) != UNREACHED implies d[i] < level by {
        if d[i] == level {
            assert(fr.contains(i as usize));
        }
    }
    assert forall|i: int, q: GridPos|
        #![trigger d[i], step_target_ok(board, target, q)]
        0 <= i < d.len() && d[i] != UNREACHED && d[i] < UNREACHED as int && can_expand(
            board,
            start,
            target,
            board.pos_of_index(i),
        ) && adjacent(board.pos_of_index(i), q) && step_target_ok(board, target, q) implies {
        &&& d[board.pos_index(q)] != UNREACHED
        &&& d[board.pos_index(q)] <= d[i] + 1
    } by {
        assert(d[i] < level);
    }
}

/// A reversed parent-chain walk is a valid route, and — by the closure of
/// the finished search — a shortest one.
proof fn lemma_assemble_path(
    board: Board,
    start: GridPos,
    target: GridPos,
    d: Seq<usize>,
    par: Seq<usize>,
    rev: Seq<GridPos>,
    out: Seq<GridPos>,
)
    requires
        board.grid_wf(),
        board.in_bounds(start),
        board.in_bounds(target),
        parent_ok(board, start, target, d, par),
        closed_below(board, start, target, d, UNREACHED as int),
        d[board.pos_index(target)] != UNREACHED,
        rev.len() == d[board.pos_index(target)] + 1,
        rev[0] == target,
        rev.last() == start,
        forall|k: int|
            0 <= k < rev.len() - 1 ==> adjacent(rev[k + 1], #[trigger] rev[k]) && step_target_ok(
                board,
                target,
                rev[k],
            ),
        out.len() == rev.len(),
        forall|k: int| 0 <= k < out.len() ==> #[trigger] out[k] == rev[rev.len() - 1 - k],
    ensures
        valid_path(board, start, target, out),
        connected(board, start, target),
        forall|q: Seq<GridPos>| valid_path(board, start, target, q) ==> out.len() <= q.len(),
        start == target ==> out =~= seq![start],
{
    let p = out;
    let l = rev.len() as int;
    assert(p[0] == rev[l - 1]);
    assert(rev[l - 1] == rev.last());
    assert(p.last() == rev[0]);
    assert forall|i: int|
        1 <= i < p.len() implies adjacent(p[i - 1], #[trigger] p[i]) && step_target_ok(
        board,
        target,
        p[i],
    ) by {
        assert(p[i] == rev[l - 1 - i]);
        assert(p[i - 1] == rev[l - i]);
        assert(adjacent(rev[(l - 1 - i) + 1], rev[l - 1 - i]) && step_target_ok(
            board,
            target,
            rev[l - 1 - i],
        ));
    }
    assert(valid_path(board, start, target, out));
    assert(connected(board, start, target));
    board.lemma_pos_index(start);
    assert forall|q: Seq<GridPos>| valid_path(board, start, target, q) implies out.len()
        <= q.len() by {
        if start == target {
            assert(q.len() >= 1);
            assert(d[board.pos_index(target)] == 0);
            assert(out.len() == 1);
        } else {
            lemma_path_bound(board, start, target, d, par, q);
            assert(d[board.pos_index(target)] <= q.len() - 1);
        }
    }
    if start == target {
        assert(d[board.pos_index(target)] == 0);
        assert(out.len() == 1);
        assert(out =~= seq![start]);
    }
}

impl Board {
    /// Expand one whole frontier: probe every cell at `level`, producing
    /// the complete frontier at `level + 1` and leaving every cell at or
    /// below `level` closed.
    #[verifier::rlimit(100)]
    #[verifier::spinoff_prover]
    fn expand_level(
        &self,
        start: GridPos,
        target: GridPos,
        dist: &mut Vec<usize>,
        parent: &mut Vec<usize>,
        frontier: &Vec<usize>,
        level: usize,
    ) -> (next: Vec<usize>)
        requires
            self.grid_wf(),
            self.in_bounds(start),
            self.in_bounds(target),
            search_inv(*self, start, target, old(dist)@, old(parent)@, level as int),
            frontier_ok(*self, old(dist)@, frontier@, level as int),
            level + 1 < UNREACHED,
        ensures
            parent_ok(*self, start, target, final(dist)@, final(parent)@),
            dist_bounded(final(dist)@, level + 1),
            closed_below(*self, start, target, final(dist)@, level + 1),
            frontier_ok(*self, final(dist)@, next@, level + 1),
            count_set(final(dist)@) == count_set(old(dist)@) + next@.len(),
            final(dist)@.len() == old(dist)@.len(),
            final(parent)@.len() == old(parent)@.len(),
    {
        let mut next: Vec<usize> = Vec::new();
        let mut f: usize = 0;
        proof {
            assert(dist_bounded(dist@, level + 1));
        }
        while f < frontier.len()
            invariant
                self.grid_wf(),
                self.in_bounds(start),
                self.in_bounds(target),
                f <= frontier@.len(),
                level + 1 < UNREACHED,
                parent_ok(*self, start, target, dist@, parent@),
                dist_bounded(dist@, level + 1),
                closed_below(*self, start, target, dist@, level as int),
                frontier_ok(*self, dist@, frontier@, level as int),
                frontier_ok(*self, dist@, next@, level + 1),
                frontier_closed_upto(
                    *self,
                    start,
                    target,
                    dist@,
                    frontier@,
                    f as int,
                    level as int,
                ),
                count_set(dist@) == count_set(old(dist)@) + next@.len(),
                dist@.len() == old(dist)@.len(),
                parent@.len() == old(parent)@.len(),
            decreases frontier@.len() - f,
        {
            let u = frontier[f];
            let ghost da = dist@;
            self.expand_node(start, target, dist, parent, &mut next, u, level);
            proof {
                lemma_monotone_frontier(*self, da, dist@, frontier@, level as int);
                lemma_extend_coverage(
                    *self,
                    start,
                    target,
                    da,
                    dist@,
                    frontier@,
                    f as int,
                    level as int,
                    u,
                );
            }
            f += 1;
        }
        let dist_len = dist.len();
        proof {
            assert(dist@.len() == dist_len);
            lemma_level_closed(*self, start, target, dist@, frontier@, level as int);
        }
        next
    }

    /// Walk the parent chain from the target back to the start, collecting
    /// the route in reverse order.
    #[verifier::rlimit(100)]
    #[verifier::spinoff_prover]
    fn walk_back(&self, start: GridPos, target: GridPos, dist: &Vec<usize>, parent: &Vec<usize>)
        -> (rev: Vec<GridPos>)
        requires
            self.grid_wf(),
            self.in_bounds(start),
            self.in_bounds(target),
            parent_ok(*self, start, target, dist@, parent@),
            dist@[self.pos_index(target)] != UNREACHED,
        ensures
            rev@.len() == dist@[self.pos_index(target)] + 1,
            rev@[0] == target,
            rev@.last() == start,
            forall|k: int|
                0 <= k < rev@.len() - 1 ==> adjacent(rev@[k + 1], #[trigger] rev@[k])
                    && step_target_ok(*self, target, rev@[k]),
    {
        let n = self.modules.len();
        let s_idx = self.idx_of(start);
        let t_idx = self.idx_of(target);
        let total = dist[t_idx];
        let mut rev: Vec<GridPos> = Vec::new();
        rev.push(self.modules[t_idx].pos);
        let mut cur: usize = t_idx;
        let ghost mut idxs: Seq<int> = seq![t_idx as int];
        while cur != s_idx
            invariant
                self.grid_wf(),
                n == self.modules@.len(),
                s_idx == self.pos_index(start),
                s_idx < n,
                t_idx < n,
                parent_ok(*self, start, target, dist@, parent@),
                dist@.len() == n,
                parent@.len() == n,
                cur < n,
                total == dist@[t_idx as int],
                total != UNREACHED,
                idxs.len() == rev@.len(),
                rev@.len() >= 1,
                idxs[0] == t_idx as int,
                idxs.last() == cur as int,
                forall|k: int|
                    0 <= k < idxs.len() ==> 0 <= #[trigger] idxs[k] < n && rev@[k]
                        == self.modules@[idxs[k]].pos && dist@[idxs[k]] == total - k,
                forall|k: int|
                    0 <= k < idxs.len() - 1 ==> #[trigger] idxs[k] != s_idx && idxs[k + 1]
                        == parent@[idxs[k]] as int,
            decreases dist@[cur as int],
        {
            let pa = parent[cur];
            proof {
                assert(dist@[cur as int] == total - (idxs.len() - 1));
                assert(dist@[cur as int] != UNREACHED);
                assert(cur as int != self.pos_index(start));
                assert(0 <= pa < n);
                assert(dist@[pa as int] + 1 == dist@[cur as int]);
                idxs = idxs.push(pa as int);
            }
            rev.push(self.modules[pa].pos);
            cur = pa;
        }
        proof {
            assert(dist@[s_idx as int] == 0);
            assert(rev@.len() == total + 1);
            assert(rev@.last() == self.modules@[s_idx as int].pos);
            assert(rev@.last() == start);
            assert(rev@[0] == self.modules@[t_idx as int].pos);
            assert forall|k: int|
                0 <= k < rev@.len() - 1 implies adjacent(rev@[k + 1], #[trigger] rev@[k])
                && step_target_ok(*self, target, rev@[k]) by {
                let i = idxs[k];
                assert(dist@[i] == total - k);
                assert(dist@[i] != UNREACHED);
                assert(i != s_idx);
                assert(0 <= parent@[i] < n);
                assert(adjacent(
                    self.pos_of_index(parent@[i] as int),
                    self.pos_of_index(i),
                ) && step_target_ok(*self, target, self.pos_of_index(i)));
                assert(self.modules@[i].pos == self.pos_of_index(i));
                assert(idxs[k + 1] == parent@[i] as int);
                assert(self.modules@[idxs[k + 1]].pos == self.pos_of_index(parent@[i] as int));
                assert(rev@[k] == self.modules@[i].pos);
                assert(rev@[k + 1] == self.modules@[idxs[k + 1]].pos);
            }
        }
        rev
    }

    /// Breadth-first shortest-path routing from `start` to `target` over
    /// 4-directional neighbors, restricted to corridor cells — the target
    /// itself is accepted as the final step but never passed through.
    ///
    /// Returns a shortest legal waypoint sequence, start and target
    /// inclusive; `[start]` when the two coincide; and the empty sequence
    /// exactly when no legal route exists (a routing stall, not an error).
    #[verifier::rlimit(100)]
    #[verifier::spinoff_prover]
    pub fn find_path(&self, start: GridPos, target: GridPos) -> (r: Vec<GridPos>)
        requires
            self.grid_wf(),
            self.in_bounds(start),
            self.in_bounds(target),
        ensures
            r@.len() > 0 ==> valid_path(*self, start, target, r@),
            forall|q: Seq<GridPos>|
                r@.len() > 0 && valid_path(*self, start, target, q) ==> r@.len() <= q.len(),
            (r@.len() == 0) <==> !connected(*self, start, target),
            start == target ==> r@ =~= seq![start],
    {
        let n = self.modules.len();
        proof {
            assert((self.width as int) * (self.height as int) <= 100000000) by (nonlinear_arith)
                requires
                    self.width <= 10000,
                    self.height <= 10000,
            ;
        }
        let s_idx = self.idx_of(start);
        let mut dist: Vec<usize> = vec![UNREACHED; n];
        let ghost dinit = dist@;
        let mut parent: Vec<usize> = vec![0usize; n];
        dist.set(s_idx, 0);
        let mut frontier: Vec<usize> = Vec::new();
        frontier.push(s_idx);
        let mut level: usize = 0;
        proof {
            self.lemma_pos_index(start);
            self.lemma_pos_index(target);
            lemma_count_all_unreached(dinit);
            lemma_count_update(dinit, s_idx as int, 0);
            assert(dist@ =~= dinit.update(s_idx as int, 0));
            assert(count_set(dist@) == 1);
            assert(frontier@[0] == s_idx);
            assert(frontier@.contains(s_idx));
        }
        while frontier.len() > 0
            invariant
                self.grid_wf(),
                self.in_bounds(start),
                self.in_bounds(target),
                n == self.modules@.len(),
                n <= 100000000,
                s_idx == self.pos_index(start),
                search_inv(*self, start, target, dist@, parent@, level as int),
                frontier_ok(*self, dist@, frontier@, level as int),
                frontier@.len() > 0 ==> count_set(dist@) >= level + 1,
                count_set(dist@) <= n,
            decreases n - count_set(dist@), frontier@.len(),
        {
            let ghost count0 = count_set(dist@);
            proof {
                assert(frontier@[0] < n && dist@[frontier@[0] as int] == level);
                assert(level + 1 < UNREACHED);
            }
            let next = self.expand_level(start, target, &mut dist, &mut parent, &frontier, level);
            proof {
                lemma_level_advance(
                    *self,
                    start,
                    target,
                    dist@,
                    parent@,
                    next@,
                    level as int,
                    count0,
                );
            }
            frontier = next;
            level = level + 1;
        }
        proof {
            lemma_closure_at_exit(*self, start, target, dist@, frontier@, level as int);
        }
        let t_idx = self.idx_of(target);
        if dist[t_idx] == UNREACHED {
            proof {
                assert(dist@[s_idx as int] == 0);
                assert(s_idx != t_idx);
                assert(start != target) by {
                    if start == target {
                        assert(s_idx == t_idx);
                    }
                }
                assert forall|p: Seq<GridPos>| !valid_path(*self, start, target, p) by {
                    if valid_path(*self, start, target, p) {
                        lemma_path_bound(*self, start, target, dist@, parent@, p);
                    }
                }
            }
            let r: Vec<GridPos> = Vec::new();
            return r;
        }
        let rev = self.walk_back(start, target, &dist, &parent);
        let mut out: Vec<GridPos> = Vec::new();
        let mut j: usize = rev.len();
        while j > 0
            invariant
                j <= rev@.len(),
                out@.len() == rev@.len() - j,
                forall|k: int|
                    0 <= k < out@.len() ==> #[trigger] out@[k] == rev@[rev@.len() - 1 - k],
            decreases j,
        {
            j = j - 1;
            out.push(rev[j]);
        }
        proof {
            lemma_assemble_path(*self, start, target, dist@, parent@, rev@, out@);
        }
        out
    }
}

} // verus!
