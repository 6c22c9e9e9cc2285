//! The path follower: a continuously-tracked point moving at a bounded,
//! clock-scaled pace along a queue of grid waypoints.
//!
//! Positions are held in thousandths of a grid cell, so a cell `(x, y)` has
//! its center at `(1000 x + 500, 1000 y + 500)`. Motion is axis-aligned:
//! vertical distance to the current target is closed before horizontal
//! motion begins, reflecting grid-corridor travel. The follower accepts a
//! replacement waypoint queue mid-flight (re-routing).

use vstd::prelude::*;

use crate::module::GridPos;

verus! {

/// Fixed-point sub-cell units per grid cell.
pub const CELL_SCALE: i32 = 1000;

/// Largest cell coordinate the follower accepts; keeps all fixed-point
/// arithmetic far away from `i32` overflow.
pub const MAX_CELL_COORD: i32 = 1000000;

/// A continuous position in thousandths of a grid cell.
#[derive(Clone, Copy, PartialEq, Eq, Structural, Debug)]
pub struct FixedPos {
    pub x: i32,
    pub y: i32,
}

/// Cells the follower can travel: non-negative and bounded.
pub open spec fn cell_ok(p: GridPos) -> bool {
    0 <= p.x <= MAX_CELL_COORD && 0 <= p.y <= MAX_CELL_COORD
}

/// The center of a grid cell in fixed-point units.
pub open spec fn center_of(p: GridPos) -> FixedPos {
    FixedPos { x: (p.x * CELL_SCALE + CELL_SCALE / 2) as i32, y: (p.y * CELL_SCALE + CELL_SCALE
        / 2) as i32 }
}

/// Fixed-point coordinates that stay inside the travelled box.
pub open spec fn fixed_ok(f: FixedPos) -> bool {
    0 <= f.x <= MAX_CELL_COORD * CELL_SCALE + CELL_SCALE / 2 && 0 <= f.y <= MAX_CELL_COORD
        * CELL_SCALE + CELL_SCALE / 2
}

/// One coordinate moved from `cur` toward `tgt` by at most `step`.
pub open spec fn move_coord(cur: int, tgt: int, step: int) -> int {
    if cur < tgt {
        if tgt - cur <= step {
            tgt
        } else {
            cur + step
        }
    } else if cur > tgt {
        if cur - tgt <= step {
            tgt
        } else {
            cur - step
        }
    } else {
        cur
    }
}

/// A position moved toward `tgt` by at most `step`, one axis at a time:
/// vertical motion completes before horizontal motion begins.
pub open spec fn moved_toward(cur: FixedPos, tgt: FixedPos, step: int) -> FixedPos {
    if cur.y != tgt.y {
        FixedPos { x: cur.x, y: move_coord(cur.y as int, tgt.y as int, step) as i32 }
    } else {
        FixedPos { x: move_coord(cur.x as int, tgt.x as int, step) as i32, y: cur.y }
    }
}

/// The mathematical state of a follower: its continuous position, the center
/// it is heading for, and the waypoints still queued after that.
#[verifier::ext_equal]
pub ghost struct FollowerModel {
    pub current: FixedPos,
    pub target: FixedPos,
    pub remaining: Seq<GridPos>,
}

impl FollowerModel {
    /// All coordinates inside the travelled box.
    pub open spec fn wf(self) -> bool {
        &&& fixed_ok(self.current)
        &&& fixed_ok(self.target)
        &&& forall|i: int| 0 <= i < self.remaining.len() ==> cell_ok(#[trigger] self.remaining[i])
    }

    /// The follower has consumed its whole queue and sits on its final
    /// waypoint: the next `advance` reports arrival.
    pub open spec fn arrived(self) -> bool {
        self.current == self.target && self.remaining.len() == 0
    }

    /// The state after one `advance` by at most `step`: on the target with
    /// waypoints left, the next waypoint becomes the target; short of the
    /// target, the position moves toward it; arrived, nothing changes.
    pub open spec fn advance_spec(self, step: int) -> FollowerModel {
        if self.current == self.target {
            if self.remaining.len() == 0 {
                self
            } else {
                FollowerModel {
                    current: self.current,
                    target: center_of(self.remaining[0]),
                    remaining: self.remaining.skip(1),
                }
            }
        } else {
            FollowerModel {
                current: moved_toward(self.current, self.target, step),
                target: self.target,
                remaining: self.remaining,
            }
        }
    }

    /// The state after re-routing to a fresh waypoint queue: the position
    /// stays, the first waypoint becomes the target.
    pub open spec fn redirect_spec(self, path: Seq<GridPos>) -> FollowerModel
        recommends
            path.len() >= 1,
    {
        FollowerModel {
            current: self.current,
            target: center_of(path[0]),
            remaining: path.skip(1),
        }
    }
}

/// A coordinate moved toward a target stays between the two.
pub proof fn lemma_move_coord_between(cur: int, tgt: int, step: int)
    requires
        step >= 0,
    ensures
        move_coord(cur, tgt, step) >= if cur <= tgt {
            cur
        } else {
            tgt
        },
        move_coord(cur, tgt, step) <= if cur <= tgt {
            tgt
        } else {
            cur
        },
{
}

/// An `advance` never moves the position when the per-tick budget is zero:
/// pausing the clock freezes every follower exactly where it stands.
pub proof fn lemma_zero_step_freezes(m: FollowerModel)
    ensures
        m.advance_spec(0).current == m.current,
{
}

/// Re-routing a parked follower to the single-waypoint path consisting of
/// its own cell leaves its position unchanged by the following `advance`.
pub proof fn lemma_redirect_idempotent(m: FollowerModel, cell: GridPos, step: int)
    requires
        m.current == center_of(cell),
    ensures
        m.redirect_spec(seq![cell]).advance_spec(step).current == m.current,
{
    let r = m.redirect_spec(seq![cell]);
    assert(r.current == r.target);
}

/// Tracks a continuous position moving toward a queue of integer waypoints,
/// each waypoint's target being its cell center.
#[derive(Clone, Debug)]
pub struct LigthPoint {
    current: FixedPos,
    target: FixedPos,
    remaining_path: Vec<GridPos>,
}

impl View for LigthPoint {
    type V = FollowerModel;

    closed spec fn view(&self) -> FollowerModel {
        FollowerModel {
            current: self.current,
            target: self.target,
            remaining: self.remaining_path@,
        }
    }
}

impl LigthPoint {
    /// A follower parked on the first waypoint of `path`, with the rest of
    /// `path` queued.
    pub fn new(path: Vec<GridPos>) -> (r: LigthPoint)
        requires
            path@.len() >= 1,
            forall|i: int| 0 <= i < path@.len() ==> cell_ok(#[trigger] path@[i]),
        ensures
            r@.wf(),
            r@.current == center_of(path@[0]),
            r@.target == center_of(path@[0]),
            r@.remaining =~= path@.skip(1),
    {
        let first = path[0];
        let center = FixedPos {
            x: first.x * CELL_SCALE + CELL_SCALE / 2,
            y: first.y * CELL_SCALE + CELL_SCALE / 2,
        };
        let mut remaining = path;
        remaining.remove(0);
        LigthPoint { current: center, target: center, remaining_path: remaining }
    }

    /// The continuously-tracked point, both while moving and while parked.
    pub fn current(&self) -> (r: FixedPos)
        ensures
            r == self@.current,
    {
        self.current
    }

    /// The grid cell the continuous position lies in.
    pub fn current_cell(&self) -> (r: GridPos)
        requires
            self@.wf(),
        ensures
            r.x == self@.current.x / CELL_SCALE,
            r.y == self@.current.y / CELL_SCALE,
    {
        GridPos { x: self.current.x / CELL_SCALE, y: self.current.y / CELL_SCALE }
    }

    /// The last waypoint of the queue: where the follower will finally stop.
    pub fn target(&self) -> (r: GridPos)
        requires
            self@.remaining.len() > 0,
        ensures
            r == self@.remaining.last(),
    {
        self.remaining_path[self.remaining_path.len() - 1]
    }

    /// Replace the remaining waypoint queue and retarget immediately from
    /// the current position: mid-flight re-routing.
    pub fn set_new_target(&mut self, path: Vec<GridPos>)
        requires
            old(self)@.wf(),
            path@.len() >= 1,
            forall|i: int| 0 <= i < path@.len() ==> cell_ok(#[trigger] path@[i]),
        ensures
            final(self)@ =~= old(self)@.redirect_spec(path@),
            final(self)@.wf(),
    {
        let first = path[0];
        let mut remaining = path;
        remaining.remove(0);
        self.target = FixedPos {
            x: first.x * CELL_SCALE + CELL_SCALE / 2,
            y: first.y * CELL_SCALE + CELL_SCALE / 2,
        };
        self.remaining_path = remaining;
    }

    /// One tick of motion with a budget of `max_step` fixed-point units.
    /// Returns the position to display, or `None` once the waypoint queue is
    /// exhausted and the final waypoint reached ("arrived").
    pub fn next(&mut self, max_step: u32) -> (r: Option<FixedPos>)
        requires
            old(self)@.wf(),
        ensures
            final(self)@ =~= old(self)@.advance_spec(max_step as int),
            final(self)@.wf(),
            r is None <==> old(self)@.arrived(),
            r is Some ==> r->0 == final(self)@.current,
            max_step == 0 ==> final(self)@.current == old(self)@.current,
    {
        if self.current == self.target {
            if self.remaining_path.len() == 0 {
                return None;
            }
            let next_cell = self.remaining_path[0];
            self.remaining_path.remove(0);
            self.target = FixedPos {
                x: next_cell.x * CELL_SCALE + CELL_SCALE / 2,
                y: next_cell.y * CELL_SCALE + CELL_SCALE / 2,
            };
            return Some(self.current);
        }
        let step: i32 = if max_step > i32::MAX as u32 {
            i32::MAX
        } else {
            max_step as i32
        };
        if self.current.y != self.target.y {
            self.current.y = Self::move_coord_exec(self.current.y, self.target.y, step);
        } else {
            self.current.x = Self::move_coord_exec(self.current.x, self.target.x, step);
        }
        proof {
            let m = old(self)@;
            assert(m.current != m.target);
            if max_step > i32::MAX {
                assert(move_coord(m.current.y as int, m.target.y as int, i32::MAX as int)
                    == move_coord(m.current.y as int, m.target.y as int, max_step as int));
                assert(move_coord(m.current.x as int, m.target.x as int, i32::MAX as int)
                    == move_coord(m.current.x as int, m.target.x as int, max_step as int));
            }
        }
        Some(self.current)
    }

    /// One coordinate moved toward its target by at most `step`.
    fn move_coord_exec(cur: i32, tgt: i32, step: i32) -> (r: i32)
        requires
            0 <= cur <= MAX_CELL_COORD * CELL_SCALE + CELL_SCALE / 2,
            0 <= tgt <= MAX_CELL_COORD * CELL_SCALE + CELL_SCALE / 2,
            step >= 0,
        ensures
            r == move_coord(cur as int, tgt as int, step as int),
            0 <= r <= MAX_CELL_COORD * CELL_SCALE + CELL_SCALE / 2,
    {
        if cur < tgt {
            if tgt - cur <= step {
                tgt
            } else {
                cur + step
            }
        } else if cur > tgt {
            if cur - tgt <= step {
                tgt
            } else {
                cur - step
            }
        } else {
            cur
        }
    }
}

} // verus!
