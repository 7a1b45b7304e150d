use crate::block::BlockShape;
use crate::block_control::{collides_at, is_collision};
use crate::field::Field;
use vstd::prelude::*;

verus! {

/// The spawn column of the active piece's window anchor.
pub const SPAWN_X: usize = 5;

/// The spawn row of the active piece's window anchor.
pub const SPAWN_Y: usize = 0;

/// Anchor of the active piece's 4x4 shape window, in field coordinates
/// (column `x`, row `y` of the window's top-left cell).
#[derive(Clone, Copy, PartialEq, Eq, Structural, Debug)]
pub struct Position {
    pub x: usize,
    pub y: usize,
}

/// The fixed spawn coordinate.
pub open spec fn spec_init_pos() -> Position {
    Position { x: SPAWN_X, y: SPAWN_Y }
}

impl Position {
    /// The fixed spawn coordinate of a new piece.
    pub fn init() -> (p: Position)
        ensures
            p == spec_init_pos(),
    {
        Position { x: SPAWN_X, y: SPAWN_Y }
    }
}

/// The kick offset one cell up (saturating at the top edge).
pub open spec fn kick_up(p: Position) -> Position {
    Position { x: p.x, y: if p.y > 0 { (p.y - 1) as usize } else { p.y } }
}

/// The kick offset one cell to the right.
pub open spec fn kick_right(p: Position) -> Position {
    Position { x: (p.x + 1) as usize, y: p.y }
}

/// The kick offset one cell down.
pub open spec fn kick_down(p: Position) -> Position {
    Position { x: p.x, y: (p.y + 1) as usize }
}

/// The kick offset one cell to the left (saturating at the left edge).
pub open spec fn kick_left(p: Position) -> Position {
    Position { x: if p.x > 0 { (p.x - 1) as usize } else { p.x }, y: p.y }
}

/// Kick resolution: the first of the four one-cell offsets from `p` — in the
/// fixed priority order up, right, down, left — at which `b` does not collide
/// with `f`; `Err` when all four collide.
pub open spec fn spec_super_rotation(
    f: Seq<Seq<usize>>,
    p: Position,
    b: Seq<Seq<usize>>,
) -> Result<Position, ()> {
    if !collides_at(f, kick_up(p), b) {
        Ok(kick_up(p))
    } else if !collides_at(f, kick_right(p), b) {
        Ok(kick_right(p))
    } else if !collides_at(f, kick_down(p), b) {
        Ok(kick_down(p))
    } else if !collides_at(f, kick_left(p), b) {
        Ok(kick_left(p))
    } else {
        Err(())
    }
}

/// Try the four kick offsets in priority order and return the first
/// collision-free position, or `Err` when the rotation must be rejected.
pub fn super_rotation(field: &Field, pos: &Position, block: &BlockShape) -> (r: Result<
    Position,
    (),
>)
    requires
        pos.x <= usize::MAX - 4,
        pos.y <= usize::MAX - 4,
    ensures
        r == spec_super_rotation(field.deep_view(), *pos, block.deep_view()),
{
    let diff_pos: [Position; 4] = [
        Position { x: pos.x, y: if pos.y > 0 { pos.y - 1 } else { pos.y } },
        Position { x: pos.x + 1, y: pos.y },
        Position { x: pos.x, y: pos.y + 1 },
        Position { x: if pos.x > 0 { pos.x - 1 } else { pos.x }, y: pos.y },
    ];
    let ghost fv = field.deep_view();
    let ghost bv = block.deep_view();
    proof {
        assert(diff_pos@[0] == kick_up(*pos));
        assert(diff_pos@[1] == kick_right(*pos));
        assert(diff_pos@[2] == kick_down(*pos));
        assert(diff_pos@[3] == kick_left(*pos));
    }
    let mut i: usize = 0;
    while i < 4
        invariant
            i <= 4,
            pos.x <= usize::MAX - 4,
            pos.y <= usize::MAX - 4,
            fv == field.deep_view(),
            bv == block.deep_view(),
            diff_pos@[0] == kick_up(*pos),
            diff_pos@[1] == kick_right(*pos),
            diff_pos@[2] == kick_down(*pos),
            diff_pos@[3] == kick_left(*pos),
            forall|j: int| 0 <= j < i ==> collides_at(fv, diff_pos@[j], bv),
        decreases 4 - i,
    {
        let cand = diff_pos[i];
        if !is_collision(field, &cand, block) {
            return Ok(cand);
        }
        i = i + 1;
    }
    Err(())
}

} // verus!
