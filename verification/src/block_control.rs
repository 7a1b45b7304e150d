use crate::block::{shape_wf, BlockShape, NONE};
use crate::field::{blank_row, field_wf, is_border, no_full_interior_row, row_full, Field,
    FIELD_HEIGHT, FIELD_WIDTH};
use crate::game::{game_wf, score_table, spec_score, Game};
use crate::game_control::{spawn_block, spawn_shift};
use crate::position::{spec_init_pos, spec_super_rotation, super_rotation, Position};
use vstd::prelude::*;

verus! {

/// Whether shape cell `(y, x)` of `b`, placed with the window anchor at
/// `(px, py)`, maps inside the declared field bounds and overlaps an occupied
/// field cell. Shape cells that map outside the bounds never hit; the wall
/// border rows and columns are what stops a piece in practice.
pub open spec fn cell_hit(
    f: Seq<Seq<usize>>,
    px: int,
    py: int,
    b: Seq<Seq<usize>>,
    y: int,
    x: int,
) -> bool {
    &&& py + y < FIELD_HEIGHT
    &&& px + x < FIELD_WIDTH
    &&& b[y][x] != NONE
    &&& f[py + y][px + x] != NONE
}

/// A shape collides with the field iff some in-bounds occupied cell of the
/// shape overlaps an occupied field cell.
pub open spec fn spec_collision(f: Seq<Seq<usize>>, px: int, py: int, b: Seq<Seq<usize>>) -> bool {
    exists|y: int, x: int| 0 <= y < 4 && 0 <= x < 4 && #[trigger] cell_hit(f, px, py, b, y, x)
}

/// `spec_collision` at a `Position`.
pub open spec fn collides_at(f: Seq<Seq<usize>>, p: Position, b: Seq<Seq<usize>>) -> bool {
    spec_collision(f, p.x as int, p.y as int, b)
}

/// Collision test of the active piece against the field: true iff some
/// occupied cell of the shape's 4x4 window, mapped to field coordinates,
/// lands on an occupied field cell. Cells mapped outside the declared bounds
/// are skipped.
pub fn is_collision(field: &Field, pos: &Position, block: &BlockShape) -> (hit: bool)
    requires
        pos.x <= usize::MAX - 3,
        pos.y <= usize::MAX - 3,
    ensures
        hit == spec_collision(field.deep_view(), pos.x as int, pos.y as int, block.deep_view()),
{
    let ghost fv = field.deep_view();
    let ghost bv = block.deep_view();
    let mut y: usize = 0;
    while y < 4
        invariant
            y <= 4,
            pos.x <= usize::MAX - 3,
            pos.y <= usize::MAX - 3,
            fv == field.deep_view(),
            bv == block.deep_view(),
            forall|yy: int, xx: int|
                0 <= yy < y && 0 <= xx < 4 ==> !cell_hit(fv, pos.x as int, pos.y as int, bv, yy, xx),
        decreases 4 - y,
    {
        let mut x: usize = 0;
        while x < 4
            invariant
                y < 4,
                x <= 4,
                pos.x <= usize::MAX - 3,
                pos.y <= usize::MAX - 3,
                fv == field.deep_view(),
                bv == block.deep_view(),
                forall|yy: int, xx: int|
                    0 <= yy < y && 0 <= xx < 4 ==> !cell_hit(
                        fv,
                        pos.x as int,
                        pos.y as int,
                        bv,
                        yy,
                        xx,
                    ),
                forall|xx: int|
                    0 <= xx < x ==> !cell_hit(fv, pos.x as int, pos.y as int, bv, y as int, xx),
            decreases 4 - x,
        {
            if y + pos.y < FIELD_HEIGHT && x + pos.x < FIELD_WIDTH {
                if block[y][x] != NONE && field[y + pos.y][x + pos.x] != NONE {
                    proof {
                        assert(cell_hit(fv, pos.x as int, pos.y as int, bv, y as int, x as int));
                    }
                    return true;
                }
            }
            proof {
                assert(!cell_hit(fv, pos.x as int, pos.y as int, bv, y as int, x as int));
            }
            x = x + 1;
        }
        y = y + 1;
    }
    false
}

/// Cell `(fy, fx)` of the field after the shape `b` locks with its window
/// anchored at `(px, py)`: the shape cell mapped there when that cell is
/// occupied, the old field cell otherwise.
pub open spec fn fixed_cell(
    f: Seq<Seq<usize>>,
    px: int,
    py: int,
    b: Seq<Seq<usize>>,
    fy: int,
    fx: int,
) -> usize {
    if 0 <= fy - py < 4 && 0 <= fx - px < 4 && b[fy - py][fx - px] != NONE {
        b[fy - py][fx - px]
    } else {
        f[fy][fx]
    }
}

/// The field after the shape locks: every occupied shape cell is written at
/// `position + cell offset`; empty shape cells leave the field untouched.
pub open spec fn fixed_field(f: Seq<Seq<usize>>, px: int, py: int, b: Seq<Seq<usize>>) -> Seq<
    Seq<usize>,
> {
    Seq::new(
        f.len(),
        |fy: int| Seq::new(f[fy].len(), |fx: int| fixed_cell(f, px, py, b, fy, fx)),
    )
}

/// Lock the active piece: write its occupied cells into the field.
pub fn fix_block(game: &mut Game)
    requires
        old(game).pos.x + 4 <= FIELD_WIDTH,
        old(game).pos.y + 4 <= FIELD_HEIGHT,
    ensures
        final(game).field.deep_view() == fixed_field(
            old(game).field.deep_view(),
            old(game).pos.x as int,
            old(game).pos.y as int,
            old(game).block.deep_view(),
        ),
        *final(game) == (Game { field: final(game).field, ..*old(game) }),
{
    let ghost f0 = game.field.deep_view();
    let ghost bv = game.block.deep_view();
    let ghost px = game.pos.x as int;
    let ghost py = game.pos.y as int;
    let mut y: usize = 0;
    while y < 4
        invariant
            y <= 4,
            old(game).pos.x + 4 <= FIELD_WIDTH,
            old(game).pos.y + 4 <= FIELD_HEIGHT,
            f0 == old(game).field.deep_view(),
            bv == old(game).block.deep_view(),
            px == old(game).pos.x as int,
            py == old(game).pos.y as int,
            *game == (Game { field: game.field, ..*old(game) }),
            forall|fy: int, fx: int|
                0 <= fy < FIELD_HEIGHT && 0 <= fx < FIELD_WIDTH ==> #[trigger] game.field.deep_view()[fy][fx]
                    == (if 0 <= fy - py < y && 0 <= fx - px < 4 && bv[fy - py][fx - px] != NONE {
                    bv[fy - py][fx - px]
                } else {
                    f0[fy][fx]
                }),
        decreases 4 - y,
    {
        let mut x: usize = 0;
        while x < 4
            invariant
                y < 4,
                x <= 4,
                old(game).pos.x + 4 <= FIELD_WIDTH,
                old(game).pos.y + 4 <= FIELD_HEIGHT,
                f0 == old(game).field.deep_view(),
                bv == old(game).block.deep_view(),
                px == old(game).pos.x as int,
                py == old(game).pos.y as int,
                *game == (Game { field: game.field, ..*old(game) }),
                forall|fy: int, fx: int|
                    0 <= fy < FIELD_HEIGHT && 0 <= fx < FIELD_WIDTH ==> #[trigger] game.field.deep_view()[fy][fx]
                        == (if 0 <= fy - py < 4 && 0 <= fx - px < 4 && (fy - py < y || (fy - py == y
                        && fx - px < x)) && bv[fy - py][fx - px] != NONE {
                        bv[fy - py][fx - px]
                    } else {
                        f0[fy][fx]
                    }),
            decreases 4 - x,
        {
            let ghost pre = game.field.deep_view();
            if game.block[y][x] != NONE {
                game.field[y + game.pos.y][x + game.pos.x] = game.block[y][x];
                proof {
                    assert(game.field.deep_view()[py + y][px + x] == bv[y as int][x as int]);
                    assert(forall|fy: int, fx: int|
                        0 <= fy < FIELD_HEIGHT && 0 <= fx < FIELD_WIDTH && !(fy == py + y && fx
                            == px + x) ==> #[trigger] game.field.deep_view()[fy][fx]
                            == pre[fy][fx]);
                }
            }
            x = x + 1;
        }
        y = y + 1;
    }
    proof {
        assert(game.field.deep_view() =~~= fixed_field(f0, px, py, bv));
    }
}

/// The number of full rows among `rs`.
pub open spec fn count_full(rs: Seq<Seq<usize>>) -> nat
    decreases rs.len(),
{
    if rs.len() == 0 {
        0
    } else {
        count_full(rs.drop_last()) + (if row_full(rs.last()) {
            1nat
        } else {
            0nat
        })
    }
}

/// The rows of `rs` that are not full, in order.
pub open spec fn compact_rows(rs: Seq<Seq<usize>>) -> Seq<Seq<usize>>
    decreases rs.len(),
{
    if rs.len() == 0 {
        Seq::empty()
    } else if row_full(rs.last()) {
        compact_rows(rs.drop_last())
    } else {
        compact_rows(rs.drop_last()).push(rs.last())
    }
}

/// `n` copies of the empty interior row.
pub open spec fn blank_rows(n: nat) -> Seq<Seq<usize>> {
    Seq::new(n, |i: int| blank_row())
}

/// The interior rows of a field, between the top border row and the floor.
pub open spec fn interior_rows(f: Seq<Seq<usize>>) -> Seq<Seq<usize>> {
    f.subrange(1, FIELD_HEIGHT - 2)
}

/// The field after one line-clear pass: every full interior row is removed,
/// the surviving interior rows settle to the bottom in their old order, and
/// as many empty rows enter at the top; the border rows stay.
pub open spec fn erased_field(f: Seq<Seq<usize>>) -> Seq<Seq<usize>> {
    f.subrange(0, 1) + blank_rows(count_full(interior_rows(f))) + compact_rows(interior_rows(f))
        + f.subrange(FIELD_HEIGHT - 2, FIELD_HEIGHT as int)
}

/// Removing the full rows and counting them account for every row.
pub proof fn lemma_compact_len(rs: Seq<Seq<usize>>)
    ensures
        compact_rows(rs).len() + count_full(rs) == rs.len(),
        count_full(rs) <= rs.len(),
    decreases rs.len(),
{
    if rs.len() > 0 {
        lemma_compact_len(rs.drop_last());
    }
}

/// Whether interior row `y` of the field is entirely occupied.
fn row_is_full(field: &Field, y: usize) -> (full: bool)
    requires
        y < FIELD_HEIGHT,
    ensures
        full == row_full(field.deep_view()[y as int]),
{
    let mut x: usize = 2;
    while x < FIELD_WIDTH - 2
        invariant
            2 <= x <= FIELD_WIDTH - 2,
            y < FIELD_HEIGHT,
            forall|xx: int| 2 <= xx < x ==> #[trigger] field.deep_view()[y as int][xx] != NONE,
        decreases FIELD_WIDTH - x,
    {
        if field[y][x] == NONE {
            assert(field.deep_view()[y as int][x as int] == NONE);
            return false;
        }
        x = x + 1;
    }
    true
}

/// One line-clear pass over the interior rows, top to bottom: each full row
/// is removed, the rows above it shift down one, and an empty row enters at
/// the top. Returns how many rows were cleared.
pub fn erase_line(field: &mut Field) -> (count: usize)
    ensures
        count == count_full(interior_rows(old(field).deep_view())),
        final(field).deep_view() == erased_field(old(field).deep_view()),
{
    let ghost f0 = field.deep_view();
    let mut count: usize = 0;
    let mut y: usize = 1;
    while y < FIELD_HEIGHT - 2
        invariant
            1 <= y <= FIELD_HEIGHT - 2,
            f0 == old(field).deep_view(),
            count == count_full(f0.subrange(1, y as int)),
            field.deep_view() =~~= f0.subrange(0, 1) + blank_rows(count as nat) + compact_rows(
                f0.subrange(1, y as int),
            ) + f0.subrange(y as int, FIELD_HEIGHT as int),
        decreases FIELD_HEIGHT - y,
    {
        proof {
            lemma_compact_len(f0.subrange(1, y as int));
            assert(field.deep_view()[y as int] == f0[y as int]);
            assert(f0.subrange(1, y as int + 1).drop_last() =~= f0.subrange(1, y as int));
            assert(f0.subrange(1, y as int + 1).last() == f0[y as int]);
        }
        let full = row_is_full(field, y);
        if full {
            count = count + 1;
            let ghost g0 = field.deep_view();
            let mut y2: usize = y;
            while y2 >= 2
                invariant
                    1 <= y2 <= y,
                    y < FIELD_HEIGHT - 2,
                    forall|r: int| y2 < r <= y ==> #[trigger] field.deep_view()[r] == g0[r - 1],
                    forall|r: int| 0 <= r <= y2 ==> #[trigger] field.deep_view()[r] == g0[r],
                    forall|r: int|
                        y < r < FIELD_HEIGHT ==> #[trigger] field.deep_view()[r] == g0[r],
                decreases y2,
            {
                let ghost pre = field.deep_view();
                let row = field[y2 - 1];
                field[y2] = row;
                proof {
                    assert(row@ == pre[y2 - 1]);
                    assert(field.deep_view()[y2 as int] == row@);
                    assert(forall|r: int|
                        0 <= r < FIELD_HEIGHT && r != y2 ==> #[trigger] field.deep_view()[r]
                            == pre[r]);
                }
                y2 = y2 - 1;
            }
            let ghost pre_blank = field.deep_view();
            field[1] = crate::field::interior_row();
            proof {
                assert(forall|r: int|
                    0 <= r < FIELD_HEIGHT && r != 1 ==> #[trigger] field.deep_view()[r]
                        == pre_blank[r]);
            }
            proof {
                let c0 = count - 1;
                let target = f0.subrange(0, 1) + blank_rows(count as nat) + compact_rows(
                    f0.subrange(1, y as int + 1),
                ) + f0.subrange(y as int + 1, FIELD_HEIGHT as int);
                let parts = f0.subrange(0, 1) + blank_rows(c0 as nat) + compact_rows(
                    f0.subrange(1, y as int),
                ) + f0.subrange(y as int, FIELD_HEIGHT as int);
                lemma_compact_len(f0.subrange(1, y as int + 1));
                assert(compact_rows(f0.subrange(1, y as int + 1)) == compact_rows(
                    f0.subrange(1, y as int),
                ));
                assert(field.deep_view()[1] == blank_row());
                assert forall|r: int| 0 <= r < FIELD_HEIGHT implies field.deep_view()[r]
                    == target[r] by {
                    if r == 0 {
                        assert(field.deep_view()[0] == g0[0]);
                        assert(g0[0] == parts[0]);
                    } else if r == 1 {
                        assert(target[1] == blank_rows(count as nat)[0]);
                    } else if r <= y {
                        assert(field.deep_view()[r] == g0[r - 1]);
                        assert(g0[r - 1] == parts[r - 1]);
                        if r - 1 <= c0 {
                            assert(parts[r - 1] == blank_rows(c0 as nat)[r - 2]);
                            assert(target[r] == blank_rows(count as nat)[r - 1]);
                        } else {
                            assert(parts[r - 1] == compact_rows(f0.subrange(1, y as int))[r - 2
                                - c0]);
                            assert(target[r] == compact_rows(f0.subrange(1, y as int + 1))[r - 1
                                - count]);
                        }
                    } else {
                        assert(field.deep_view()[r] == g0[r]);
                        assert(g0[r] == parts[r]);
                        assert(parts[r] == f0.subrange(y as int, FIELD_HEIGHT as int)[r - y]);
                        assert(target[r] == f0.subrange(y as int + 1, FIELD_HEIGHT as int)[r - y
                            - 1]);
                    }
                }
                assert(field.deep_view() =~= target);
            }
        } else {
            proof {
                assert(field.deep_view() =~~= f0.subrange(0, 1) + blank_rows(count as nat)
                    + compact_rows(f0.subrange(1, y as int + 1)) + f0.subrange(
                    y as int + 1,
                    FIELD_HEIGHT as int,
                ));
            }
        }
        y = y + 1;
    }
    proof {
        assert(f0.subrange(1, FIELD_HEIGHT - 2) == interior_rows(f0));
        assert(field.deep_view() =~~= erased_field(f0));
    }
    count
}

/// Counting full rows distributes over concatenation.
pub proof fn lemma_count_full_concat(s1: Seq<Seq<usize>>, s2: Seq<Seq<usize>>)
    ensures
        count_full(s1 + s2) == count_full(s1) + count_full(s2),
    decreases s2.len(),
{
    if s2.len() == 0 {
        assert(s1 + s2 =~= s1);
    } else {
        assert((s1 + s2).drop_last() =~= s1 + s2.drop_last());
        assert((s1 + s2).last() == s2.last());
        lemma_count_full_concat(s1, s2.drop_last());
    }
}

/// A stretch of rows none of which is full contributes no clears.
pub proof fn lemma_count_full_none(rs: Seq<Seq<usize>>)
    requires
        forall|i: int| 0 <= i < rs.len() ==> !row_full(#[trigger] rs[i]),
    ensures
        count_full(rs) == 0,
    decreases rs.len(),
{
    if rs.len() > 0 {
        lemma_count_full_none(rs.drop_last());
    }
}

/// Every surviving row comes from the original rows, and none of them is
/// full.
pub proof fn lemma_compact_rows_prop(rs: Seq<Seq<usize>>)
    ensures
        forall|i: int|
            0 <= i < compact_rows(rs).len() ==> rs.contains(#[trigger] compact_rows(rs)[i])
                && !row_full(compact_rows(rs)[i]),
    decreases rs.len(),
{
    if rs.len() > 0 {
        lemma_compact_rows_prop(rs.drop_last());
        assert forall|x: Seq<usize>| rs.drop_last().contains(x) implies rs.contains(x) by {
            let j = choose|j: int| 0 <= j < rs.drop_last().len() && rs.drop_last()[j] == x;
            assert(rs[j] == x);
        }
        assert(rs.contains(rs.last())) by {
            assert(rs[rs.len() - 1] == rs.last());
        }
        let c = compact_rows(rs);
        let cd = compact_rows(rs.drop_last());
        assert forall|i: int| 0 <= i < c.len() implies rs.contains(#[trigger] c[i]) && !row_full(
            c[i],
        ) by {
            if row_full(rs.last()) {
                assert(c == cd);
                assert(rs.drop_last().contains(cd[i]));
            } else {
                assert(c == cd.push(rs.last()));
                if i < c.len() - 1 {
                    assert(c[i] == cd[i]);
                    assert(rs.drop_last().contains(cd[i]));
                } else {
                    assert(c[i] == rs.last());
                }
            }
        }
    }
}

/// A line-clear pass keeps the field well-formed and leaves no full interior
/// row behind.
pub proof fn lemma_erased_field_wf(f: Seq<Seq<usize>>)
    requires
        field_wf(f),
    ensures
        field_wf(erased_field(f)),
        no_full_interior_row(erased_field(f)),
{
    let irs = interior_rows(f);
    let k = count_full(irs) as int;
    let e = erased_field(f);
    lemma_compact_len(irs);
    lemma_compact_rows_prop(irs);
    assert(e.len() == FIELD_HEIGHT);
    assert forall|y: int| 1 <= y < FIELD_HEIGHT - 2 implies (#[trigger] e[y]).len() == FIELD_WIDTH
        && (forall|x: int| 0 <= x < FIELD_WIDTH && is_border(y, x) ==> #[trigger] e[y][x] != NONE)
        && !row_full(e[y]) by {
        if y < 1 + k {
            assert(e[y] == blank_row());
            assert(e[y][2] == NONE);
        } else {
            assert(e[y] == compact_rows(irs)[y - 1 - k]);
            let j = choose|j: int| 0 <= j < irs.len() && irs[j] == e[y];
            assert(irs[j] == f[j + 1]);
        }
    }
    assert(e[0] == f[0]);
    assert(e[FIELD_HEIGHT - 2] == f[FIELD_HEIGHT - 2]);
    assert(e[FIELD_HEIGHT - 1] == f[FIELD_HEIGHT - 1]);
}

/// A non-colliding anchor at most one cell beyond the in-window range must
/// lie in the in-window range: a central occupied cell of the shape would
/// otherwise sit on a wall border cell.
pub proof fn lemma_commit_bounds(f: Seq<Seq<usize>>, p: Position, b: Seq<Seq<usize>>)
    requires
        field_wf(f),
        shape_wf(b),
        p.x <= FIELD_WIDTH - 3,
        p.y <= FIELD_HEIGHT - 3,
        !collides_at(f, p, b),
    ensures
        p.x <= FIELD_WIDTH - 4,
        p.y <= FIELD_HEIGHT - 4,
{
    let (cy, cx) = choose|cy: int, cx: int| 1 <= cy <= 2 && 1 <= cx <= 2 && b[cy][cx] != NONE;
    if p.y > FIELD_HEIGHT - 4 {
        assert(is_border(p.y + cy, p.x + cx));
        assert(f[p.y + cy][p.x + cx] != NONE);
        assert(cell_hit(f, p.x as int, p.y as int, b, cy, cx));
        assert(false);
    }
    if p.x > FIELD_WIDTH - 4 {
        assert(is_border(p.y + cy, p.x + cx));
        assert(f[p.y + cy][p.x + cx] != NONE);
        assert(cell_hit(f, p.x as int, p.y as int, b, cy, cx));
        assert(false);
    }
}

/// Move the active piece to `new_pos` if the piece does not collide there;
/// on collision the request is a silent no-op.
pub fn move_block(game: &mut Game, new_pos: Position)
    requires
        game_wf(*old(game)),
        new_pos.x <= FIELD_WIDTH - 3,
        new_pos.y <= FIELD_HEIGHT - 3,
    ensures
        game_wf(*final(game)),
        !collides_at(old(game).field.deep_view(), new_pos, old(game).block.deep_view())
            ==> *final(game) == (Game { pos: new_pos, ..*old(game) }),
        collides_at(old(game).field.deep_view(), new_pos, old(game).block.deep_view())
            ==> *final(game) == *old(game),
{
    if !is_collision(&game.field, &new_pos, &game.block) {
        proof {
            lemma_commit_bounds(game.field.deep_view(), new_pos, game.block.deep_view());
        }
        game.pos = new_pos;
    }
}

/// The shape turned 90 degrees clockwise.
pub open spec fn rot_cw(b: Seq<Seq<usize>>) -> Seq<Seq<usize>> {
    Seq::new(4, |y: int| Seq::new(4, |x: int| b[3 - x][y]))
}

/// The shape turned 90 degrees counter-clockwise.
pub open spec fn rot_ccw(b: Seq<Seq<usize>>) -> Seq<Seq<usize>> {
    Seq::new(4, |y: int| Seq::new(4, |x: int| b[x][3 - y]))
}

/// Rotation keeps a central occupied cell, so it preserves well-formedness.
pub proof fn lemma_rot_cw_wf(b: Seq<Seq<usize>>)
    requires
        shape_wf(b),
    ensures
        shape_wf(rot_cw(b)),
{
    let (cy, cx) = choose|cy: int, cx: int| 1 <= cy <= 2 && 1 <= cx <= 2 && b[cy][cx] != NONE;
    assert(rot_cw(b)[cx][3 - cy] != NONE);
}

/// Rotation keeps a central occupied cell, so it preserves well-formedness.
pub proof fn lemma_rot_ccw_wf(b: Seq<Seq<usize>>)
    requires
        shape_wf(b),
    ensures
        shape_wf(rot_ccw(b)),
{
    let (cy, cx) = choose|cy: int, cx: int| 1 <= cy <= 2 && 1 <= cx <= 2 && b[cy][cx] != NONE;
    assert(rot_ccw(b)[3 - cx][cy] != NONE);
}

/// Rotating a 4x4 shape clockwise four times returns it to its original
/// value: the rotation generates a cyclic group of order four.
pub proof fn lemma_rotate_cw_four(b: Seq<Seq<usize>>)
    requires
        b.len() == 4,
        forall|y: int| 0 <= y < 4 ==> (#[trigger] b[y]).len() == 4,
    ensures
        rot_cw(rot_cw(rot_cw(rot_cw(b)))) == b,
{
    assert(rot_cw(rot_cw(rot_cw(rot_cw(b)))) =~~= b);
}

/// Rotating a 4x4 shape counter-clockwise four times returns it to its
/// original value.
pub proof fn lemma_rotate_ccw_four(b: Seq<Seq<usize>>)
    requires
        b.len() == 4,
        forall|y: int| 0 <= y < 4 ==> (#[trigger] b[y]).len() == 4,
    ensures
        rot_ccw(rot_ccw(rot_ccw(rot_ccw(b)))) == b,
{
    assert(rot_ccw(rot_ccw(rot_ccw(rot_ccw(b)))) =~~= b);
}

/// Build the clockwise rotation of a shape.
fn rotated_cw(block: &BlockShape) -> (s: BlockShape)
    ensures
        s.deep_view() == rot_cw(block.deep_view()),
{
    let ghost bv = block.deep_view();
    let mut ns: BlockShape = [[NONE; 4]; 4];
    let mut y: usize = 0;
    while y < 4
        invariant
            y <= 4,
            bv == block.deep_view(),
            forall|yy: int, xx: int|
                0 <= yy < y && 0 <= xx < 4 ==> #[trigger] ns.deep_view()[yy][xx] == bv[3 - xx][yy],
        decreases 4 - y,
    {
        let mut x: usize = 0;
        while x < 4
            invariant
                y < 4,
                x <= 4,
                bv == block.deep_view(),
                forall|yy: int, xx: int|
                    0 <= yy < y && 0 <= xx < 4 ==> #[trigger] ns.deep_view()[yy][xx] == bv[3
                        - xx][yy],
                forall|xx: int|
                    0 <= xx < x ==> #[trigger] ns.deep_view()[y as int][xx] == bv[3 - xx][y as int],
            decreases 4 - x,
        {
            let ghost pre = ns.deep_view();
            ns[y][x] = block[4 - 1 - x][y];
            proof {
                assert(ns.deep_view()[y as int][x as int] == bv[3 - x][y as int]);
                assert(forall|yy: int, xx: int|
                    0 <= yy < 4 && 0 <= xx < 4 && !(yy == y && xx == x)
                        ==> #[trigger] ns.deep_view()[yy][xx] == pre[yy][xx]);
            }
            x = x + 1;
        }
        y = y + 1;
    }
    proof {
        assert(ns.deep_view() =~~= rot_cw(bv));
    }
    ns
}

/// Build the counter-clockwise rotation of a shape.
fn rotated_ccw(block: &BlockShape) -> (s: BlockShape)
    ensures
        s.deep_view() == rot_ccw(block.deep_view()),
{
    let ghost bv = block.deep_view();
    let mut ns: BlockShape = [[NONE; 4]; 4];
    let mut y: usize = 0;
    while y < 4
        invariant
            y <= 4,
            bv == block.deep_view(),
            forall|r: int, c: int|
                0 <= r < 4 && 0 <= c < y ==> #[trigger] ns.deep_view()[r][c] == bv[c][3 - r],
        decreases 4 - y,
    {
        let mut x: usize = 0;
        while x < 4
            invariant
                y < 4,
                x <= 4,
                bv == block.deep_view(),
                forall|r: int, c: int|
                    0 <= r < 4 && 0 <= c < y ==> #[trigger] ns.deep_view()[r][c] == bv[c][3 - r],
                forall|r: int|
                    3 - x < r < 4 ==> #[trigger] ns.deep_view()[r][y as int] == bv[y as int][3
                        - r],
            decreases 4 - x,
        {
            let ghost pre = ns.deep_view();
            ns[4 - 1 - x][y] = block[y][x];
            proof {
                assert(ns.deep_view()[3 - x][y as int] == bv[y as int][x as int]);
                assert(forall|yy: int, xx: int|
                    0 <= yy < 4 && 0 <= xx < 4 && !(yy == 3 - x && xx == y)
                        ==> #[trigger] ns.deep_view()[yy][xx] == pre[yy][xx]);
            }
            x = x + 1;
        }
        y = y + 1;
    }
    proof {
        assert(ns.deep_view() =~~= rot_ccw(bv));
    }
    ns
}

/// What a rotation request does: when the turned shape fits at the current
/// anchor it replaces the active shape; otherwise the first collision-free
/// kick offset is taken together with the turned shape; when no kick fits,
/// the rotation is rejected and the state is unchanged.
pub open spec fn rotate_outcome(pre: Game, post: Game, nb: Seq<Seq<usize>>) -> bool {
    let f = pre.field.deep_view();
    if !collides_at(f, pre.pos, nb) {
        &&& post == (Game { block: post.block, ..pre })
        &&& post.block.deep_view() == nb
    } else {
        match spec_super_rotation(f, pre.pos, nb) {
            Ok(p) => {
                &&& post == (Game { pos: p, block: post.block, ..pre })
                &&& post.block.deep_view() == nb
            },
            Err(()) => post == pre,
        }
    }
}

/// Rotate the active piece 90 degrees clockwise, with kick fallback.
pub fn rotate_right(game: &mut Game)
    requires
        game_wf(*old(game)),
    ensures
        game_wf(*final(game)),
        rotate_outcome(*old(game), *final(game), rot_cw(old(game).block.deep_view())),
{
    let new_shape = rotated_cw(&game.block);
    proof {
        lemma_rot_cw_wf(game.block.deep_view());
    }
    rotate_commit(game, new_shape);
}

/// Rotate the active piece 90 degrees counter-clockwise, with kick fallback.
pub fn rotate_left(game: &mut Game)
    requires
        game_wf(*old(game)),
    ensures
        game_wf(*final(game)),
        rotate_outcome(*old(game), *final(game), rot_ccw(old(game).block.deep_view())),
{
    let new_shape = rotated_ccw(&game.block);
    proof {
        lemma_rot_ccw_wf(game.block.deep_view());
    }
    rotate_commit(game, new_shape);
}

/// Common commit step of both rotations: place the turned shape directly or
/// through the first fitting kick offset, else leave the state unchanged.
fn rotate_commit(game: &mut Game, new_shape: BlockShape)
    requires
        game_wf(*old(game)),
        shape_wf(new_shape.deep_view()),
    ensures
        game_wf(*final(game)),
        rotate_outcome(*old(game), *final(game), new_shape.deep_view()),
{
    if !is_collision(&game.field, &game.pos, &new_shape) {
        game.block = new_shape;
    } else {
        match super_rotation(&game.field, &game.pos, &new_shape) {
            Ok(new_pos) => {
                proof {
                    lemma_commit_bounds(game.field.deep_view(), new_pos, new_shape.deep_view());
                }
                game.pos = new_pos;
                game.block = new_shape;
            },
            Err(_) => {},
        }
    }
}

/// The resting anchor reached from `pos` by falling straight down: the last
/// row the shape reaches without colliding, one cell at a time.
pub fn ghost_pos(field: &Field, pos: &Position, block: &BlockShape) -> (g: Position)
    requires
        field_wf(field.deep_view()),
        shape_wf(block.deep_view()),
        pos.x <= FIELD_WIDTH - 3,
        pos.y <= FIELD_HEIGHT - 4,
    ensures
        g.x == pos.x,
        pos.y <= g.y <= FIELD_HEIGHT - 4,
        collides_at(
            field.deep_view(),
            Position { x: g.x, y: (g.y + 1) as usize },
            block.deep_view(),
        ),
        forall|yy: int|
            pos.y < yy <= g.y ==> !spec_collision(
                field.deep_view(),
                pos.x as int,
                yy,
                block.deep_view(),
            ),
{
    let ghost fv = field.deep_view();
    let ghost bv = block.deep_view();
    let mut gy: usize = pos.y;
    loop
        invariant
            pos.y <= gy <= FIELD_HEIGHT - 4,
            pos.x <= FIELD_WIDTH - 3,
            fv == field.deep_view(),
            bv == block.deep_view(),
            field_wf(fv),
            shape_wf(bv),
            forall|yy: int| pos.y < yy <= gy ==> !spec_collision(fv, pos.x as int, yy, bv),
        ensures
            pos.y <= gy <= FIELD_HEIGHT - 4,
            collides_at(fv, Position { x: pos.x, y: (gy + 1) as usize }, bv),
            forall|yy: int| pos.y < yy <= gy ==> !spec_collision(fv, pos.x as int, yy, bv),
        decreases FIELD_HEIGHT - gy,
    {
        let cand = Position { x: pos.x, y: gy + 1 };
        if is_collision(field, &cand, block) {
            break;
        }
        proof {
            lemma_commit_bounds(fv, cand, bv);
        }
        gy = gy + 1;
    }
    Position { x: pos.x, y: gy }
}

/// Everything a completed drop does, from lock to respawn: the piece's
/// occupied cells are written into the field, the full rows this produces
/// (`k` of them) are cleared, the score grows by the table entry for `k` and
/// the line counter by `k`, the next piece spawns from the queue, and on a
/// successful spawn the hold flag is reset. The result is `Ok` exactly when
/// the spawned shape does not collide; on failure the terminal flag rises
/// and the hold flag keeps its value.
pub open spec fn landing_outcome(pre: Game, post: Game, r: Result<(), ()>) -> bool {
    let fixed = fixed_field(
        pre.field.deep_view(),
        pre.pos.x as int,
        pre.pos.y as int,
        pre.block.deep_view(),
    );
    let k = count_full(interior_rows(fixed));
    &&& post.field.deep_view() == erased_field(fixed)
    &&& post.score == pre.score + spec_score(k)
    &&& post.line == pre.line + k
    &&& spawn_shift(pre, post)
    &&& (r is Ok ==> post.holded == false)
    &&& (r is Err ==> post.holded == pre.holded)
    &&& post.hold == pre.hold
    &&& (r is Ok <==> !collides_at(erased_field(fixed), spec_init_pos(), post.block.deep_view()))
    &&& post.game_over == (pre.game_over || r is Err)
}

/// Lock the landed piece, clear and score any full rows, and spawn the next
/// piece; `Err` when the spawn collides immediately.
pub fn landing(game: &mut Game) -> (r: Result<(), ()>)
    requires
        game_wf(*old(game)),
        old(game).score + 100 <= usize::MAX,
        old(game).line + 4 <= usize::MAX,
    ensures
        game_wf(*final(game)),
        landing_outcome(*old(game), *final(game), r),
{
    let ghost pre = *old(game);
    let ghost f0 = pre.field.deep_view();
    let ghost px = pre.pos.x as int;
    let ghost py = pre.pos.y as int;
    let ghost bv = pre.block.deep_view();
    fix_block(game);
    let ghost fixed = game.field.deep_view();
    proof {
        assert(field_wf(fixed));
        let irs = interior_rows(fixed);
        assert forall|i: int| 0 <= i < irs.len() && row_full(#[trigger] irs[i]) implies py - 1 <= i
            < py + 3 by {
            if !(py - 1 <= i < py + 3) {
                assert forall|x: int| 2 <= x < FIELD_WIDTH - 2 implies #[trigger] f0[i + 1][x]
                    != NONE by {
                    assert(irs[i][x] == f0[i + 1][x]);
                    assert(irs[i][x] != NONE);
                }
                assert(row_full(f0[i + 1]));
                assert(false);
            }
        }
        let lo: int = if py - 1 > 0 {
            py - 1
        } else {
            0
        };
        let hi: int = if py + 3 < FIELD_HEIGHT - 3 {
            py + 3
        } else {
            FIELD_HEIGHT - 3
        };
        let s1 = irs.subrange(0, lo);
        let s2 = irs.subrange(lo, hi);
        let s3 = irs.subrange(hi, irs.len() as int);
        assert(irs =~= (s1 + s2) + s3);
        lemma_count_full_concat(s1 + s2, s3);
        lemma_count_full_concat(s1, s2);
        lemma_count_full_none(s1);
        lemma_count_full_none(s3);
        lemma_compact_len(s2);
        assert(count_full(irs) <= 4);
    }
    let line = erase_line(&mut game.field);
    proof {
        lemma_erased_field_wf(fixed);
    }
    let add = score_table(line);
    game.score = game.score + add;
    game.line = game.line + line;
    match spawn_block(game) {
        Ok(_) => {
            game.holded = false;
            Ok(())
        },
        Err(_) => Err(()),
    }
}

/// What a hard drop does: only the anchor changes, falling to the last row
/// reachable without a collision; the row below the resting place collides.
pub open spec fn drop_outcome(pre: Game, post: Game) -> bool {
    &&& post == (Game { pos: post.pos, ..pre })
    &&& post.pos.x == pre.pos.x
    &&& pre.pos.y <= post.pos.y
    &&& collides_at(
        pre.field.deep_view(),
        Position { x: post.pos.x, y: (post.pos.y + 1) as usize },
        pre.block.deep_view(),
    )
    &&& forall|yy: int|
        pre.pos.y < yy <= post.pos.y ==> !spec_collision(
            pre.field.deep_view(),
            pre.pos.x as int,
            yy,
            pre.block.deep_view(),
        )
}

/// Scoring of one lock: when locking the piece fills exactly `k` interior
/// rows, the score grows by the table entry for `k` and the cleared-lines
/// counter by `k`. (`count_full` of the locked field's interior rows is the
/// number of full rows the lock produced: the field held none before.)
pub proof fn lemma_lock_scoring(pre: Game, post: Game, r: Result<(), ()>, k: nat)
    requires
        landing_outcome(pre, post, r),
        count_full(
            interior_rows(
                fixed_field(
                    pre.field.deep_view(),
                    pre.pos.x as int,
                    pre.pos.y as int,
                    pre.block.deep_view(),
                ),
            ),
        ) == k,
    ensures
        post.score == pre.score + spec_score(k),
        post.line == pre.line + k,
{
}

/// After every successful lock and respawn, the hold flag is cleared and
/// the next queue is restored to its configured length.
pub proof fn lemma_lock_respawn_resets(pre: Game, post: Game)
    requires
        game_wf(pre),
        landing_outcome(pre, post, Ok(())),
    ensures
        !post.holded,
        post.next@.len() == crate::game::NEXT_QUEUE_LENGTH,
{
}

/// Drop the active piece straight down to its resting position.
pub fn hard_drop(game: &mut Game)
    requires
        game_wf(*old(game)),
    ensures
        game_wf(*final(game)),
        drop_outcome(*old(game), *final(game)),
{
    let g = ghost_pos(&game.field, &game.pos, &game.block);
    game.pos = g;
}

} // verus!
