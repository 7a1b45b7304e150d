use crate::block::{BlockColor, NONE, WALL};
use vstd::prelude::*;

verus! {

/// Width of the playfield in cells: 11 interior columns, two wall columns on
/// each side (the outer one is a hidden sentinel).
pub const FIELD_WIDTH: usize = 15;

/// Height of the playfield in cells: a wall row on top, 19 interior rows,
/// the floor row and a hidden sentinel row at the bottom.
pub const FIELD_HEIGHT: usize = 22;

/// The playfield grid. Interior cells are mutated only when a piece locks or
/// a line is cleared; border cells stay occupied forever.
pub type Field = [[BlockColor; FIELD_WIDTH]; FIELD_HEIGHT];

/// Whether `(y, x)` is a border coordinate: the top row, the two bottom
/// rows, or the two outermost columns on either side.
pub open spec fn is_border(y: int, x: int) -> bool {
    y == 0 || y >= FIELD_HEIGHT - 2 || x <= 1 || x >= FIELD_WIDTH - 2
}

/// Whether `(y, x)` is an interior coordinate of the playfield.
pub open spec fn is_interior(y: int, x: int) -> bool {
    1 <= y < FIELD_HEIGHT - 2 && 2 <= x < FIELD_WIDTH - 2
}

/// A well-formed field has the declared dimensions and every border cell
/// occupied. Interior cells may hold anything; they start empty.
pub open spec fn field_wf(f: Seq<Seq<usize>>) -> bool {
    &&& f.len() == FIELD_HEIGHT
    &&& (forall|y: int| 0 <= y < FIELD_HEIGHT ==> (#[trigger] f[y]).len() == FIELD_WIDTH)
    &&& (forall|y: int, x: int|
        0 <= y < FIELD_HEIGHT && 0 <= x < FIELD_WIDTH && is_border(y, x) ==> #[trigger] f[y][x]
            != NONE)
}

/// A row is full when every interior column of it is occupied.
pub open spec fn row_full(r: Seq<usize>) -> bool {
    forall|x: int| 2 <= x < FIELD_WIDTH - 2 ==> #[trigger] r[x] != NONE
}

/// No interior row of the field is full. This holds between locks: a lock
/// may fill rows, and the line-clear pass that follows removes every full
/// row it produced.
pub open spec fn no_full_interior_row(f: Seq<Seq<usize>>) -> bool {
    forall|y: int| 1 <= y < FIELD_HEIGHT - 2 ==> !row_full(#[trigger] f[y])
}

/// One row of the starting field: walls at the border columns, empty inside.
pub open spec fn blank_row() -> Seq<usize> {
    Seq::new(
        FIELD_WIDTH as nat,
        |x: int| if x <= 1 || x >= FIELD_WIDTH - 2 { WALL } else { NONE },
    )
}

/// The starting field: walls on every border cell, empty interior.
pub open spec fn spec_template() -> Seq<Seq<usize>> {
    Seq::new(
        FIELD_HEIGHT as nat,
        |y: int|
            Seq::new(
                FIELD_WIDTH as nat,
                |x: int| if is_border(y, x) { WALL } else { NONE },
            ),
    )
}

/// The starting field is well-formed.
pub proof fn lemma_template_wf()
    ensures
        field_wf(spec_template()),
{
}

/// Build an empty interior row of the starting field.
pub(crate) fn interior_row() -> (r: [BlockColor; FIELD_WIDTH])
    ensures
        r@ == blank_row(),
{
    let mut r: [BlockColor; FIELD_WIDTH] = [NONE; FIELD_WIDTH];
    r[0] = WALL;
    r[1] = WALL;
    r[FIELD_WIDTH - 2] = WALL;
    r[FIELD_WIDTH - 1] = WALL;
    proof {
        assert(r@ =~= blank_row());
    }
    r
}

/// Build the starting field.
pub fn template_field() -> (f: Field)
    ensures
        f.deep_view() == spec_template(),
        field_wf(f.deep_view()),
{
    let mut f: Field = [[WALL; FIELD_WIDTH]; FIELD_HEIGHT];
    let mut y: usize = 1;
    while y < FIELD_HEIGHT - 2
        invariant
            1 <= y <= FIELD_HEIGHT - 2,
            forall|yy: int| 1 <= yy < y ==> f@[yy]@ == blank_row(),
            forall|yy: int|
                0 <= yy < FIELD_HEIGHT && !(1 <= yy < y) ==> f@[yy]@ == Seq::new(
                    FIELD_WIDTH as nat,
                    |x: int| WALL,
                ),
        decreases FIELD_HEIGHT - y,
    {
        f[y] = interior_row();
        y = y + 1;
    }
    proof {
        assert forall|yy: int, xx: int|
            0 <= yy < FIELD_HEIGHT && 0 <= xx < FIELD_WIDTH implies f.deep_view()[yy][xx]
            == spec_template()[yy][xx] by {
            assert(f.deep_view()[yy][xx] == f@[yy]@[xx]);
        }
        assert(f.deep_view() =~~= spec_template());
    }
    f
}

} // verus!
