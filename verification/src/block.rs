use crate::rng::rng_below;
use vstd::multiset::Multiset;
use vstd::prelude::*;

verus! {

/// A cell value: empty, wall, ghost preview, or one of the seven piece colors.
pub type BlockColor = usize;

/// An empty cell.
pub const NONE: BlockColor = 0;
/// A border cell of the playfield.
pub const WALL: BlockColor = 1;
/// The ghost (landing preview) marker, used only when rendering.
pub const GHOST: BlockColor = 2;
/// Color of the I piece.
pub const COLOR_I: BlockColor = 3;
/// Color of the O piece.
pub const COLOR_O: BlockColor = 4;
/// Color of the S piece.
pub const COLOR_S: BlockColor = 5;
/// Color of the Z piece.
pub const COLOR_Z: BlockColor = 6;
/// Color of the J piece.
pub const COLOR_J: BlockColor = 7;
/// Color of the L piece.
pub const COLOR_L: BlockColor = 8;
/// Color of the T piece.
pub const COLOR_T: BlockColor = 9;

/// The seven tetromino kinds.
#[derive(Clone, Copy, PartialEq, Eq, Structural, Debug)]
pub enum BlockKind {
    I,
    O,
    S,
    Z,
    J,
    L,
    T,
}

/// A piece shape: a 4x4 window of cell values, one color per occupied cell.
pub type BlockShape = [[BlockColor; 4]; 4];

/// The canonical base shape of each kind, as a mathematical value.
pub open spec fn spec_shape(k: BlockKind) -> Seq<Seq<usize>> {
    match k {
        BlockKind::I => seq![
            seq![NONE, NONE, NONE, NONE],
            seq![NONE, NONE, NONE, NONE],
            seq![COLOR_I, COLOR_I, COLOR_I, COLOR_I],
            seq![NONE, NONE, NONE, NONE],
        ],
        BlockKind::O => seq![
            seq![NONE, NONE, NONE, NONE],
            seq![NONE, COLOR_O, COLOR_O, NONE],
            seq![NONE, COLOR_O, COLOR_O, NONE],
            seq![NONE, NONE, NONE, NONE],
        ],
        BlockKind::S => seq![
            seq![NONE, NONE, NONE, NONE],
            seq![NONE, COLOR_S, COLOR_S, NONE],
            seq![COLOR_S, COLOR_S, NONE, NONE],
            seq![NONE, NONE, NONE, NONE],
        ],
        BlockKind::Z => seq![
            seq![NONE, NONE, NONE, NONE],
            seq![COLOR_Z, COLOR_Z, NONE, NONE],
            seq![NONE, COLOR_Z, COLOR_Z, NONE],
            seq![NONE, NONE, NONE, NONE],
        ],
        BlockKind::J => seq![
            seq![NONE, NONE, NONE, NONE],
            seq![COLOR_J, NONE, NONE, NONE],
            seq![COLOR_J, COLOR_J, COLOR_J, NONE],
            seq![NONE, NONE, NONE, NONE],
        ],
        BlockKind::L => seq![
            seq![NONE, NONE, NONE, NONE],
            seq![NONE, NONE, COLOR_L, NONE],
            seq![COLOR_L, COLOR_L, COLOR_L, NONE],
            seq![NONE, NONE, NONE, NONE],
        ],
        BlockKind::T => seq![
            seq![NONE, NONE, NONE, NONE],
            seq![NONE, COLOR_T, NONE, NONE],
            seq![COLOR_T, COLOR_T, COLOR_T, NONE],
            seq![NONE, NONE, NONE, NONE],
        ],
    }
}

/// A well-formed shape is a 4x4 window with at least one occupied cell in the
/// central 2x2 square. Every base shape has one, and rotation maps the
/// central square onto itself, so the active piece always keeps one; this
/// cell is what pins the piece against the walls in the bounds arguments.
pub open spec fn shape_wf(b: Seq<Seq<usize>>) -> bool {
    &&& b.len() == 4
    &&& (forall|y: int| 0 <= y < 4 ==> (#[trigger] b[y]).len() == 4)
    &&& (exists|y: int, x: int| 1 <= y <= 2 && 1 <= x <= 2 && #[trigger] b[y][x] != NONE)
}

/// A shape that is the canonical base shape of some kind.
pub open spec fn is_base_shape(b: Seq<Seq<usize>>) -> bool {
    exists|k: BlockKind| b == spec_shape(k)
}

/// Every base shape is well-formed.
pub proof fn lemma_base_shape_wf(b: Seq<Seq<usize>>)
    requires
        is_base_shape(b),
    ensures
        shape_wf(b),
{
    let k = choose|k: BlockKind| b == spec_shape(k);
    match k {
        BlockKind::I => {
            assert(b[2][1] != NONE);
        },
        BlockKind::O => {
            assert(b[1][1] != NONE);
        },
        BlockKind::S => {
            assert(b[1][1] != NONE);
        },
        BlockKind::Z => {
            assert(b[1][1] != NONE);
        },
        BlockKind::J => {
            assert(b[2][1] != NONE);
        },
        BlockKind::L => {
            assert(b[2][1] != NONE);
        },
        BlockKind::T => {
            assert(b[1][1] != NONE);
        },
    }
}

/// Every occupied cell of a base shape lies in window rows 1..=2; in
/// particular the top and bottom window rows of a freshly spawned piece are
/// empty, so a spawned piece never overlaps the top border row.
pub proof fn lemma_base_shape_rows(b: Seq<Seq<usize>>)
    requires
        is_base_shape(b),
    ensures
        forall|y: int, x: int| 0 <= y < 4 && 0 <= x < 4 && #[trigger] b[y][x] != NONE ==> 1 <= y
            <= 2,
{
}

/// The base shape of a piece kind.
pub fn block_shape(k: BlockKind) -> (s: BlockShape)
    ensures
        s.deep_view() == spec_shape(k),
        is_base_shape(s.deep_view()),
        shape_wf(s.deep_view()),
{
    let s: BlockShape = match k {
        BlockKind::I => [
            [NONE, NONE, NONE, NONE],
            [NONE, NONE, NONE, NONE],
            [COLOR_I, COLOR_I, COLOR_I, COLOR_I],
            [NONE, NONE, NONE, NONE],
        ],
        BlockKind::O => [
            [NONE, NONE, NONE, NONE],
            [NONE, COLOR_O, COLOR_O, NONE],
            [NONE, COLOR_O, COLOR_O, NONE],
            [NONE, NONE, NONE, NONE],
        ],
        BlockKind::S => [
            [NONE, NONE, NONE, NONE],
            [NONE, COLOR_S, COLOR_S, NONE],
            [COLOR_S, COLOR_S, NONE, NONE],
            [NONE, NONE, NONE, NONE],
        ],
        BlockKind::Z => [
            [NONE, NONE, NONE, NONE],
            [COLOR_Z, COLOR_Z, NONE, NONE],
            [NONE, COLOR_Z, COLOR_Z, NONE],
            [NONE, NONE, NONE, NONE],
        ],
        BlockKind::J => [
            [NONE, NONE, NONE, NONE],
            [COLOR_J, NONE, NONE, NONE],
            [COLOR_J, COLOR_J, COLOR_J, NONE],
            [NONE, NONE, NONE, NONE],
        ],
        BlockKind::L => [
            [NONE, NONE, NONE, NONE],
            [NONE, NONE, COLOR_L, NONE],
            [COLOR_L, COLOR_L, COLOR_L, NONE],
            [NONE, NONE, NONE, NONE],
        ],
        BlockKind::T => [
            [NONE, NONE, NONE, NONE],
            [NONE, COLOR_T, NONE, NONE],
            [COLOR_T, COLOR_T, COLOR_T, NONE],
            [NONE, NONE, NONE, NONE],
        ],
    };
    proof {
        assert(s.deep_view() =~~= spec_shape(k));
        lemma_base_shape_wf(s.deep_view());
    }
    s
}

/// The views of a sequence of shapes.
pub open spec fn shapes_of(q: Seq<BlockShape>) -> Seq<Seq<Seq<usize>>> {
    q.map_values(|s: BlockShape| s.deep_view())
}

/// Every shape of the sequence is a canonical base shape.
pub open spec fn shapes_base(q: Seq<BlockShape>) -> bool {
    forall|i: int| 0 <= i < q.len() ==> is_base_shape((#[trigger] q[i]).deep_view())
}

/// One unshuffled bag: the seven base shapes, one per kind.
pub open spec fn seven_bag() -> Seq<Seq<Seq<usize>>> {
    seq![
        spec_shape(BlockKind::I),
        spec_shape(BlockKind::O),
        spec_shape(BlockKind::S),
        spec_shape(BlockKind::Z),
        spec_shape(BlockKind::J),
        spec_shape(BlockKind::L),
        spec_shape(BlockKind::T),
    ]
}

/// A small fingerprint that separates the seven base shapes.
pub open spec fn shape_tag(b: Seq<Seq<usize>>) -> int {
    b[1][1] + 16 * b[1][0] + 256 * b[1][2] + 4096 * b[2][0]
}

/// The seven base shapes are pairwise distinct values.
pub proof fn lemma_base_shapes_distinct(k1: BlockKind, k2: BlockKind)
    requires
        k1 != k2,
    ensures
        spec_shape(k1) != spec_shape(k2),
{
    assert(shape_tag(spec_shape(BlockKind::I)) == 16 * COLOR_I * 256);
    assert(shape_tag(spec_shape(BlockKind::O)) == COLOR_O + 256 * COLOR_O);
    assert(shape_tag(spec_shape(BlockKind::S)) == COLOR_S + 256 * COLOR_S + 4096 * COLOR_S);
    assert(shape_tag(spec_shape(BlockKind::Z)) == COLOR_Z + 16 * COLOR_Z);
    assert(shape_tag(spec_shape(BlockKind::J)) == 16 * COLOR_J + 4096 * COLOR_J);
    assert(shape_tag(spec_shape(BlockKind::L)) == 256 * COLOR_L + 4096 * COLOR_L);
    assert(shape_tag(spec_shape(BlockKind::T)) == COLOR_T + 4096 * COLOR_T);
}

/// Swapping two entries of a sequence leaves its multiset of values unchanged.
proof fn lemma_swap_multiset<A>(s: Seq<A>, i: int, j: int)
    requires
        0 <= i < s.len(),
        0 <= j < s.len(),
    ensures
        s.update(i, s[j]).update(j, s[i]).to_multiset() == s.to_multiset(),
{
    broadcast use vstd::seq_lib::group_to_multiset_ensures;
    broadcast use vstd::multiset::group_multiset_axioms;

    let s1 = s.update(i, s[j]);
    assert(s1.to_multiset() == s.to_multiset().insert(s[j]).remove(s[i]));
    assert(s1[j] == s[j]);
    assert(s1.update(j, s[i]).to_multiset() == s1.to_multiset().insert(s[i]).remove(s1[j]));
    assert(s.to_multiset().insert(s[j]).remove(s[i]).insert(s[i]).remove(s[j])
        =~= s.to_multiset()) by {
        assert(s.to_multiset().count(s[i]) > 0);
        assert(s.to_multiset().count(s[j]) > 0);
    }
}

/// Mapping to views commutes with updating one entry.
proof fn lemma_shapes_of_update(q: Seq<BlockShape>, i: int, s: BlockShape)
    requires
        0 <= i < q.len(),
    ensures
        shapes_of(q.update(i, s)) == shapes_of(q).update(i, s.deep_view()),
{
    assert(shapes_of(q.update(i, s)) =~= shapes_of(q).update(i, s.deep_view()));
}

/// Draw one full bag from the randomizer: a uniformly shuffled permutation
/// of the seven base shapes, each kind appearing exactly once.
pub fn gen_block_7(rng: &mut rand::rngs::StdRng) -> (bag: [BlockShape; 7])
    ensures
        shapes_of(bag@).to_multiset() == seven_bag().to_multiset(),
        shapes_base(bag@),
{
    let mut bag: [BlockShape; 7] = [
        block_shape(BlockKind::I),
        block_shape(BlockKind::O),
        block_shape(BlockKind::S),
        block_shape(BlockKind::Z),
        block_shape(BlockKind::J),
        block_shape(BlockKind::L),
        block_shape(BlockKind::T),
    ];
    proof {
        assert(shapes_of(bag@) =~= seven_bag());
    }
    let mut i: usize = 6;
    while i >= 1
        invariant
            i <= 6,
            shapes_of(bag@).to_multiset() == seven_bag().to_multiset(),
            shapes_base(bag@),
        decreases i,
    {
        let j = rng_below(rng, i + 1);
        let ghost q0 = bag@;
        let tmp = bag[i];
        bag[i] = bag[j];
        bag[j] = tmp;
        proof {
            assert(bag@ == q0.update(i as int, q0[j as int]).update(j as int, q0[i as int]));
            lemma_shapes_of_update(q0, i as int, q0[j as int]);
            lemma_shapes_of_update(
                q0.update(i as int, q0[j as int]),
                j as int,
                q0[i as int],
            );
            assert(shapes_of(q0)[j as int] == q0[j as int].deep_view());
            assert(shapes_of(q0)[i as int] == q0[i as int].deep_view());
            lemma_swap_multiset(shapes_of(q0), i as int, j as int);
            assert(shapes_of(bag@) == shapes_of(q0).update(
                i as int,
                shapes_of(q0)[j as int],
            ).update(j as int, shapes_of(q0)[i as int]));
        }
        i = i - 1;
    }
    bag
}

/// Fairness of one bag: a sequence of shapes whose multiset is one full bag
/// contains the base shape of every kind exactly once. Seven consecutive
/// draws starting at a bag boundary are such a sequence.
pub proof fn lemma_bag_each_kind_once(q: Seq<BlockShape>, k: BlockKind)
    requires
        shapes_of(q).to_multiset() == seven_bag().to_multiset(),
    ensures
        q.len() == 7,
        shapes_of(q).to_multiset().count(spec_shape(k)) == 1,
{
    broadcast use vstd::seq_lib::group_to_multiset_ensures;
    broadcast use vstd::multiset::group_multiset_axioms;

    let e = Seq::<Seq<Seq<usize>>>::empty();
    let b1 = e.push(spec_shape(BlockKind::I));
    let b2 = b1.push(spec_shape(BlockKind::O));
    let b3 = b2.push(spec_shape(BlockKind::S));
    let b4 = b3.push(spec_shape(BlockKind::Z));
    let b5 = b4.push(spec_shape(BlockKind::J));
    let b6 = b5.push(spec_shape(BlockKind::L));
    let b7 = b6.push(spec_shape(BlockKind::T));
    assert(seven_bag() =~= b7);
    assert(e.to_multiset() =~= Multiset::<Seq<Seq<usize>>>::empty()) by {
        assert(e.to_multiset().len() == 0);
    }
    assert forall|k1: BlockKind, k2: BlockKind| k1 != k2 implies spec_shape(k1) != spec_shape(
        k2,
    ) by {
        lemma_base_shapes_distinct(k1, k2);
    }
    assert(b7.to_multiset().count(spec_shape(k)) == 1);
    assert(shapes_of(q).len() == 7) by {
        assert(shapes_of(q).to_multiset().len() == 7);
    }
}

} // verus!

