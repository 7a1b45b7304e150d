use crate::block::{block_shape, gen_block_7, is_base_shape, seven_bag, shape_wf, shapes_base,
    shapes_of, BlockKind, BlockShape};
use crate::block::NONE;
use crate::field::{field_wf, no_full_interior_row, row_full, spec_template, template_field, Field,
    FIELD_HEIGHT, FIELD_WIDTH};
use crate::game_control::{lemma_spawn_on_template, spawn_block};
use crate::position::{spec_init_pos, Position};
use crate::rng::rng_from_seed;
use std::collections::VecDeque;
use vstd::prelude::*;

verus! {

/// How many entries of the next queue the renderer shows.
pub const NEXT_LENGTH: usize = 3;

/// How many entries the next queue holds: one full bag.
pub const NEXT_QUEUE_LENGTH: usize = 7;

/// The whole game state: the sole root of mutation. The orchestrator in
/// `game_control` drives it through the spawn / fall / lock / clear /
/// respawn cycle.
pub struct Game {
    /// The playfield.
    pub field: Field,
    /// Anchor of the active piece's shape window.
    pub pos: Position,
    /// Shape of the active piece.
    pub block: BlockShape,
    /// The banked shape, if any.
    pub hold: Option<BlockShape>,
    /// Whether hold was already used for the current piece.
    pub holded: bool,
    /// The lookahead queue; spawns pop its front.
    pub next: VecDeque<BlockShape>,
    /// Shapes left over from the bag that refills `next`.
    pub next_buf: VecDeque<BlockShape>,
    /// Cumulative score.
    pub score: usize,
    /// Cumulative number of cleared lines.
    pub line: usize,
    /// The owned, seeded generator behind the bag randomizer.
    pub rng: rand::rngs::StdRng,
    /// Whether a spawn has failed; terminal when true.
    pub game_over: bool,
}

/// Well-formedness of a game state, established by `Game::new` and preserved
/// by every operation:
/// - the field has occupied borders and, between locks, no full interior row;
/// - the active piece is a well-formed shape whose window lies inside the
///   declared field bounds;
/// - the next queue always holds one full bag's worth of base shapes and the
///   refill buffer holds at most that;
/// - the held shape, if any, is well-formed.
pub open spec fn game_wf(g: Game) -> bool {
    &&& field_wf(g.field.deep_view())
    &&& no_full_interior_row(g.field.deep_view())
    &&& shape_wf(g.block.deep_view())
    &&& g.pos.x <= FIELD_WIDTH - 4
    &&& g.pos.y <= FIELD_HEIGHT - 4
    &&& g.next@.len() == NEXT_QUEUE_LENGTH
    &&& shapes_base(g.next@)
    &&& g.next_buf@.len() <= NEXT_QUEUE_LENGTH
    &&& shapes_base(g.next_buf@)
    &&& (g.hold matches Some(h) ==> shape_wf(h.deep_view()))
}

impl Game {
    /// Build a fresh game: empty field, zero counters, empty hold slot, the
    /// next queue and its buffer each filled with one full bag drawn from a
    /// generator seeded with `seed`, and the first piece already spawned.
    /// The opening pipeline is pinned bag by bag: the active piece together
    /// with the first six queue entries is one full bag, and the last queue
    /// entry together with the six buffered shapes is another.
    pub fn new(seed: u64) -> (g: Game)
        ensures
            game_wf(g),
            !g.game_over,
            g.score == 0,
            g.line == 0,
            g.hold is None,
            !g.holded,
            g.pos == spec_init_pos(),
            is_base_shape(g.block.deep_view()),
            g.field.deep_view() == spec_template(),
            g.next_buf@.len() == NEXT_QUEUE_LENGTH - 1,
            shapes_of(
                seq![g.block] + g.next@.subrange(0, NEXT_QUEUE_LENGTH - 1),
            ).to_multiset() == seven_bag().to_multiset(),
            shapes_of(
                g.next@.subrange(NEXT_QUEUE_LENGTH - 1, NEXT_QUEUE_LENGTH as int) + g.next_buf@,
            ).to_multiset() == seven_bag().to_multiset(),
    {
        let mut rng = rng_from_seed(seed);
        let bag1 = gen_block_7(&mut rng);
        let bag2 = gen_block_7(&mut rng);
        let mut next: VecDeque<BlockShape> = VecDeque::new();
        let mut next_buf: VecDeque<BlockShape> = VecDeque::new();
        let mut i: usize = 0;
        while i < 7
            invariant
                i <= 7,
                next@ == bag1@.subrange(0, i as int),
                next_buf@ == bag2@.subrange(0, i as int),
                bag1@.len() == 7,
                bag2@.len() == 7,
                shapes_base(bag1@),
                shapes_base(bag2@),
            decreases 7 - i,
        {
            let s1 = bag1[i];
            next.push_back(s1);
            let s2 = bag2[i];
            next_buf.push_back(s2);
            proof {
                assert(next@ =~= bag1@.subrange(0, i + 1));
                assert(next_buf@ =~= bag2@.subrange(0, i + 1));
            }
            i = i + 1;
        }
        proof {
            assert(next@ =~= bag1@);
            assert(next_buf@ =~= bag2@);
        }
        let mut game = Game {
            field: template_field(),
            pos: Position::init(),
            block: block_shape(BlockKind::I),
            hold: None,
            holded: false,
            next,
            next_buf,
            score: 0,
            line: 0,
            rng,
            game_over: false,
        };
        proof {
            assert forall|y: int| 1 <= y < FIELD_HEIGHT - 2 implies !row_full(
                #[trigger] spec_template()[y],
            ) by {
                assert(spec_template()[y][2] == NONE);
            }
            assert(game_wf(game));
        }
        let r = spawn_block(&mut game);
        proof {
            lemma_spawn_on_template(game.block.deep_view());
            assert(r is Ok);
            let n = NEXT_QUEUE_LENGTH as int;
            assert(game.next@.subrange(0, n - 1) == bag1@.subrange(1, n));
            assert(seq![game.block] + game.next@.subrange(0, n - 1) =~= bag1@);
            assert(game.next@[n - 1] == bag2@[0]);
            assert(game.next_buf@ == bag2@.subrange(1, n));
            assert(game.next@.subrange(n - 1, n) + game.next_buf@ =~= bag2@);
        }
        game
    }
}

/// Points awarded for clearing `k` lines at once.
pub open spec fn spec_score(k: nat) -> nat {
    if k == 0 {
        0
    } else if k == 1 {
        1
    } else if k == 2 {
        5
    } else if k == 3 {
        25
    } else {
        100
    }
}

/// The score table: points for 0 to 4 lines cleared by one lock.
pub fn score_table(k: usize) -> (s: usize)
    requires
        k <= 4,
    ensures
        s == spec_score(k as nat),
{
    match k {
        0 => 0,
        1 => 1,
        2 => 5,
        3 => 25,
        _ => 100,
    }
}

} // verus!
