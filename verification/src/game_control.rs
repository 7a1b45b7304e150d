use crate::block::{gen_block_7, is_base_shape, lemma_base_shape_rows, lemma_base_shape_wf,
    seven_bag, shapes_of, NONE};
use crate::block_control::{cell_hit, collides_at, drop_outcome, hard_drop, is_collision, landing,
    landing_outcome, move_block, rot_ccw, rot_cw, rotate_left, rotate_outcome, rotate_right,
    spec_collision};
use crate::field::spec_template;
use crate::game::{game_wf, Game, NEXT_QUEUE_LENGTH};
use crate::position::{spec_init_pos, Position, SPAWN_X, SPAWN_Y};
use vstd::prelude::*;

verus! {

/// No base shape collides at the spawn coordinate of the starting field: its
/// occupied cells lie in window rows 1 and 2, which map to empty interior
/// cells there.
pub proof fn lemma_spawn_on_template(b: Seq<Seq<usize>>)
    requires
        is_base_shape(b),
    ensures
        !spec_collision(spec_template(), SPAWN_X as int, SPAWN_Y as int, b),
{
    lemma_base_shape_rows(b);
    assert forall|y: int, x: int| 0 <= y < 4 && 0 <= x < 4 implies !cell_hit(
        spec_template(),
        SPAWN_X as int,
        SPAWN_Y as int,
        b,
        y,
        x,
    ) by {
        if b[y][x] != NONE {
            assert(1 <= y <= 2);
            assert(spec_template()[SPAWN_Y + y][SPAWN_X + x] == NONE);
        }
    }
}

/// How a spawn rearranges the piece pipeline: the front of the next queue
/// becomes the active shape at the spawn coordinate, the queue shifts up and
/// is refilled at the back, from the buffered bag when it still holds
/// shapes, otherwise from a freshly drawn bag whose remainder becomes the
/// new buffer.
pub open spec fn spawn_shift(pre: Game, post: Game) -> bool {
    let n = NEXT_QUEUE_LENGTH as int;
    &&& post.pos == spec_init_pos()
    &&& pre.next@.len() == n ==> {
        &&& post.block == pre.next@[0]
        &&& post.next@.len() == n
        &&& post.next@.subrange(0, n - 1) == pre.next@.subrange(1, n)
        &&& (if pre.next_buf@.len() > 0 {
            &&& post.next@[n - 1] == pre.next_buf@[0]
            &&& post.next_buf@ == pre.next_buf@.subrange(1, pre.next_buf@.len() as int)
        } else {
            shapes_of(seq![post.next@[n - 1]] + post.next_buf@).to_multiset()
                == seven_bag().to_multiset()
        })
    }
}

/// Everything a spawn does: the pipeline shift above, all other state
/// untouched, success exactly when the spawned shape does not collide at the
/// spawn coordinate, and the terminal flag raised on failure.
pub open spec fn spawn_outcome(pre: Game, post: Game, r: Result<(), ()>) -> bool {
    &&& spawn_shift(pre, post)
    &&& post.field == pre.field
    &&& post.score == pre.score
    &&& post.line == pre.line
    &&& post.hold == pre.hold
    &&& post.holded == pre.holded
    &&& (r is Ok <==> !collides_at(pre.field.deep_view(), spec_init_pos(), post.block.deep_view()))
    &&& post.game_over == (pre.game_over || r is Err)
}

/// Spawn the next piece: reset the anchor to the spawn coordinate, pop the
/// front of the next queue as the active shape, and refill the queue's back
/// from the buffered bag, drawing a fresh bag first when the buffer is
/// empty. Fails, raising the terminal flag, exactly when the spawned shape
/// collides with the current field.
pub fn spawn_block(game: &mut Game) -> (r: Result<(), ()>)
    requires
        game_wf(*old(game)),
    ensures
        game_wf(*final(game)),
        spawn_outcome(*old(game), *final(game), r),
{
    let ghost pre = *old(game);
    let ghost n = NEXT_QUEUE_LENGTH as int;
    game.pos = Position::init();
    let popped = game.next.pop_front();
    let b = match popped {
        Some(b) => b,
        None => {
            proof {
                assert(false);
            }
            crate::block::block_shape(crate::block::BlockKind::I)
        },
    };
    game.block = b;
    proof {
        assert(pre.next@[0] == b);
        lemma_base_shape_wf(game.block.deep_view());
    }
    let refilled = game.next_buf.pop_front();
    match refilled {
        Some(next) => {
            game.next.push_back(next);
            proof {
                assert(game.next@ == pre.next@.subrange(1, n).push(pre.next_buf@[0]));
                assert(game.next@.subrange(0, n - 1) =~= pre.next@.subrange(1, n));
                assert(forall|i: int|
                    0 <= i < game.next@.len() - 1 ==> game.next@[i] == pre.next@[i + 1]);
            }
        },
        None => {
            let bag = gen_block_7(&mut game.rng);
            let ghost mid = *game;
            let mut i: usize = 0;
            while i < 7
                invariant
                    i <= 7,
                    bag@.len() == 7,
                    crate::block::shapes_base(bag@),
                    game.next_buf@ == bag@.subrange(0, i as int),
                    *game == (Game { next_buf: game.next_buf, ..mid }),
                decreases 7 - i,
            {
                let s = bag[i];
                game.next_buf.push_back(s);
                proof {
                    assert(game.next_buf@ =~= bag@.subrange(0, i + 1));
                }
                i = i + 1;
            }
            proof {
                assert(game.next_buf@ =~= bag@);
            }
            let refill = game.next_buf.pop_front();
            match refill {
                Some(next) => {
                    game.next.push_back(next);
                    proof {
                        assert(seq![next] + game.next_buf@ =~= bag@);
                        assert(shapes_of(seq![next] + game.next_buf@).to_multiset()
                            == seven_bag().to_multiset());
                        assert(game.next@ == pre.next@.subrange(1, n).push(next));
                        assert(game.next@.subrange(0, n - 1) =~= pre.next@.subrange(1, n));
                        assert(forall|i: int|
                            0 <= i < game.next@.len() - 1 ==> game.next@[i] == pre.next@[i + 1]);
                    }
                },
                None => {
                    proof {
                        assert(false);
                    }
                },
            }
        },
    }
    proof {
        assert(game.next@.len() == n);
        assert forall|i: int| 0 <= i < game.next@.len() implies crate::block::is_base_shape(
            (#[trigger] game.next@[i]).deep_view(),
        ) by {
            if i < n - 1 {
                assert(game.next@[i] == pre.next@[i + 1]);
            }
        }
    }
    if is_collision(&game.field, &game.pos, &game.block) {
        game.game_over = true;
        Err(())
    } else {
        Ok(())
    }
}

/// What a hold request does. A second hold for the same piece is a no-op.
/// The first hold banks the active shape: into an empty slot, spawning the
/// next piece in its place, or by swapping with the slot's occupant, which
/// restarts at the spawn coordinate.
pub open spec fn hold_outcome(pre: Game, post: Game) -> bool {
    if pre.holded {
        post == pre
    } else {
        match pre.hold {
            Some(h) => post == (Game {
                hold: Some(pre.block),
                block: h,
                pos: spec_init_pos(),
                holded: true,
                ..pre
            }),
            None => {
                &&& post.hold == Some(pre.block)
                &&& post.holded == true
                &&& spawn_shift(pre, post)
                &&& post.field == pre.field
                &&& post.score == pre.score
                &&& post.line == pre.line
                &&& post.game_over == (pre.game_over || collides_at(
                    pre.field.deep_view(),
                    spec_init_pos(),
                    post.block.deep_view(),
                ))
            },
        }
    }
}

/// Bank the active piece, once per spawned piece.
pub fn hold(game: &mut Game)
    requires
        game_wf(*old(game)),
    ensures
        game_wf(*final(game)),
        hold_outcome(*old(game), *final(game)),
{
    if game.holded {
        return ;
    }
    match game.hold {
        Some(h) => {
            game.hold = Some(game.block);
            game.block = h;
            game.pos = Position::init();
        },
        None => {
            game.hold = Some(game.block);
            let _ = spawn_block(game);
        },
    }
    game.holded = true;
}

/// Holding twice without a lock in between: the second request changes
/// nothing, because the first one set the once-per-piece flag.
pub proof fn lemma_hold_twice(g0: Game, g1: Game, g2: Game)
    requires
        hold_outcome(g0, g1),
        hold_outcome(g1, g2),
    ensures
        g2 == g1,
{
}

/// Hold, then a successful lock, then hold again: the second hold finds the
/// slot occupied and the flag cleared, so it swaps the active shape with the
/// banked one and restarts at the spawn coordinate.
pub proof fn lemma_hold_lock_hold(g0: Game, g1: Game, g2: Game, g3: Game)
    requires
        !g0.holded,
        hold_outcome(g0, g1),
        landing_outcome(g1, g2, Ok(())),
        hold_outcome(g2, g3),
    ensures
        g2.hold is Some,
        g3.block == g2.hold.unwrap(),
        g3.hold == Some(g2.block),
        g3.pos == spec_init_pos(),
        g3.holded,
{
}

/// The abstract requests the engine consumes: player inputs, the periodic
/// gravity tick, and quitting.
#[derive(Clone, Copy, PartialEq, Eq, Structural, Debug)]
pub enum Intent {
    MoveLeft,
    MoveRight,
    SoftDrop,
    HardDrop,
    RotateCw,
    RotateCcw,
    Hold,
    Gravity,
    Quit,
}

/// The move target one column to the left (saturating at the edge).
pub open spec fn left_pos(p: Position) -> Position {
    Position { x: if p.x > 0 { (p.x - 1) as usize } else { p.x }, y: p.y }
}

/// The move target one column to the right.
pub open spec fn right_pos(p: Position) -> Position {
    Position { x: (p.x + 1) as usize, y: p.y }
}

/// The move target one row down.
pub open spec fn down_pos(p: Position) -> Position {
    Position { x: p.x, y: (p.y + 1) as usize }
}

/// A movement request commits the target when the piece fits there and
/// otherwise changes nothing.
pub open spec fn move_outcome(pre: Game, post: Game, np: Position) -> bool {
    if !collides_at(pre.field.deep_view(), np, pre.block.deep_view()) {
        post == (Game { pos: np, ..pre })
    } else {
        post == pre
    }
}

/// A completed drop followed by its lock: `landing_outcome` with the result
/// read off the terminal flag (the flag rises exactly on a failed respawn).
pub open spec fn landing_result(pre: Game, post: Game) -> bool {
    landing_outcome(
        pre,
        post,
        if post.game_over {
            Err(())
        } else {
            Ok(())
        },
    )
}

/// What one routed intent does to the game. `Quit` is always accepted and
/// changes nothing; in the terminal state every other intent is ignored.
/// Otherwise: the three movement intents try their one-cell move; the two
/// rotation intents rotate with kick fallback; `Hold` banks the piece;
/// `Gravity` moves the piece down, or locks it where it cannot fall;
/// `HardDrop` drops the piece to rest and locks it there.
pub open spec fn step_outcome(pre: Game, post: Game, intent: Intent, quit: bool) -> bool {
    if intent == Intent::Quit {
        quit && post == pre
    } else if pre.game_over {
        !quit && post == pre
    } else {
        !quit && match intent {
            Intent::MoveLeft => move_outcome(pre, post, left_pos(pre.pos)),
            Intent::MoveRight => move_outcome(pre, post, right_pos(pre.pos)),
            Intent::SoftDrop => move_outcome(pre, post, down_pos(pre.pos)),
            Intent::RotateCw => rotate_outcome(pre, post, rot_cw(pre.block.deep_view())),
            Intent::RotateCcw => rotate_outcome(pre, post, rot_ccw(pre.block.deep_view())),
            Intent::Hold => hold_outcome(pre, post),
            Intent::Gravity => {
                if !collides_at(pre.field.deep_view(), down_pos(pre.pos), pre.block.deep_view()) {
                    post == (Game { pos: down_pos(pre.pos), ..pre })
                } else {
                    landing_result(pre, post)
                }
            },
            Intent::HardDrop => exists|mid: Game|
                #[trigger] drop_outcome(pre, mid) && landing_result(mid, post),
            Intent::Quit => false,
        }
    }
}

/// Route one intent through the engine: the orchestrator step that the
/// renderer loop and the gravity tick both call. Returns whether the game
/// should quit. In the terminal state only `Quit` is accepted; every other
/// intent leaves the state untouched.
pub fn step(game: &mut Game, intent: Intent) -> (quit: bool)
    requires
        game_wf(*old(game)),
        old(game).score + 100 <= usize::MAX,
        old(game).line + 4 <= usize::MAX,
    ensures
        game_wf(*final(game)),
        step_outcome(*old(game), *final(game), intent, quit),
{
    let ghost pre = *old(game);
    if intent == Intent::Quit {
        return true;
    }
    if game.game_over {
        return false;
    }
    match intent {
        Intent::MoveLeft => {
            let np = Position { x: if game.pos.x > 0 { game.pos.x - 1 } else { game.pos.x }, y: game.pos.y };
            move_block(game, np);
        },
        Intent::MoveRight => {
            let np = Position { x: game.pos.x + 1, y: game.pos.y };
            move_block(game, np);
        },
        Intent::SoftDrop => {
            let np = Position { x: game.pos.x, y: game.pos.y + 1 };
            move_block(game, np);
        },
        Intent::RotateCw => {
            rotate_right(game);
        },
        Intent::RotateCcw => {
            rotate_left(game);
        },
        Intent::Hold => {
            hold(game);
        },
        Intent::Gravity => {
            let np = Position { x: game.pos.x, y: game.pos.y + 1 };
            if !is_collision(&game.field, &np, &game.block) {
                move_block(game, np);
            } else {
                let _ = landing(game);
            }
        },
        Intent::HardDrop => {
            hard_drop(game);
            let ghost mid = *game;
            let _ = landing(game);
            proof {
                assert(drop_outcome(pre, mid) && landing_result(mid, *game));
            }
        },
        Intent::Quit => {},
    }
    false
}

} // verus!
