use tetris_core::block::{block_shape, BlockKind, BlockShape, GHOST, NONE, WALL};
use tetris_core::block_control::{erase_line, fix_block, ghost_pos, hard_drop, is_collision,
    landing, move_block, rotate_left, rotate_right};
use tetris_core::field::{template_field, FIELD_HEIGHT, FIELD_WIDTH};
use tetris_core::game::{score_table, Game, NEXT_LENGTH, NEXT_QUEUE_LENGTH};
use tetris_core::game_control::{hold, spawn_block, step, Intent};
use tetris_core::position::{super_rotation, Position};

const ALL_KINDS: [BlockKind; 7] = [
    BlockKind::I,
    BlockKind::O,
    BlockKind::S,
    BlockKind::Z,
    BlockKind::J,
    BlockKind::L,
    BlockKind::T,
];

/// Fill interior row `y` completely, except the listed columns.
fn fill_row_except(game: &mut Game, y: usize, gaps: &[usize]) {
    for x in 2..FIELD_WIDTH - 2 {
        if !gaps.contains(&x) {
            game.field[y][x] = WALL;
        }
    }
}

#[test]
fn template_has_walls_and_empty_interior() {
    let f = template_field();
    for x in 0..FIELD_WIDTH {
        assert_ne!(f[0][x], NONE);
        assert_ne!(f[FIELD_HEIGHT - 2][x], NONE);
        assert_ne!(f[FIELD_HEIGHT - 1][x], NONE);
    }
    for y in 1..FIELD_HEIGHT - 2 {
        assert_eq!(f[y][0], WALL);
        assert_eq!(f[y][1], WALL);
        assert_eq!(f[y][FIELD_WIDTH - 2], WALL);
        assert_eq!(f[y][FIELD_WIDTH - 1], WALL);
        for x in 2..FIELD_WIDTH - 2 {
            assert_eq!(f[y][x], NONE);
        }
    }
}

#[test]
fn collision_empty_field_and_floor() {
    let f = template_field();
    for kind in ALL_KINDS {
        let b = block_shape(kind);
        // at the spawn coordinate nothing collides
        assert!(!is_collision(&f, &Position { x: 5, y: 0 }, &b));
        // standing on the floor row always collides
        assert!(is_collision(&f, &Position { x: 5, y: 19 }, &b));
        // inside the left wall always collides
        assert!(is_collision(&f, &Position { x: 0, y: 8 }, &b));
    }
}

#[test]
fn collision_with_single_stack_cell() {
    let mut g = Game::new(1);
    // O occupies window cells (1..=2, 1..=2); a stack cell right there
    g.field[9][6] = WALL;
    let b = block_shape(BlockKind::O);
    assert!(is_collision(&g.field, &Position { x: 5, y: 8 }, &b));
    // one column to the right the piece no longer overlaps the cell
    assert!(!is_collision(&g.field, &Position { x: 6, y: 8 }, &b));
}

#[test]
fn collision_skips_out_of_bounds_cells() {
    let f = template_field();
    let b = block_shape(BlockKind::I);
    // with the whole window below the declared bounds nothing is checked
    let p = Position { x: 5, y: FIELD_HEIGHT };
    assert!(!is_collision(&f, &p, &b));
}

#[test]
fn rotation_four_times_restores_shape() {
    for kind in ALL_KINDS {
        let mut g = Game::new(3);
        g.block = block_shape(kind);
        // center of an empty field: every rotation fits without a kick
        g.pos = Position { x: 5, y: 8 };
        let before: BlockShape = g.block;
        for _ in 0..4 {
            rotate_right(&mut g);
        }
        assert_eq!(g.block, before);
        assert_eq!(g.pos, Position { x: 5, y: 8 });
        for _ in 0..4 {
            rotate_left(&mut g);
        }
        assert_eq!(g.block, before);
    }
}

#[test]
fn rotation_rejected_in_narrow_well() {
    let mut g = Game::new(4);
    // a one-column well at column 6: rows 5..=19 filled elsewhere
    for y in 5..FIELD_HEIGHT - 2 {
        fill_row_except(&mut g, y, &[6]);
    }
    // a vertical I in the well: base I rotated once sits in window column 1
    let mut vertical = [[NONE; 4]; 4];
    for y in 0..4 {
        vertical[y][1] = 3;
    }
    g.block = vertical;
    g.pos = Position { x: 5, y: 10 };
    let before_block = g.block;
    let before_pos = g.pos;
    rotate_right(&mut g);
    assert_eq!(g.block, before_block);
    assert_eq!(g.pos, before_pos);
}

#[test]
fn rotation_kick_moves_piece_down_at_top() {
    let mut g = Game::new(5);
    g.block = block_shape(BlockKind::T);
    g.pos = Position { x: 5, y: 0 };
    // the rotated T pokes into the top wall row, so the down kick applies
    rotate_right(&mut g);
    assert_eq!(g.pos, Position { x: 5, y: 1 });
}

#[test]
fn move_commits_or_ignores() {
    let mut g = Game::new(6);
    g.pos = Position { x: 5, y: 8 };
    move_block(&mut g, Position { x: 4, y: 8 });
    assert_eq!(g.pos, Position { x: 4, y: 8 });
    // a move into the wall is silently ignored
    move_block(&mut g, Position { x: 0, y: 8 });
    assert_eq!(g.pos, Position { x: 4, y: 8 });
}

#[test]
fn ghost_pos_matches_hard_drop() {
    let mut g = Game::new(7);
    let ghost = ghost_pos(&g.field, &g.pos, &g.block);
    let before = g.pos;
    hard_drop(&mut g);
    assert_eq!(g.pos, ghost);
    assert_eq!(g.pos.x, before.x);
    assert!(g.pos.y >= before.y);
    // dropped onto the empty floor the piece rests on the bottom rows
    let down = Position { x: g.pos.x, y: g.pos.y + 1 };
    assert!(is_collision(&g.field, &down, &g.block));
}

#[test]
fn fix_block_writes_only_occupied_cells() {
    let mut g = Game::new(8);
    g.block = block_shape(BlockKind::O);
    g.pos = Position { x: 5, y: 17 };
    fix_block(&mut g);
    let o = block_shape(BlockKind::O);
    assert_eq!(g.field[18][6], o[1][1]);
    assert_eq!(g.field[18][7], o[1][2]);
    assert_eq!(g.field[19][6], o[2][1]);
    assert_eq!(g.field[19][7], o[2][2]);
    // the empty window cells leave their field cells untouched
    assert_eq!(g.field[18][5], NONE);
    assert_eq!(g.field[19][8], NONE);
}

#[test]
fn erase_line_counts_and_shifts() {
    let mut g = Game::new(9);
    // a marker cell above the full row
    g.field[18][4] = 9;
    fill_row_except(&mut g, 19, &[]);
    let n = erase_line(&mut g.field);
    assert_eq!(n, 1);
    // the rows above shifted down by one: the marker moved from 18 to 19
    assert_eq!(g.field[19][4], 9);
    assert_eq!(g.field[18][4], NONE);
    // the top interior row is empty, walls intact
    for x in 2..FIELD_WIDTH - 2 {
        assert_eq!(g.field[1][x], NONE);
    }
    assert_eq!(g.field[1][0], WALL);
}

#[test]
fn erase_line_clears_four_stacked_rows() {
    let mut g = Game::new(10);
    for y in 16..20 {
        fill_row_except(&mut g, y, &[]);
    }
    g.field[15][7] = 8;
    let n = erase_line(&mut g.field);
    assert_eq!(n, 4);
    // the marker fell four rows
    assert_eq!(g.field[19][7], 8);
    for y in 15..19 {
        assert_eq!(g.field[y][7], NONE);
    }
}

#[test]
fn erase_line_skips_partial_rows() {
    let mut g = Game::new(11);
    fill_row_except(&mut g, 19, &[5]);
    let n = erase_line(&mut g.field);
    assert_eq!(n, 0);
    assert_ne!(g.field[19][4], NONE);
}

#[test]
fn score_table_values() {
    assert_eq!(score_table(0), 0);
    assert_eq!(score_table(1), 1);
    assert_eq!(score_table(2), 5);
    assert_eq!(score_table(3), 25);
    assert_eq!(score_table(4), 100);
}

#[test]
fn landing_scores_one_cleared_row() {
    let mut g = Game::new(12);
    // the bottom interior row is full except the two columns an O piece fills
    fill_row_except(&mut g, 19, &[6, 7]);
    g.field[18][4] = 9; // marker that must shift down by one
    g.block = block_shape(BlockKind::O);
    g.pos = Position { x: 5, y: 0 };
    let score0 = g.score;
    let line0 = g.line;
    hard_drop(&mut g);
    let r = landing(&mut g);
    assert!(r.is_ok());
    assert_eq!(g.score, score0 + 1);
    assert_eq!(g.line, line0 + 1);
    // every row above the cleared one shifted down by one
    assert_eq!(g.field[19][4], 9);
    assert_eq!(g.field[18][4], NONE);
    // the O cells above the cleared row also fell one row, onto row 19
    let o = block_shape(BlockKind::O);
    assert_eq!(g.field[19][6], o[1][1]);
    assert_eq!(g.field[19][7], o[1][2]);
}

#[test]
fn landing_resets_hold_flag_and_queue_length() {
    let mut g = Game::new(13);
    g.holded = true;
    hard_drop(&mut g);
    let r = landing(&mut g);
    assert!(r.is_ok());
    assert!(!g.holded);
    assert_eq!(g.next.len(), NEXT_QUEUE_LENGTH);
    assert!(NEXT_LENGTH <= NEXT_QUEUE_LENGTH);
}

#[test]
fn landing_scores_nothing_without_full_rows() {
    let mut g = Game::new(14);
    hard_drop(&mut g);
    let r = landing(&mut g);
    assert!(r.is_ok());
    assert_eq!(g.score, 0);
    assert_eq!(g.line, 0);
}

fn bag_counts(draws: &[BlockShape]) -> [usize; 7] {
    let mut counts = [0usize; 7];
    for d in draws {
        for (i, kind) in ALL_KINDS.iter().enumerate() {
            if *d == block_shape(*kind) {
                counts[i] += 1;
            }
        }
    }
    counts
}

#[test]
fn seven_draws_from_bag_boundary_cover_all_kinds() {
    for seed in 0..20u64 {
        let g = Game::new(seed);
        // the first bag, in draw order: the spawned piece then the queue front
        let mut draws: Vec<BlockShape> = vec![g.block];
        for i in 0..6 {
            draws.push(g.next[i]);
        }
        assert_eq!(bag_counts(&draws), [1, 1, 1, 1, 1, 1, 1]);
        // the buffered bag is a full bag as well
        let second: Vec<BlockShape> = vec![g.next[6], g.next_buf[0], g.next_buf[1],
            g.next_buf[2], g.next_buf[3], g.next_buf[4], g.next_buf[5]];
        assert_eq!(bag_counts(&second), [1, 1, 1, 1, 1, 1, 1]);
    }
}

#[test]
fn same_seed_gives_same_game() {
    let a = Game::new(99);
    let b = Game::new(99);
    assert_eq!(a.next_buf.len(), NEXT_QUEUE_LENGTH - 1);
    assert_eq!(a.block, b.block);
    for i in 0..NEXT_QUEUE_LENGTH {
        assert_eq!(a.next[i], b.next[i]);
    }
}

#[test]
fn hold_banks_then_second_hold_is_noop() {
    let mut g = Game::new(15);
    let first = g.block;
    hold(&mut g);
    assert_eq!(g.hold, Some(first));
    assert!(g.holded);
    let block1 = g.block;
    let pos1 = g.pos;
    let hold1 = g.hold;
    hold(&mut g);
    assert_eq!(g.block, block1);
    assert_eq!(g.pos, pos1);
    assert_eq!(g.hold, hold1);
    assert!(g.holded);
}

#[test]
fn hold_lock_hold_swaps() {
    let mut g = Game::new(16);
    let first = g.block;
    hold(&mut g);
    assert_eq!(g.hold, Some(first));
    hard_drop(&mut g);
    assert!(landing(&mut g).is_ok());
    assert!(!g.holded);
    let active = g.block;
    hold(&mut g);
    // the second hold is a swap with the banked shape
    assert_eq!(g.block, first);
    assert_eq!(g.hold, Some(active));
    assert_eq!(g.pos, Position { x: 5, y: 0 });
    assert!(g.holded);
}

#[test]
fn spawn_collision_is_game_over_and_only_quit_is_accepted() {
    let mut g = Game::new(17);
    // block the spawn window: every base shape occupies window row 2
    for x in 5..9 {
        g.field[2][x] = WALL;
    }
    let r = spawn_block(&mut g);
    assert!(r.is_err());
    assert!(g.game_over);
    // every intent but Quit is ignored now
    let pos = g.pos;
    let score = g.score;
    assert!(!step(&mut g, Intent::MoveLeft));
    assert!(!step(&mut g, Intent::HardDrop));
    assert!(!step(&mut g, Intent::Hold));
    assert!(!step(&mut g, Intent::Gravity));
    assert_eq!(g.pos, pos);
    assert_eq!(g.score, score);
    assert!(g.game_over);
    assert!(step(&mut g, Intent::Quit));
}

fn stack_cells(g: &Game) -> usize {
    let mut occupied = 0;
    for y in 1..FIELD_HEIGHT - 2 {
        for x in 2..FIELD_WIDTH - 2 {
            if g.field[y][x] != NONE {
                occupied += 1;
            }
        }
    }
    occupied
}

#[test]
fn gravity_moves_down_then_locks() {
    let mut g = Game::new(18);
    let y0 = g.pos.y;
    assert!(!step(&mut g, Intent::Gravity));
    assert_eq!(g.pos.y, y0 + 1);
    // tick until the piece locks: its four cells join the stack and a fresh
    // piece appears at the spawn row
    let mut locked = false;
    for _ in 0..FIELD_HEIGHT {
        step(&mut g, Intent::Gravity);
        if stack_cells(&g) == 4 {
            locked = true;
            break;
        }
    }
    assert!(locked);
    assert_eq!(g.pos, Position { x: 5, y: 0 });
    assert!(!g.game_over);
    assert!(!g.holded);
}

#[test]
fn step_routes_moves_and_drops() {
    let mut g = Game::new(19);
    let x0 = g.pos.x;
    assert!(!step(&mut g, Intent::MoveLeft));
    assert_eq!(g.pos.x, x0 - 1);
    assert!(!step(&mut g, Intent::MoveRight));
    assert_eq!(g.pos.x, x0);
    assert!(!step(&mut g, Intent::SoftDrop));
    assert_eq!(g.pos.y, 1);
    assert!(!step(&mut g, Intent::HardDrop));
    // hard drop locked and respawned
    assert_eq!(g.pos, Position { x: 5, y: 0 });
    assert!(!g.holded);
}

#[test]
fn ghost_marker_value_is_reserved() {
    // the renderer draws the ghost with its own cell value, distinct from
    // the piece colors and the wall
    assert_ne!(GHOST, NONE);
    assert_ne!(GHOST, WALL);
    for kind in ALL_KINDS {
        let b = block_shape(kind);
        for row in b.iter() {
            for c in row.iter() {
                assert_ne!(*c, GHOST);
            }
        }
    }
}

#[test]
fn init_position_is_spawn_coordinate() {
    let p = Position::init();
    assert_eq!(p, Position { x: 5, y: 0 });
}

#[test]
fn super_rotation_prefers_up_then_right() {
    let f = template_field();
    let b = block_shape(BlockKind::O);
    // in open space the first candidate, one cell up, wins
    let r = super_rotation(&f, &Position { x: 5, y: 8 }, &b);
    assert_eq!(r, Ok(Position { x: 5, y: 7 }));
    // at the top edge the up offset saturates to the same row and still wins
    let r2 = super_rotation(&f, &Position { x: 5, y: 0 }, &b);
    assert_eq!(r2, Ok(Position { x: 5, y: 0 }));
}

#[test]
fn super_rotation_fails_when_walled_in() {
    let mut g = Game::new(20);
    for y in 1..FIELD_HEIGHT - 2 {
        fill_row_except(&mut g, y, &[]);
    }
    let b = block_shape(BlockKind::O);
    let r = super_rotation(&g.field, &Position { x: 5, y: 8 }, &b);
    assert_eq!(r, Err(()));
}

#[test]
fn spawn_block_pops_queue_front() {
    let mut g = Game::new(21);
    let expected = g.next[0];
    let len0 = g.next.len();
    let r = spawn_block(&mut g);
    assert!(r.is_ok());
    assert_eq!(g.block, expected);
    assert_eq!(g.pos, Position { x: 5, y: 0 });
    assert_eq!(g.next.len(), len0);
}

#[test]
fn landing_fails_when_respawn_is_blocked() {
    let mut g = Game::new(22);
    // block the spawn window, leave the lower field free
    for x in 5..9 {
        g.field[2][x] = WALL;
    }
    hard_drop(&mut g);
    let r = landing(&mut g);
    assert!(r.is_err());
    assert!(g.game_over);
}
