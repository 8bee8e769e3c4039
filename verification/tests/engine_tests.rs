//! Engine tests: gravity ticks, locking, line clearing, hold, hard drop,
//! rotation with boundary correction, and game over.

use tetrs::block::{Block, BlockType, Color, Orientation, Square};
use tetrs::consts::{TICK_INTERVAL, X_SQUARES, Y_SQUARES};
use tetrs::game_state::GameState;
use tetrs::signal::{Signal, SignalState};

fn gray() -> Color {
    Color { r: 128, g: 128, b: 128 }
}

fn positions(b: &Block) -> Vec<(i8, i8)> {
    b.squares.iter().map(|s| s.pos).collect()
}

fn sorted_board(gs: &GameState) -> Vec<(i8, i8)> {
    let mut v: Vec<(i8, i8)> = gs.squares.iter().map(|s| s.pos).collect();
    v.sort();
    v
}

#[test]
fn new_game_spawns_a_line_at_top_center() {
    let gs = GameState::new();
    assert_eq!(gs.squares.len(), 0);
    assert_eq!(gs.lines, 0);
    assert_eq!(gs.update_timer, 0);
    assert_eq!(gs.block_index, 0);
    assert!(gs.held_block.is_none());
    assert!(!gs.used_hold);
    assert!(gs.signals().is_empty());
    assert!(matches!(gs.current_block.blocktype, BlockType::Line));
    assert_eq!(positions(&gs.current_block), vec![(5, 0), (5, 1), (5, 2), (5, 3)]);
}

#[test]
fn gravity_moves_the_block_one_row_per_tick() {
    let mut gs = GameState::new();
    for _ in 0..TICK_INTERVAL - 1 {
        gs.update();
    }
    // not yet a full tick
    assert_eq!(positions(&gs.current_block), vec![(5, 0), (5, 1), (5, 2), (5, 3)]);
    gs.update();
    assert_eq!(positions(&gs.current_block), vec![(5, 1), (5, 2), (5, 3), (5, 4)]);
    assert_eq!(gs.update_timer, 0);
    assert_eq!(gs.frames, TICK_INTERVAL);
}

#[test]
fn try_translate_commits_only_valid_moves() {
    let mut gs = GameState::new();
    gs.current_block = Block::new(BlockType::T, Orientation::Up).translate(0, 5);
    // left wall: rejected, nothing changes
    let before = positions(&gs.current_block);
    gs.try_translate(-1, 0);
    assert_eq!(positions(&gs.current_block), before);
    gs.try_translate(1, 0);
    assert_eq!(positions(&gs.current_block), vec![(2, 5), (1, 6), (2, 6), (3, 6)]);
    // blocked by a settled square
    gs.squares = vec![Square { pos: (2, 7), color: gray() }];
    let before = positions(&gs.current_block);
    gs.try_translate(0, 1);
    assert_eq!(positions(&gs.current_block), before);
}

#[test]
fn scenario_line_hard_drop_locks_without_clearing() {
    let mut gs = GameState::new();
    gs.current_block = Block::new(BlockType::Line, Orientation::Left).translate(4, 0);
    assert_eq!(gs.current_block.max_drop(&gs.squares), 19);
    gs.hard_drop();
    assert_eq!(gs.update_timer, TICK_INTERVAL);
    assert_eq!(positions(&gs.current_block), vec![(4, 19), (5, 19), (6, 19), (7, 19)]);
    // the forced tick locks it: only 4 of 10 columns filled, nothing clears
    gs.update();
    assert_eq!(sorted_board(&gs), vec![(4, 19), (5, 19), (6, 19), (7, 19)]);
    assert_eq!(gs.lines, 0);
    assert!(gs.signals().is_empty());
    assert!(!gs.used_hold);
}

#[test]
fn scenario_completed_row_clears_and_upper_rows_fall() {
    let mut gs = GameState::new();
    // row 19 full except column 4, plus one square higher up to watch fall
    let mut board = Vec::new();
    for x in 0..X_SQUARES {
        if x != 4 {
            board.push(Square { pos: (x, 19), color: gray() });
        }
    }
    board.push(Square { pos: (0, 18), color: gray() });
    gs.squares = board;
    // a vertical line over the gap, bottom cell at row 19
    gs.current_block = Block::new(BlockType::Line, Orientation::Up).translate(4, 16);
    gs.update_timer = TICK_INTERVAL;
    gs.update();
    assert_eq!(gs.lines, 1);
    // row 19 cleared; (0,18) fell to (0,19); the line's upper three cells
    // fell one row each
    assert_eq!(sorted_board(&gs), vec![(0, 19), (4, 17), (4, 18), (4, 19)]);
}

#[test]
fn scenario_locking_above_the_board_ends_the_game() {
    let mut gs = GameState::new();
    // a block with its top cell above the visible board, blocked below
    gs.current_block = Block::new(BlockType::Line, Orientation::Up).translate(4, -1);
    gs.squares = vec![Square { pos: (4, 3), color: gray() }];
    gs.lines = 3;
    gs.update_timer = TICK_INTERVAL;
    let frames_before = gs.frames;
    gs.update();
    // nothing locked, one game-over signal with the final stats
    assert_eq!(gs.squares.len(), 1);
    assert_eq!(gs.signals().len(), 1);
    match gs.signals()[0] {
        Signal::EndGame(data) => {
            assert_eq!(data.lines, 3);
            assert_eq!(data.time, frames_before + 1);
        },
        _ => panic!("expected a game-over signal"),
    }
    // the block stays where it was
    assert_eq!(positions(&gs.current_block), vec![(4, -1), (4, 0), (4, 1), (4, 2)]);
}

#[test]
fn hold_swaps_once_and_then_ignores_a_second_hold() {
    let mut gs = GameState::new();
    let first_kind = gs.current_block.blocktype;
    assert!(gs.held_block.is_none());
    gs.cache();
    assert!(gs.used_hold);
    assert_eq!(gs.held_block, Some(first_kind));
    assert_eq!(gs.block_index, 1);
    let swapped_in = gs.current_block.blocktype;
    let swapped_positions = positions(&gs.current_block);
    // second hold without a lock: a no-op
    gs.cache();
    assert_eq!(gs.held_block, Some(first_kind));
    assert_eq!(gs.current_block.blocktype, swapped_in);
    assert_eq!(positions(&gs.current_block), swapped_positions);
    assert_eq!(gs.block_index, 1);
}

#[test]
fn hold_spawns_the_stashed_kind_at_the_spawn_anchor() {
    let mut gs = GameState::new();
    gs.held_block = Some(BlockType::T);
    gs.cache();
    assert_eq!(gs.held_block, Some(BlockType::Line));
    assert!(matches!(gs.current_block.blocktype, BlockType::T));
    assert!(matches!(gs.current_block.orientation, Orientation::Up));
    assert_eq!(positions(&gs.current_block), vec![(6, -5), (5, -4), (6, -4), (7, -4)]);
    // the queue was not consulted
    assert_eq!(gs.block_index, 0);
}

#[test]
fn lock_rearms_hold() {
    let mut gs = GameState::new();
    gs.cache();
    assert!(gs.used_hold);
    gs.hard_drop();
    gs.update();
    assert!(!gs.used_hold);
}

#[test]
fn spin_near_right_wall_stays_inside() {
    let mut gs = GameState::new();
    // a vertical line at the rightmost column; horizontal would protrude
    gs.current_block = Block::new(BlockType::Line, Orientation::Up).translate(9, 5);
    gs.spin();
    assert!(matches!(gs.current_block.orientation, Orientation::Left));
    for &(x, _) in positions(&gs.current_block).iter() {
        assert!(0 <= x && x < X_SQUARES);
    }
    assert_eq!(positions(&gs.current_block), vec![(6, 6), (7, 6), (8, 6), (9, 6)]);
}

#[test]
fn spin_near_left_wall_stays_inside() {
    let mut gs = GameState::new();
    gs.current_block = Block::new(BlockType::Line, Orientation::Up).translate(0, 5);
    gs.spin();
    assert!(matches!(gs.current_block.orientation, Orientation::Left));
    assert_eq!(positions(&gs.current_block), vec![(0, 6), (1, 6), (2, 6), (3, 6)]);
}

#[test]
fn spin_centrally_needs_no_correction() {
    let mut gs = GameState::new();
    gs.current_block = Block::new(BlockType::T, Orientation::Up).translate(4, 5);
    gs.spin();
    assert!(matches!(gs.current_block.orientation, Orientation::Right));
    assert_eq!(positions(&gs.current_block), vec![(5, 6), (5, 7), (6, 7), (5, 8)]);
}

#[test]
fn spin_does_not_check_settled_cells() {
    // rotation commits unconditionally, even into an overlap
    let mut gs = GameState::new();
    gs.squares = vec![Square { pos: (5, 6), color: gray() }];
    gs.current_block = Block::new(BlockType::T, Orientation::Up).translate(4, 5);
    gs.spin();
    assert!(gs.current_block.overlaps(&gs.squares));
}

#[test]
fn soft_drop_advances_one_row() {
    let mut gs = GameState::new();
    gs.try_translate(0, 1);
    assert_eq!(positions(&gs.current_block), vec![(5, 1), (5, 2), (5, 3), (5, 4)]);
}

#[test]
fn lock_draws_the_next_queued_kind() {
    let mut gs = GameState::new();
    let expected = gs.queue[0];
    gs.hard_drop();
    gs.update();
    assert_eq!(gs.block_index, 1);
    let kinds = [
        BlockType::Line,
        BlockType::Square,
        BlockType::L,
        BlockType::ReverseL,
        BlockType::S,
        BlockType::Z,
        BlockType::T,
    ];
    assert_eq!(gs.current_block.blocktype, kinds[expected]);
    assert!(matches!(gs.current_block.orientation, Orientation::Up));
    // spawned above the visible board
    for &(_, y) in positions(&gs.current_block).iter() {
        assert!(y < 0);
    }
    assert!(y_anchor_is_minus_five(&gs.current_block));
}

fn y_anchor_is_minus_five(b: &Block) -> bool {
    b.squares.iter().map(|s| s.pos.1).min().unwrap() == -5
}

#[test]
fn floor_is_the_only_lower_bound() {
    // a piece may stand partly above the board and still be valid
    let b = Block::new(BlockType::Line, Orientation::Up).translate(5, -3);
    assert!(b.is_valid(&[]));
    assert_eq!(Y_SQUARES, 20);
}
