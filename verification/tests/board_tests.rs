//! Board tests: row clearing and compaction.

use tetrs::block::{Color, Square};
use tetrs::consts::X_SQUARES;
use tetrs::game_state::clear_lines;

fn gray() -> Color {
    Color { r: 128, g: 128, b: 128 }
}

fn sq(x: i8, y: i8) -> Square {
    Square { pos: (x, y), color: gray() }
}

fn sorted(v: &[Square]) -> Vec<(i8, i8)> {
    let mut p: Vec<(i8, i8)> = v.iter().map(|s| s.pos).collect();
    p.sort();
    p
}

#[test]
fn clearing_a_full_row_removes_exactly_its_width() {
    let mut board = Vec::new();
    for x in 0..X_SQUARES {
        board.push(sq(x, 12));
    }
    // an adjacent, emptier row above
    board.push(sq(2, 11));
    board.push(sq(7, 11));
    let after = clear_lines(&board, 12);
    assert_eq!(after.len(), board.len() - X_SQUARES as usize);
    // nothing is left in row 12 but what fell into it from row 11
    assert_eq!(sorted(&after), vec![(2, 12), (7, 12)]);
}

#[test]
fn rows_above_fall_and_rows_below_stay() {
    let board = vec![sq(1, 3), sq(2, 8), sq(3, 10), sq(4, 15), sq(5, 10)];
    let after = clear_lines(&board, 10);
    assert_eq!(sorted(&after), vec![(1, 4), (2, 9), (4, 15)]);
}

#[test]
fn clearing_keeps_colors() {
    let red = Color { r: 200, g: 10, b: 10 };
    let board = vec![
        Square { pos: (0, 5), color: red },
        Square { pos: (0, 9), color: gray() },
    ];
    let after = clear_lines(&board, 9);
    assert_eq!(after.len(), 1);
    assert_eq!(after[0].pos, (0, 6));
    assert_eq!(after[0].color, red);
}

#[test]
fn clearing_an_empty_row_only_shifts() {
    let board = vec![sq(0, 2), sq(9, 17)];
    let after = clear_lines(&board, 10);
    assert_eq!(sorted(&after), vec![(0, 3), (9, 17)]);
}
