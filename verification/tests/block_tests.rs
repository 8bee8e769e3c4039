//! Geometry tests: the shape table, translation, rotation cycles, and
//! validity checks.

use tetrs::block::{color, Block, BlockType, Color, Orientation, Square};

fn positions(b: &Block) -> Vec<(i8, i8)> {
    b.squares.iter().map(|s| s.pos).collect()
}

fn sorted_positions(b: &Block) -> Vec<(i8, i8)> {
    let mut v = positions(b);
    v.sort();
    v
}

fn gray() -> Color {
    Color { r: 128, g: 128, b: 128 }
}

fn reachable_pairs() -> Vec<(BlockType, Vec<Orientation>)> {
    let four = vec![Orientation::Up, Orientation::Right, Orientation::Down, Orientation::Left];
    let two = vec![Orientation::Up, Orientation::Left];
    vec![
        (BlockType::Line, two.clone()),
        (BlockType::Square, vec![Orientation::Up]),
        (BlockType::L, four.clone()),
        (BlockType::ReverseL, four.clone()),
        (BlockType::T, four),
        (BlockType::S, two.clone()),
        (BlockType::Z, two),
    ]
}

#[test]
fn every_reachable_shape_has_four_distinct_cells() {
    for (kind, orients) in reachable_pairs() {
        for &o in &orients {
            let b = Block::new(kind, o);
            let mut v = positions(&b);
            assert_eq!(v.len(), 4);
            v.sort();
            v.dedup();
            assert_eq!(v.len(), 4, "duplicate cells for {:?} {:?}", kind, o);
        }
    }
}

#[test]
fn shape_table_line_matches() {
    let up = Block::new(BlockType::Line, Orientation::Up);
    assert_eq!(positions(&up), vec![(0, 0), (0, 1), (0, 2), (0, 3)]);
    let left = Block::new(BlockType::Line, Orientation::Left);
    assert_eq!(positions(&left), vec![(0, 0), (1, 0), (2, 0), (3, 0)]);
}

#[test]
fn shape_table_t_matches() {
    let up = Block::new(BlockType::T, Orientation::Up);
    assert_eq!(positions(&up), vec![(1, 0), (0, 1), (1, 1), (2, 1)]);
    let down = Block::new(BlockType::T, Orientation::Down);
    assert_eq!(positions(&down), vec![(0, 0), (1, 0), (2, 0), (1, 1)]);
}

#[test]
fn every_kind_has_its_own_color() {
    let kinds = [
        BlockType::Line,
        BlockType::Square,
        BlockType::L,
        BlockType::ReverseL,
        BlockType::T,
        BlockType::S,
        BlockType::Z,
    ];
    let mut seen: Vec<Color> = Vec::new();
    for kind in kinds {
        let c = color(kind);
        assert!(!seen.contains(&c));
        seen.push(c);
        let b = Block::new(kind, Orientation::Up);
        for s in b.squares.iter() {
            assert_eq!(s.color, c);
        }
    }
    assert_eq!(color(BlockType::Line), Color { r: 42, g: 200, b: 255 });
}

#[test]
fn translate_shifts_every_square() {
    let b = Block::new(BlockType::S, Orientation::Up).translate(3, 7);
    assert_eq!(positions(&b), vec![(3, 7), (3, 8), (4, 8), (4, 9)]);
    let back = b.translate(-3, -7);
    assert_eq!(positions(&back), positions(&Block::new(BlockType::S, Orientation::Up)));
}

#[test]
fn square_rotation_is_exact_closure() {
    let b = Block::new(BlockType::Square, Orientation::Up).translate(4, 5);
    let r = b.rotate();
    assert_eq!(positions(&r), positions(&b));
}

#[test]
fn line_rotation_cycle_restores_shape_one_row_lower() {
    let b = Block::new(BlockType::Line, Orientation::Up).translate(4, 5);
    let r2 = b.rotate().rotate();
    assert_eq!(positions(&r2), positions(&b.translate(0, 1)));
}

#[test]
fn four_cycle_kinds_restore_shape_with_fixed_drift() {
    // the re-anchoring convention drifts each kind down a fixed amount per
    // full cycle; only the square (above) closes exactly
    for (kind, drift) in [(BlockType::L, 2), (BlockType::ReverseL, 2), (BlockType::T, 3)] {
        let b = Block::new(kind, Orientation::Up).translate(4, 5);
        let r4 = b.rotate().rotate().rotate().rotate();
        assert_eq!(
            sorted_positions(&r4),
            sorted_positions(&b.translate(0, drift)),
            "kind {:?}",
            kind
        );
    }
    for kind in [BlockType::S, BlockType::Z] {
        let b = Block::new(kind, Orientation::Up).translate(4, 5);
        let r2 = b.rotate().rotate();
        assert_eq!(sorted_positions(&r2), sorted_positions(&b.translate(0, 1)), "kind {:?}", kind);
    }
}

#[test]
fn overlaps_detects_a_shared_cell() {
    let b = Block::new(BlockType::T, Orientation::Up).translate(3, 10);
    let board = vec![Square { pos: (4, 10), color: gray() }];
    assert!(b.overlaps(&board));
    let board2 = vec![Square { pos: (4, 12), color: gray() }];
    assert!(!b.overlaps(&board2));
}

#[test]
fn is_valid_rejects_overlap_and_bounds() {
    let board = vec![Square { pos: (5, 11), color: gray() }];
    let b = Block::new(BlockType::T, Orientation::Up).translate(4, 10);
    // (5, 11) is one of the T's cells here
    assert!(!b.is_valid(&board));
    assert!(b.is_valid(&[]));
    // left wall
    assert!(!Block::new(BlockType::T, Orientation::Up).translate(-1, 5).is_valid(&[]));
    // right wall: T spans columns x..x+2
    assert!(!Block::new(BlockType::T, Orientation::Up).translate(8, 5).is_valid(&[]));
    assert!(Block::new(BlockType::T, Orientation::Up).translate(7, 5).is_valid(&[]));
    // floor: T spans rows y..y+1
    assert!(!Block::new(BlockType::T, Orientation::Up).translate(4, 19).is_valid(&[]));
    assert!(Block::new(BlockType::T, Orientation::Up).translate(4, 18).is_valid(&[]));
    // above the visible board is fine
    assert!(Block::new(BlockType::T, Orientation::Up).translate(4, -4).is_valid(&[]));
}

#[test]
fn max_drop_on_empty_board_reaches_the_floor() {
    // height 20: drop distance is 20 - (max relative row) - 1
    assert_eq!(Block::new(BlockType::Line, Orientation::Left).translate(4, 0).max_drop(&[]), 19);
    assert_eq!(Block::new(BlockType::Line, Orientation::Up).translate(4, 0).max_drop(&[]), 16);
    assert_eq!(Block::new(BlockType::T, Orientation::Up).translate(4, 0).max_drop(&[]), 18);
    assert_eq!(Block::new(BlockType::Square, Orientation::Up).translate(4, 0).max_drop(&[]), 18);
}

#[test]
fn max_drop_stops_on_settled_cells() {
    let board = vec![Square { pos: (4, 10), color: gray() }];
    // vertical line in the same column: bottom cell at row 3, clearance to
    // the cell at row 10 is 7, so it may fall 6
    let b = Block::new(BlockType::Line, Orientation::Up).translate(4, 0);
    assert_eq!(b.max_drop(&board), 6);
    // a different column is not in the way
    let b2 = Block::new(BlockType::Line, Orientation::Up).translate(5, 0);
    assert_eq!(b2.max_drop(&board), 16);
}

#[test]
fn max_y_translate_finds_the_nearest_block_below() {
    let board = vec![
        Square { pos: (2, 15), color: gray() },
        Square { pos: (2, 9), color: gray() },
        Square { pos: (3, 12), color: gray() },
    ];
    let s = Square { pos: (2, 4), color: gray() };
    assert_eq!(s.max_y_translate(&board), 5);
    let s2 = Square { pos: (2, 10), color: gray() };
    assert_eq!(s2.max_y_translate(&board), 5);
    // empty column falls to the floor row
    let s3 = Square { pos: (7, 4), color: gray() };
    assert_eq!(s3.max_y_translate(&board), 16);
}
