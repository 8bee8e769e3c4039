//! Piece geometry: the fixed shape table for every kind and orientation,
//! and the piece operations — translation, rotation along each kind's
//! orientation cycle, collision and bounds checks, and drop distance.

use vstd::prelude::*;

use crate::consts::{X_SQUARES, Y_SQUARES};

verus! {

/// An RGB display color, one fixed value per piece kind.
#[derive(Clone, Copy, Debug, PartialEq, Eq, Structural)]
pub struct Color {
    pub r: u8,
    pub g: u8,
    pub b: u8,
}

/// A square that is or was part of a block: a board position plus the
/// display color it keeps after locking.
#[derive(Clone, Copy, Debug, PartialEq)]
pub struct Square {
    /// Logical position of the square, `(x, y)`: column and row.
    pub pos: (i8, i8),
    pub color: Color,
}

/// A rotation state. Not every kind reaches all four.
#[derive(Clone, Copy, Debug, PartialEq, Eq, Structural)]
pub enum Orientation {
    Left,
    Right,
    Up,
    Down,
}

/// The seven piece kinds.
#[derive(Clone, Copy, Debug, PartialEq, Eq, Structural)]
pub enum BlockType {
    Line,
    Square,
    L,
    ReverseL,
    T,
    S,
    Z,
}

/// A full block: four squares at absolute board positions, plus the kind
/// and orientation they were generated from.
#[derive(Clone, Copy, Debug)]
pub struct Block {
    pub squares: [Square; 4],
    pub blocktype: BlockType,
    pub orientation: Orientation,
}

/// Which (kind, orientation) pairs the rotation cycle can reach; only these
/// have entries in the shape table.
pub open spec fn reachable(t: BlockType, o: Orientation) -> bool {
    match t {
        BlockType::Line => o == Orientation::Up || o == Orientation::Left,
        BlockType::Square => o == Orientation::Up,
        BlockType::L => true,
        BlockType::ReverseL => true,
        BlockType::T => true,
        BlockType::S => o == Orientation::Up || o == Orientation::Left,
        BlockType::Z => o == Orientation::Up || o == Orientation::Left,
    }
}

/// The shape table: the four relative cell offsets of each reachable
/// (kind, orientation) pair, `(x, y)` with y growing downward.
pub open spec fn spec_offsets(t: BlockType, o: Orientation) -> Seq<(int, int)> {
    match (t, o) {
        (BlockType::Line, Orientation::Up) => seq![(0, 0), (0, 1), (0, 2), (0, 3)],
        (BlockType::Line, Orientation::Left) => seq![(0, 0), (1, 0), (2, 0), (3, 0)],
        (BlockType::Square, Orientation::Up) => seq![(0, 0), (1, 0), (0, 1), (1, 1)],
        (BlockType::L, Orientation::Up) => seq![(0, 0), (0, 1), (0, 2), (1, 2)],
        (BlockType::L, Orientation::Right) => seq![(0, 0), (1, 0), (2, 0), (0, 1)],
        (BlockType::L, Orientation::Down) => seq![(0, 0), (1, 0), (1, 1), (1, 2)],
        (BlockType::L, Orientation::Left) => seq![(2, 0), (0, 1), (1, 1), (2, 1)],
        (BlockType::ReverseL, Orientation::Up) => seq![(1, 0), (1, 1), (0, 2), (1, 2)],
        (BlockType::ReverseL, Orientation::Right) => seq![(0, 0), (0, 1), (1, 1), (2, 1)],
        (BlockType::ReverseL, Orientation::Down) => seq![(0, 0), (1, 0), (0, 1), (0, 2)],
        (BlockType::ReverseL, Orientation::Left) => seq![(0, 0), (1, 0), (2, 0), (2, 1)],
        (BlockType::S, Orientation::Up) => seq![(0, 0), (0, 1), (1, 1), (1, 2)],
        (BlockType::S, Orientation::Left) => seq![(1, 0), (2, 0), (0, 1), (1, 1)],
        (BlockType::Z, Orientation::Up) => seq![(1, 0), (0, 1), (1, 1), (0, 2)],
        (BlockType::Z, Orientation::Left) => seq![(0, 0), (1, 0), (1, 1), (2, 1)],
        (BlockType::T, Orientation::Up) => seq![(1, 0), (0, 1), (1, 1), (2, 1)],
        (BlockType::T, Orientation::Right) => seq![(0, 0), (0, 1), (1, 1), (0, 2)],
        (BlockType::T, Orientation::Down) => seq![(0, 0), (1, 0), (2, 0), (1, 1)],
        (BlockType::T, Orientation::Left) => seq![(1, 0), (0, 1), (1, 1), (1, 2)],
        _ => seq![],
    }
}

/// The successor in each kind's rotation cycle. Most kinds cycle
/// Up, Right, Down, Left; the square self-loops; Line, S and Z toggle
/// between Up and Left.
pub open spec fn next_orientation(t: BlockType, o: Orientation) -> Orientation {
    match (t, o) {
        (BlockType::Line, Orientation::Up) => Orientation::Left,
        (BlockType::Line, Orientation::Left) => Orientation::Up,
        (BlockType::Square, Orientation::Up) => Orientation::Up,
        (BlockType::S, Orientation::Up) => Orientation::Left,
        (BlockType::S, Orientation::Left) => Orientation::Up,
        (BlockType::Z, Orientation::Up) => Orientation::Left,
        (BlockType::Z, Orientation::Left) => Orientation::Up,
        (_, Orientation::Up) => Orientation::Right,
        (_, Orientation::Right) => Orientation::Down,
        (_, Orientation::Down) => Orientation::Left,
        (_, Orientation::Left) => Orientation::Up,
    }
}

/// The fixed horizontal nudge a rotation applies before re-anchoring, so
/// that the new shape lines up with the old one.
pub open spec fn rotate_dx(t: BlockType, o: Orientation) -> int {
    match (t, o) {
        (BlockType::Line, Orientation::Left) => 2,
        (BlockType::Line, Orientation::Up) => -2,
        (BlockType::L, Orientation::Down) => -1,
        (BlockType::L, Orientation::Left) => -1,
        (BlockType::ReverseL, Orientation::Down) => -1,
        (BlockType::S, Orientation::Left) => -1,
        (BlockType::Z, Orientation::Left) => -1,
        (BlockType::T, Orientation::Right) => -1,
        (BlockType::T, Orientation::Left) => -1,
        _ => 0,
    }
}

/// The display color of each kind.
pub open spec fn spec_color(t: BlockType) -> Color {
    match t {
        BlockType::Line => Color { r: 42, g: 200, b: 255 },
        BlockType::Square => Color { r: 19, g: 250, b: 67 },
        BlockType::L => Color { r: 77, g: 157, b: 224 },
        BlockType::ReverseL => Color { r: 237, g: 28, b: 36 },
        BlockType::S => Color { r: 73, g: 224, b: 110 },
        BlockType::Z => Color { r: 235, g: 81, b: 96 },
        BlockType::T => Color { r: 120, g: 114, b: 204 },
    }
}

/// Looks up the display color of a kind.
pub fn color(blocktype: BlockType) -> (c: Color)
    ensures
        c == spec_color(blocktype),
{
    match blocktype {
        BlockType::Line => Color { r: 42, g: 200, b: 255 },
        BlockType::Square => Color { r: 19, g: 250, b: 67 },
        BlockType::L => Color { r: 77, g: 157, b: 224 },
        BlockType::ReverseL => Color { r: 237, g: 28, b: 36 },
        BlockType::S => Color { r: 73, g: 224, b: 110 },
        BlockType::Z => Color { r: 235, g: 81, b: 96 },
        BlockType::T => Color { r: 120, g: 114, b: 204 },
    }
}

impl Square {
    /// A square of the given color at `(x, y)`.
    fn new(x: i8, y: i8, color: Color) -> (s: Square)
        ensures
            s.pos.0 == x,
            s.pos.1 == y,
            s.color == color,
    {
        Square { pos: (x, y), color }
    }

    /// Finds the farthest this square could fall: the distance to the
    /// nearest settled square at or below it in its own column, or to the
    /// floor if that column is clear from here down.
    pub fn max_y_translate(&self, board: &[Square]) -> (r: i8)
        requires
            -100 <= self.pos.1 <= 100,
        ensures
            r == spec_lowest(board@, self.pos.0, self.pos.1) - self.pos.1,
    {
        let mut lowest: i8 = Y_SQUARES;
        let mut j: usize = 0;
        while j < board.len()
            invariant
                0 <= j <= board@.len(),
                -100 <= self.pos.1 <= 100,
                lowest == spec_lowest(board@.take(j as int), self.pos.0, self.pos.1),
                lowest == Y_SQUARES as int || self.pos.1 <= lowest,
                lowest <= Y_SQUARES,
            decreases board@.len() - j,
        {
            let s = board[j];
            proof {
                assert(board@.take(j as int + 1).drop_last() =~= board@.take(j as int));
                assert(board@.take(j as int + 1).last() == board@[j as int]);
            }
            if s.pos.0 == self.pos.0 && s.pos.1 >= self.pos.1 && s.pos.1 <= lowest {
                lowest = s.pos.1;
            }
            j = j + 1;
        }
        proof {
            assert(board@.take(board@.len() as int) =~= board@);
        }
        lowest - self.pos.1
    }

    /// Returns a copy of the square shifted by `(x, y)`.
    pub fn translate(&self, x: i8, y: i8) -> (s: Square)
        requires
            i8::MIN <= self.pos.0 + x <= i8::MAX,
            i8::MIN <= self.pos.1 + y <= i8::MAX,
        ensures
            s.pos.0 == self.pos.0 + x,
            s.pos.1 == self.pos.1 + y,
            s.color == self.color,
    {
        Square { pos: (self.pos.0 + x, self.pos.1 + y), color: self.color }
    }
}

/// Every square of the block carries the kind's display color.
pub open spec fn block_colored(b: Block) -> bool {
    forall|i: int| 0 <= i < 4 ==> (#[trigger] b.squares@[i]).color == spec_color(b.blocktype)
}

/// The block's squares sit at the table offsets for (t, o), shifted by
/// `(dx, dy)`.
pub open spec fn block_at(b: Block, t: BlockType, o: Orientation, dx: int, dy: int) -> bool {
    forall|i: int| 0 <= i < 4 ==> (#[trigger] b.squares@[i]).pos.0 == spec_offsets(t, o)[i].0 + dx
        && b.squares@[i].pos.1 == spec_offsets(t, o)[i].1 + dy
}

/// Every offset in the shape table is small: both coordinates lie in
/// [0, 3], and every reachable pair has exactly four entries.
pub proof fn lemma_offsets_bounds(t: BlockType, o: Orientation)
    ensures
        forall|i: int| 0 <= i < spec_offsets(t, o).len() ==> 0 <= (#[trigger] spec_offsets(t, o)[i]).0
            <= 3 && 0 <= spec_offsets(t, o)[i].1 <= 3,
        reachable(t, o) ==> spec_offsets(t, o).len() == 4,
{
}

/// Every kind's table defines the Up orientation, where pieces spawn.
pub proof fn kind_reachable_up(t: BlockType)
    ensures
        reachable(t, Orientation::Up),
{
}

/// Every reachable (kind, orientation) pair has exactly four offsets in
/// the shape table, and they are pairwise distinct: a block always covers
/// four different cells.
pub proof fn lemma_offsets_distinct(t: BlockType, o: Orientation)
    requires
        reachable(t, o),
    ensures
        spec_offsets(t, o).len() == 4,
        forall|i: int, j: int| 0 <= i < 4 && 0 <= j < 4 && i != j ==> spec_offsets(t, o)[i]
            != spec_offsets(t, o)[j],
{
}

/// A block whose squares follow the table covers four distinct positions.
pub proof fn lemma_block_cells_distinct(b: Block, dx: int, dy: int)
    requires
        reachable(b.blocktype, b.orientation),
        block_at(b, b.blocktype, b.orientation, dx, dy),
    ensures
        forall|i: int, j: int| 0 <= i < 4 && 0 <= j < 4 && i != j ==> (#[trigger] b.squares@[i]).pos
            != (#[trigger] b.squares@[j]).pos,
{
    lemma_offsets_distinct(b.blocktype, b.orientation);
    assert forall|i: int, j: int| 0 <= i < 4 && 0 <= j < 4 && i != j implies (
    #[trigger] b.squares@[i]).pos != (#[trigger] b.squares@[j]).pos by {
        assert(spec_offsets(b.blocktype, b.orientation)[i] != spec_offsets(
            b.blocktype,
            b.orientation,
        )[j]);
    }
}

/// True if some settled square sits exactly at `(x, y)`.
pub open spec fn occupied(board: Seq<Square>, x: int, y: int) -> bool {
    exists|j: int| 0 <= j < board.len() && (#[trigger] board[j]).pos.0 == x && board[j].pos.1 == y
}

/// Some square of the block coincides with a settled square.
pub open spec fn spec_overlaps(b: Block, board: Seq<Square>) -> bool {
    exists|i: int| 0 <= i < 4 && occupied(
        board,
        (#[trigger] b.squares@[i]).pos.0 as int,
        b.squares@[i].pos.1 as int,
    )
}

/// Every square of the block is inside the side walls and above the floor.
/// There is no upper limit: rows above the visible board are legal.
pub open spec fn spec_in_bounds(b: Block) -> bool {
    forall|i: int| 0 <= i < 4 ==> 0 <= (#[trigger] b.squares@[i]).pos.0 < X_SQUARES as int
        && b.squares@[i].pos.1 < Y_SQUARES as int
}

/// A block may occupy its position iff it overlaps nothing settled and
/// stays in bounds.
pub open spec fn spec_is_valid(b: Block, board: Seq<Square>) -> bool {
    !spec_overlaps(b, board) && spec_in_bounds(b)
}

/// The lowest settled row at or below row `y` in column `x` — the smallest
/// such row number, rows growing downward — or the floor `Y_SQUARES` if the
/// column is clear from `y` down.
pub open spec fn spec_lowest(board: Seq<Square>, x: i8, y: i8) -> int
    decreases board.len(),
{
    if board.len() == 0 {
        Y_SQUARES as int
    } else {
        let rest = spec_lowest(board.drop_last(), x, y);
        let s = board.last();
        if s.pos.0 == x && s.pos.1 >= y && s.pos.1 <= rest {
            s.pos.1 as int
        } else {
            rest
        }
    }
}

/// What `spec_lowest` finds: a value no greater than the floor, no greater
/// than any settled row at or below `y` in the column, and either the floor
/// itself or the row of some settled square there.
pub proof fn lemma_lowest(board: Seq<Square>, x: i8, y: i8)
    ensures
        spec_lowest(board, x, y) <= Y_SQUARES as int,
        spec_lowest(board, x, y) == Y_SQUARES as int || y <= spec_lowest(board, x, y),
        forall|j: int| 0 <= j < board.len() && (#[trigger] board[j]).pos.0 == x && board[j].pos.1
            >= y ==> spec_lowest(board, x, y) <= board[j].pos.1,
        spec_lowest(board, x, y) == Y_SQUARES as int || exists|j: int| 0 <= j < board.len() && (
        #[trigger] board[j]).pos.0 == x && board[j].pos.1 == spec_lowest(board, x, y),
    decreases board.len(),
{
    if board.len() > 0 {
        lemma_lowest(board.drop_last(), x, y);
        assert forall|j: int| 0 <= j < board.len() && (#[trigger] board[j]).pos.0 == x
            && board[j].pos.1 >= y implies spec_lowest(board, x, y) <= board[j].pos.1 by {
            if j < board.len() - 1 {
                assert(board[j] == board.drop_last()[j]);
            }
        }
    }
}

fn square_occupied(board: &[Square], x: i8, y: i8) -> (r: bool)
    ensures
        r == occupied(board@, x as int, y as int),
{
    let mut j: usize = 0;
    while j < board.len()
        invariant
            0 <= j <= board@.len(),
            forall|k: int| 0 <= k < j ==> !((#[trigger] board@[k]).pos.0 == x && board@[k].pos.1
                == y),
        decreases board@.len() - j,
    {
        if board[j].pos.0 == x && board[j].pos.1 == y {
            assert(occupied(board@, x as int, y as int));
            return true;
        }
        j = j + 1;
    }
    false
}

fn in_bounds_square(s: &Square) -> (r: bool)
    ensures
        r == (0 <= s.pos.0 < X_SQUARES as int && s.pos.1 < Y_SQUARES as int),
{
    !(s.pos.0 < 0 || s.pos.0 >= X_SQUARES || s.pos.1 >= Y_SQUARES)
}

/// The running minimum of the first `n` squares' fall distances, seeded
/// with `Y_SQUARES + 5`, a value larger than any possible clearance.
pub open spec fn drop_fold(b: Block, board: Seq<Square>, n: int) -> int
    decreases n,
{
    if n <= 0 {
        Y_SQUARES as int + 5
    } else {
        let prev = drop_fold(b, board, n - 1);
        let s = b.squares@[n - 1];
        let d = spec_lowest(board, s.pos.0, s.pos.1) - s.pos.1;
        if d < prev {
            d
        } else {
            prev
        }
    }
}

/// The drop distance of a block: the tightest per-square clearance, minus
/// one so the block stops on top of whatever it found.
pub open spec fn spec_max_drop(b: Block, board: Seq<Square>) -> int {
    drop_fold(b, board, 4) - 1
}

/// The drop distance never exceeds any square's own clearance (minus one),
/// nor the fold's seed, and it equals one of those.
pub proof fn lemma_max_drop_le(b: Block, board: Seq<Square>)
    ensures
        forall|i: int| 0 <= i < 4 ==> spec_max_drop(b, board) <= spec_lowest(
            board,
            (#[trigger] b.squares@[i]).pos.0,
            b.squares@[i].pos.1,
        ) - b.squares@[i].pos.1 - 1,
        spec_max_drop(b, board) <= Y_SQUARES as int + 4,
        spec_max_drop(b, board) == Y_SQUARES as int + 4 || exists|i: int| 0 <= i < 4
            && spec_max_drop(b, board) == spec_lowest(
            board,
            (#[trigger] b.squares@[i]).pos.0,
            b.squares@[i].pos.1,
        ) - b.squares@[i].pos.1 - 1,
{
    let f0 = drop_fold(b, board, 0);
    let f1 = drop_fold(b, board, 1);
    let f2 = drop_fold(b, board, 2);
    let f3 = drop_fold(b, board, 3);
    let f4 = drop_fold(b, board, 4);
    assert(f0 == Y_SQUARES as int + 5);
    assert forall|i: int| 0 <= i < 4 implies spec_max_drop(b, board) <= spec_lowest(
        board,
        (#[trigger] b.squares@[i]).pos.0,
        b.squares@[i].pos.1,
    ) - b.squares@[i].pos.1 - 1 by {
        assert(i == 0 || i == 1 || i == 2 || i == 3);
    }
}

/// What one rotation does: the kind keeps, the orientation advances along
/// the kind's cycle, and the new shape is placed at the anchor derived
/// from the old block's first square's column and second square's row,
/// nudged horizontally by the kind's fixed rotation shift.
pub open spec fn rotate_transition(pre: Block, post: Block) -> bool {
    &&& post.blocktype == pre.blocktype
    &&& post.orientation == next_orientation(pre.blocktype, pre.orientation)
    &&& block_at(
        post,
        pre.blocktype,
        next_orientation(pre.blocktype, pre.orientation),
        rotate_dx(pre.blocktype, pre.orientation) + pre.squares@[0].pos.0,
        pre.squares@[1].pos.1 as int,
    )
    &&& block_colored(post)
}

/// How many rotations close each kind's orientation cycle.
pub open spec fn cycle_len(t: BlockType) -> int {
    match t {
        BlockType::Square => 1,
        BlockType::Line => 2,
        BlockType::S => 2,
        BlockType::Z => 2,
        _ => 4,
    }
}

/// How many rows a full pass around the rotation cycle drifts a block
/// downward: zero only for the square.
pub open spec fn cycle_drift(t: BlockType) -> int {
    match t {
        BlockType::Square => 0,
        BlockType::Line => 1,
        BlockType::S => 1,
        BlockType::Z => 1,
        BlockType::T => 3,
        _ => 2,
    }
}

/// A full pass around a kind's rotation cycle restores the upright shape
/// in the same columns, shifted down by the kind's fixed drift. The square
/// piece alone is restored exactly (its drift is zero); the re-anchoring
/// convention walks every other kind downward by one to three rows per
/// cycle, which gravity masks in play.
pub proof fn lemma_rotation_cycle(
    b0: Block,
    b1: Block,
    b2: Block,
    b3: Block,
    b4: Block,
    ax: int,
    ay: int,
)
    requires
        b0.orientation == Orientation::Up,
        block_at(b0, b0.blocktype, Orientation::Up, ax, ay),
        rotate_transition(b0, b1),
        rotate_transition(b1, b2),
        rotate_transition(b2, b3),
        rotate_transition(b3, b4),
    ensures
        cycle_len(b0.blocktype) == 1 ==> b1.orientation == Orientation::Up && block_at(
            b1,
            b0.blocktype,
            Orientation::Up,
            ax,
            ay,
        ),
        cycle_len(b0.blocktype) == 2 ==> b2.orientation == Orientation::Up && block_at(
            b2,
            b0.blocktype,
            Orientation::Up,
            ax,
            ay + cycle_drift(b0.blocktype),
        ),
        cycle_len(b0.blocktype) == 4 ==> b4.orientation == Orientation::Up && block_at(
            b4,
            b0.blocktype,
            Orientation::Up,
            ax,
            ay + cycle_drift(b0.blocktype),
        ),
{
    assert(b0.squares@[0].pos.0 == spec_offsets(b0.blocktype, Orientation::Up)[0].0 + ax);
    assert(b0.squares@[1].pos.1 == spec_offsets(b0.blocktype, Orientation::Up)[1].1 + ay);
    assert(b1.squares@[0].pos.0 == spec_offsets(b1.blocktype, b1.orientation)[0].0 + rotate_dx(
        b0.blocktype,
        b0.orientation,
    ) + b0.squares@[0].pos.0);
    assert(b1.squares@[1].pos.1 == spec_offsets(b1.blocktype, b1.orientation)[1].1
        + b0.squares@[1].pos.1);
    assert(b2.squares@[0].pos.0 == spec_offsets(b2.blocktype, b2.orientation)[0].0 + rotate_dx(
        b1.blocktype,
        b1.orientation,
    ) + b1.squares@[0].pos.0);
    assert(b2.squares@[1].pos.1 == spec_offsets(b2.blocktype, b2.orientation)[1].1
        + b1.squares@[1].pos.1);
    assert(b3.squares@[0].pos.0 == spec_offsets(b3.blocktype, b3.orientation)[0].0 + rotate_dx(
        b2.blocktype,
        b2.orientation,
    ) + b2.squares@[0].pos.0);
    assert(b3.squares@[1].pos.1 == spec_offsets(b3.blocktype, b3.orientation)[1].1
        + b2.squares@[1].pos.1);
}

/// The highest-numbered (lowest on screen) row any square of the block
/// occupies.
pub open spec fn cells_max_y(b: Block) -> int {
    let y0 = b.squares@[0].pos.1 as int;
    let y1 = b.squares@[1].pos.1 as int;
    let y2 = b.squares@[2].pos.1 as int;
    let y3 = b.squares@[3].pos.1 as int;
    let m01 = if y1 > y0 {
        y1
    } else {
        y0
    };
    let m012 = if y2 > m01 {
        y2
    } else {
        m01
    };
    if y3 > m012 {
        y3
    } else {
        m012
    }
}

/// On an empty board the drop distance is the floor row minus the block's
/// lowest square's row, minus one: the block lands with that square on the
/// bottom row.
pub proof fn lemma_max_drop_empty(b: Block)
    requires
        cells_max_y(b) >= -5,
    ensures
        spec_max_drop(b, Seq::<Square>::empty()) == Y_SQUARES as int - cells_max_y(b) - 1,
{
    let board = Seq::<Square>::empty();
    assert(spec_lowest(board, b.squares@[0].pos.0, b.squares@[0].pos.1) == Y_SQUARES as int);
    assert(spec_lowest(board, b.squares@[1].pos.0, b.squares@[1].pos.1) == Y_SQUARES as int);
    assert(spec_lowest(board, b.squares@[2].pos.0, b.squares@[2].pos.1) == Y_SQUARES as int);
    assert(spec_lowest(board, b.squares@[3].pos.0, b.squares@[3].pos.1) == Y_SQUARES as int);
    assert(drop_fold(b, board, 0) == Y_SQUARES as int + 5);
    let f1 = drop_fold(b, board, 1);
    let f2 = drop_fold(b, board, 2);
    let f3 = drop_fold(b, board, 3);
    assert(drop_fold(b, board, 4) == Y_SQUARES as int - cells_max_y(b));
}

fn block_from_squares(blocktype: BlockType, orientation: Orientation, squares: [(i8, i8); 4]) -> (b:
    Block)
    ensures
        b.blocktype == blocktype,
        b.orientation == orientation,
        forall|i: int| 0 <= i < 4 ==> (#[trigger] b.squares@[i]).pos == squares@[i],
        block_colored(b),
{
    let c = color(blocktype);
    Block {
        squares: [
            Square::new(squares[0].0, squares[0].1, c),
            Square::new(squares[1].0, squares[1].1, c),
            Square::new(squares[2].0, squares[2].1, c),
            Square::new(squares[3].0, squares[3].1, c),
        ],
        blocktype,
        orientation,
    }
}

impl Block {
    /// Instantiates a kind at a reachable orientation, with its squares at
    /// the table's relative offsets.
    pub fn new(blocktype: BlockType, orientation: Orientation) -> (b: Block)
        requires
            reachable(blocktype, orientation),
        ensures
            b.blocktype == blocktype,
            b.orientation == orientation,
            block_at(b, blocktype, orientation, 0, 0),
            block_colored(b),
    {
        match (blocktype, orientation) {
            (BlockType::Line, Orientation::Up) => block_from_squares(
                blocktype,
                orientation,
                [(0, 0), (0, 1), (0, 2), (0, 3)],
            ),
            (BlockType::Line, Orientation::Left) => block_from_squares(
                blocktype,
                orientation,
                [(0, 0), (1, 0), (2, 0), (3, 0)],
            ),
            (BlockType::Square, Orientation::Up) => block_from_squares(
                blocktype,
                orientation,
                [(0, 0), (1, 0), (0, 1), (1, 1)],
            ),
            (BlockType::L, Orientation::Up) => block_from_squares(
                blocktype,
                orientation,
                [(0, 0), (0, 1), (0, 2), (1, 2)],
            ),
            (BlockType::L, Orientation::Right) => block_from_squares(
                blocktype,
                orientation,
                [(0, 0), (1, 0), (2, 0), (0, 1)],
            ),
            (BlockType::L, Orientation::Down) => block_from_squares(
                blocktype,
                orientation,
                [(0, 0), (1, 0), (1, 1), (1, 2)],
            ),
            (BlockType::L, Orientation::Left) => block_from_squares(
                blocktype,
                orientation,
                [(2, 0), (0, 1), (1, 1), (2, 1)],
            ),
            (BlockType::ReverseL, Orientation::Up) => block_from_squares(
                blocktype,
                orientation,
                [(1, 0), (1, 1), (0, 2), (1, 2)],
            ),
            (BlockType::ReverseL, Orientation::Right) => block_from_squares(
                blocktype,
                orientation,
                [(0, 0), (0, 1), (1, 1), (2, 1)],
            ),
            (BlockType::ReverseL, Orientation::Down) => block_from_squares(
                blocktype,
                orientation,
                [(0, 0), (1, 0), (0, 1), (0, 2)],
            ),
            (BlockType::ReverseL, Orientation::Left) => block_from_squares(
                blocktype,
                orientation,
                [(0, 0), (1, 0), (2, 0), (2, 1)],
            ),
            (BlockType::S, Orientation::Up) => block_from_squares(
                blocktype,
                orientation,
                [(0, 0), (0, 1), (1, 1), (1, 2)],
            ),
            (BlockType::S, Orientation::Left) => block_from_squares(
                blocktype,
                orientation,
                [(1, 0), (2, 0), (0, 1), (1, 1)],
            ),
            (BlockType::Z, Orientation::Up) => block_from_squares(
                blocktype,
                orientation,
                [(1, 0), (0, 1), (1, 1), (0, 2)],
            ),
            (BlockType::Z, Orientation::Left) => block_from_squares(
                blocktype,
                orientation,
                [(0, 0), (1, 0), (1, 1), (2, 1)],
            ),
            (BlockType::T, Orientation::Up) => block_from_squares(
                blocktype,
                orientation,
                [(1, 0), (0, 1), (1, 1), (2, 1)],
            ),
            (BlockType::T, Orientation::Right) => block_from_squares(
                blocktype,
                orientation,
                [(0, 0), (0, 1), (1, 1), (0, 2)],
            ),
            (BlockType::T, Orientation::Down) => block_from_squares(
                blocktype,
                orientation,
                [(0, 0), (1, 0), (2, 0), (1, 1)],
            ),
            (BlockType::T, Orientation::Left) => block_from_squares(
                blocktype,
                orientation,
                [(1, 0), (0, 1), (1, 1), (1, 2)],
            ),
            _ => {
                assert(false);
                block_from_squares(blocktype, orientation, [(0, 0), (0, 0), (0, 0), (0, 0)])
            },
        }
    }

    /// Advances the block to the next orientation of its kind's rotation
    /// cycle, re-anchored so the new shape lines up with the old one: the
    /// anchor x comes from the first square and the anchor y from the
    /// second, as the shape table is laid out to expect.
    ///
    /// No validity check of any sort: the result may overlap settled cells
    /// or leave the board; `GameState::spin` corrects horizontal overflow
    /// only.
    pub fn rotate(&self) -> (b: Block)
        requires
            reachable(self.blocktype, self.orientation),
            -100 <= self.squares@[0].pos.0 <= 100,
            -100 <= self.squares@[1].pos.1 <= 100,
        ensures
            rotate_transition(*self, b),
    {
        let (next, dx): (Orientation, i8) = match (self.blocktype, self.orientation) {
            (BlockType::Line, Orientation::Left) => (Orientation::Up, 2),
            (BlockType::Line, Orientation::Up) => (Orientation::Left, -2),
            (BlockType::Square, Orientation::Up) => (Orientation::Up, 0),
            (BlockType::L, Orientation::Up) => (Orientation::Right, 0),
            (BlockType::L, Orientation::Right) => (Orientation::Down, 0),
            (BlockType::L, Orientation::Down) => (Orientation::Left, -1),
            (BlockType::L, Orientation::Left) => (Orientation::Up, -1),
            (BlockType::ReverseL, Orientation::Up) => (Orientation::Right, 0),
            (BlockType::ReverseL, Orientation::Right) => (Orientation::Down, 0),
            (BlockType::ReverseL, Orientation::Down) => (Orientation::Left, -1),
            (BlockType::ReverseL, Orientation::Left) => (Orientation::Up, 0),
            (BlockType::S, Orientation::Up) => (Orientation::Left, 0),
            (BlockType::S, Orientation::Left) => (Orientation::Up, -1),
            (BlockType::Z, Orientation::Up) => (Orientation::Left, 0),
            (BlockType::Z, Orientation::Left) => (Orientation::Up, -1),
            (BlockType::T, Orientation::Up) => (Orientation::Right, 0),
            (BlockType::T, Orientation::Right) => (Orientation::Down, -1),
            (BlockType::T, Orientation::Down) => (Orientation::Left, 0),
            (BlockType::T, Orientation::Left) => (Orientation::Up, -1),
            _ => {
                assert(false);
                (Orientation::Up, 0)
            },
        };
        assert(next == next_orientation(self.blocktype, self.orientation));
        assert(dx == rotate_dx(self.blocktype, self.orientation));
        assert(reachable(self.blocktype, next));
        proof {
            lemma_offsets_bounds(self.blocktype, next);
        }
        let base = Block::new(self.blocktype, next);
        let shifted = base.translate(dx, 0);
        let b = shifted.translate(self.squares[0].pos.0, self.squares[1].pos.1);
        proof {
            assert(block_at(
                b,
                self.blocktype,
                next,
                rotate_dx(self.blocktype, self.orientation) + self.squares@[0].pos.0,
                self.squares@[1].pos.1 as int,
            ));
        }
        b
    }

    /// True if any square of the block coincides with a settled square.
    pub fn overlaps(&self, board: &[Square]) -> (r: bool)
        ensures
            r == spec_overlaps(*self, board@),
    {
        let r = square_occupied(board, self.squares[0].pos.0, self.squares[0].pos.1)
            || square_occupied(board, self.squares[1].pos.0, self.squares[1].pos.1)
            || square_occupied(board, self.squares[2].pos.0, self.squares[2].pos.1)
            || square_occupied(board, self.squares[3].pos.0, self.squares[3].pos.1);
        proof {
            if r {
                assert(spec_overlaps(*self, board@));
            } else {
                assert forall|i: int| 0 <= i < 4 implies !occupied(
                    board@,
                    (#[trigger] self.squares@[i]).pos.0 as int,
                    self.squares@[i].pos.1 as int,
                ) by {
                    assert(i == 0 || i == 1 || i == 2 || i == 3);
                }
            }
        }
        r
    }

    /// True iff the block overlaps no settled square, every square is
    /// within the side walls, and none is below the floor. No check against
    /// the top: a piece may stand above the visible board.
    pub fn is_valid(&self, board: &[Square]) -> (r: bool)
        ensures
            r == spec_is_valid(*self, board@),
    {
        if self.overlaps(board) {
            return false;
        }
        let r = in_bounds_square(&self.squares[0]) && in_bounds_square(&self.squares[1])
            && in_bounds_square(&self.squares[2]) && in_bounds_square(&self.squares[3]);
        proof {
            if r {
                assert forall|i: int| 0 <= i < 4 implies 0 <= (#[trigger] self.squares@[i]).pos.0
                    < X_SQUARES as int && self.squares@[i].pos.1 < Y_SQUARES as int by {
                    assert(i == 0 || i == 1 || i == 2 || i == 3);
                }
            }
        }
        r
    }

    /// The largest downward translation that keeps every square's column
    /// clear of settled cells and the floor: one less than the tightest
    /// per-column clearance.
    pub fn max_drop(&self, board: &[Square]) -> (r: i8)
        requires
            forall|i: int| 0 <= i < 4 ==> -100 <= (#[trigger] self.squares@[i]).pos.1 <= 100,
        ensures
            r == spec_max_drop(*self, board@),
    {
        proof {
            lemma_lowest(board@, self.squares@[0].pos.0, self.squares@[0].pos.1);
            lemma_lowest(board@, self.squares@[1].pos.0, self.squares@[1].pos.1);
            lemma_lowest(board@, self.squares@[2].pos.0, self.squares@[2].pos.1);
            lemma_lowest(board@, self.squares@[3].pos.0, self.squares@[3].pos.1);
            assert(drop_fold(*self, board@, 0) == Y_SQUARES as int + 5);
        }
        let mut max_dist: i8 = Y_SQUARES + 5;
        let d0 = self.squares[0].max_y_translate(board);
        if d0 < max_dist {
            max_dist = d0;
        }
        assert(max_dist == drop_fold(*self, board@, 1));
        let d1 = self.squares[1].max_y_translate(board);
        if d1 < max_dist {
            max_dist = d1;
        }
        assert(max_dist == drop_fold(*self, board@, 2));
        let d2 = self.squares[2].max_y_translate(board);
        if d2 < max_dist {
            max_dist = d2;
        }
        assert(max_dist == drop_fold(*self, board@, 3));
        let d3 = self.squares[3].max_y_translate(board);
        if d3 < max_dist {
            max_dist = d3;
        }
        assert(max_dist == drop_fold(*self, board@, 4));
        max_dist - 1
    }

    /// Returns a copy of the block with every square shifted by `(x, y)`.
    pub fn translate(&self, x: i8, y: i8) -> (b: Block)
        requires
            forall|i: int| 0 <= i < 4 ==> i8::MIN <= (#[trigger] self.squares@[i]).pos.0 + x
                <= i8::MAX && i8::MIN <= self.squares@[i].pos.1 + y <= i8::MAX,
        ensures
            b.blocktype == self.blocktype,
            b.orientation == self.orientation,
            forall|i: int| 0 <= i < 4 ==> (#[trigger] b.squares@[i]).pos.0 == self.squares@[i].pos.0
                + x && b.squares@[i].pos.1 == self.squares@[i].pos.1 + y && b.squares@[i].color
                == self.squares@[i].color,
    {
        Block {
            squares: [
                self.squares[0].translate(x, y),
                self.squares[1].translate(x, y),
                self.squares[2].translate(x, y),
                self.squares[3].translate(x, y),
            ],
            blocktype: self.blocktype,
            orientation: self.orientation,
        }
    }
}

} // verus!
