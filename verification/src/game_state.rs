//! The game engine: the settled board, the falling block, the bag-based
//! piece sequencer, hold/swap, gravity ticks, locking and line clearing.

use vstd::prelude::*;

use crate::block::{
    block_at, block_colored, kind_reachable_up, next_orientation, occupied, reachable, rotate_dx,
    spec_is_valid, spec_lowest, spec_max_drop, Block, BlockType, Orientation, Square,
};
use crate::consts::{TICK_INTERVAL, X_SQUARES, Y_SQUARES};
use crate::signal::{GameOverData, Signal, SignalState};

verus! {

/// How many times `v` occurs in `s`.
pub open spec fn count_of(s: Seq<usize>, v: usize) -> nat
    decreases s.len(),
{
    if s.len() == 0 {
        0
    } else {
        count_of(s.drop_last(), v) + if s.last() == v {
            1nat
        } else {
            0nat
        }
    }
}

/// A bag: the seven kind indices in some order, each exactly once.
pub open spec fn is_bag(s: Seq<usize>) -> bool {
    s.len() == 7 && (forall|k: usize| k < 7 ==> count_of(s, k) == 1) && (forall|i: int|
        0 <= i < s.len() ==> (#[trigger] s[i]) < 7)
}

/// Two bags back to back: the shape of a piece queue. Any run of seven
/// draws aligned to a bag boundary hits every kind exactly once.
pub open spec fn bag_pair(s: Seq<usize>) -> bool {
    s.len() == 14 && is_bag(s.subrange(0, 7)) && is_bag(s.subrange(7, 14))
}

/// An element of a sequence is counted at least once.
proof fn lemma_count_positive(s: Seq<usize>, i: int)
    requires
        0 <= i < s.len(),
    ensures
        count_of(s, s[i]) >= 1,
    decreases s.len(),
{
    if i < s.len() - 1 {
        lemma_count_positive(s.drop_last(), i);
        assert(s.drop_last()[i] == s[i]);
    }
}

/// A value no element equals is counted zero times.
proof fn lemma_count_zero(s: Seq<usize>, v: usize)
    requires
        forall|i: int| 0 <= i < s.len() ==> (#[trigger] s[i]) != v,
    ensures
        count_of(s, v) == 0,
    decreases s.len(),
{
    if s.len() > 0 {
        assert(forall|i: int| 0 <= i < s.len() - 1 ==> s.drop_last()[i] == #[trigger] s[i]);
        assert(forall|i: int| 0 <= i < s.drop_last().len() ==> (#[trigger] s.drop_last()[i]) != v);
        lemma_count_zero(s.drop_last(), v);
    }
}

/// Appending one element adds one to its count and nothing else's.
proof fn lemma_count_push(s: Seq<usize>, x: usize)
    ensures
        forall|k: usize| count_of(#[trigger] s.push(x), k) == count_of(s, k) + if k == x {
            1nat
        } else {
            0nat
        },
{
    assert forall|k: usize| count_of(#[trigger] s.push(x), k) == count_of(s, k) + (if k == x {
        1nat
    } else {
        0nat
    }) by {
        assert(s.push(x).drop_last() =~= s);
        assert(s.push(x).last() == x);
    }
}

/// Relies on rand's slice `shuffle` (the `rand::seq::SliceRandom` trait):
/// a Fisher-Yates shuffle that permutes the elements in place, neither
/// adding, removing nor changing any. Which order comes out is random, so
/// nothing is assumed beyond the counts being kept.
#[verifier::external_body]
fn shuffle_in_place(v: &mut Vec<usize>)
    ensures
        final(v)@.len() == old(v)@.len(),
        forall|x: usize| count_of(final(v)@, x) == count_of(old(v)@, x),
{
    rand::seq::SliceRandom::shuffle(v.as_mut_slice(), &mut rand::rng());
}

/// One freshly shuffled bag of the seven kind indices.
fn fresh_bag() -> (b: Vec<usize>)
    ensures
        is_bag(b@),
{
    let mut v: Vec<usize> = Vec::new();
    let ghost s0 = v@;
    v.push(0);
    let ghost s1 = v@;
    v.push(1);
    let ghost s2 = v@;
    v.push(2);
    let ghost s3 = v@;
    v.push(3);
    let ghost s4 = v@;
    v.push(4);
    let ghost s5 = v@;
    v.push(5);
    let ghost s6 = v@;
    v.push(6);
    proof {
        lemma_count_push(s0, 0);
        lemma_count_push(s1, 1);
        lemma_count_push(s2, 2);
        lemma_count_push(s3, 3);
        lemma_count_push(s4, 4);
        lemma_count_push(s5, 5);
        lemma_count_push(s6, 6);
        assert(forall|k: usize| count_of(s0, k) == 0);
        assert(is_bag(v@));
    }
    let ghost before = v@;
    shuffle_in_place(&mut v);
    proof {
        assert forall|i: int| 0 <= i < v@.len() implies (#[trigger] v@[i]) < 7 by {
            lemma_count_positive(v@, i);
            if v@[i] >= 7 {
                lemma_count_zero(before, v@[i]);
            }
        }
        assert(is_bag(v@));
    }
    v
}

/// Two freshly shuffled bags back to back: a full 14-entry queue.
pub fn generate_queue() -> (q: Vec<usize>)
    ensures
        bag_pair(q@),
{
    let mut q = fresh_bag();
    let mut second = fresh_bag();
    let ghost first_view = q@;
    let ghost second_view = second@;
    q.append(&mut second);
    proof {
        assert(q@.subrange(0, 7) =~= first_view);
        assert(q@.subrange(7, 14) =~= second_view);
    }
    q
}

/// The kind a queue index stands for.
pub open spec fn kind_of(i: usize) -> BlockType {
    if i == 0 {
        BlockType::Line
    } else if i == 1 {
        BlockType::Square
    } else if i == 2 {
        BlockType::L
    } else if i == 3 {
        BlockType::ReverseL
    } else if i == 4 {
        BlockType::S
    } else if i == 5 {
        BlockType::Z
    } else {
        BlockType::T
    }
}

/// Maps a queue index to its kind.
fn type_at(i: usize) -> (t: BlockType)
    requires
        i < 7,
    ensures
        t == kind_of(i),
{
    match i {
        0 => BlockType::Line,
        1 => BlockType::Square,
        2 => BlockType::L,
        3 => BlockType::ReverseL,
        4 => BlockType::S,
        5 => BlockType::Z,
        _ => BlockType::T,
    }
}

/// The block is some table shape at some board anchor.
pub open spec fn block_shaped(b: Block) -> bool {
    exists|dx: int, dy: int| block_at(b, b.blocktype, b.orientation, dx, dy)
}

/// What the engine keeps true of its falling block: a reachable, correctly
/// colored table shape whose columns lie inside the walls. Rows are not
/// bounded: a block may stand above the board, and an uncorrected rotation
/// may push one below it.
pub open spec fn block_ok(b: Block) -> bool {
    &&& reachable(b.blocktype, b.orientation)
    &&& block_colored(b)
    &&& block_shaped(b)
    &&& forall|i: int| 0 <= i < 4 ==> 0 <= (#[trigger] b.squares@[i]).pos.0 < X_SQUARES as int
}

/// What the engine keeps true of settled squares: inside the walls and not
/// above the visible board (locking above it ends the game instead).
pub open spec fn board_ok(board: Seq<Square>) -> bool {
    forall|j: int| 0 <= j < board.len() ==> 0 <= (#[trigger] board[j]).pos.0 < X_SQUARES as int
        && 0 <= board[j].pos.1
}

/// The whole engine state: settled squares, the falling block, the
/// double-buffered piece queue, the hold slot, and the counters.
pub struct GameState {
    /// The settled squares of the board.
    pub squares: Vec<Square>,
    /// The falling block.
    pub current_block: Block,
    /// Frames since the last gravity tick.
    pub update_timer: usize,
    /// The kind stashed by the hold command, if any.
    pub held_block: Option<BlockType>,
    /// The queue being drawn from: two bags of kind indices.
    pub queue: Vec<usize>,
    /// The cursor into `queue`.
    pub block_index: usize,
    /// Whether hold was already used since the last lock.
    pub used_hold: bool,
    /// The pre-shuffled queue that replaces `queue` when it runs out, kept
    /// ready so a preview can read past the end of `queue` seamlessly.
    pub queued_queue: Vec<usize>,
    /// Rows cleared so far.
    pub lines: usize,
    /// Frames elapsed since the game started.
    pub frames: usize,
    /// Signals for the flow layer, in the order they were emitted.
    pub signals: Vec<Signal>,
}

impl GameState {
    /// The engine's invariant, established by `new` and kept by every
    /// command and tick.
    pub open spec fn wf(self) -> bool {
        &&& bag_pair(self.queue@)
        &&& bag_pair(self.queued_queue@)
        &&& self.block_index <= 14
        &&& self.update_timer <= TICK_INTERVAL
        &&& block_ok(self.current_block)
        &&& board_ok(self.squares@)
    }
}

/// Every row of the block lies in [-100, 100]: room enough for all the
/// engine's coordinate arithmetic. Kept by the caller, not by the engine:
/// rotating forever next to the floor drifts a block downward without
/// bound, as nothing checks a rotation.
pub open spec fn block_y_in_range(b: Block) -> bool {
    forall|i: int| 0 <= i < 4 ==> -100 <= (#[trigger] b.squares@[i]).pos.1 <= 100
}

/// Everything except the falling block and the tick timer is unchanged.
pub open spec fn unchanged_except_block_and_timer(pre: GameState, post: GameState) -> bool {
    &&& post.squares == pre.squares
    &&& post.held_block == pre.held_block
    &&& post.queue == pre.queue
    &&& post.block_index == pre.block_index
    &&& post.used_hold == pre.used_hold
    &&& post.queued_queue == pre.queued_queue
    &&& post.lines == pre.lines
    &&& post.frames == pre.frames
    &&& post.signals == pre.signals
}

/// Everything except the falling block is unchanged.
pub open spec fn unchanged_except_block(pre: GameState, post: GameState) -> bool {
    unchanged_except_block_and_timer(pre, post) && post.update_timer == pre.update_timer
}

/// The block shifted by `(dx, dy)` would overlap nothing settled and stay
/// inside the walls and above the floor.
pub open spec fn translated_ok(b: Block, dx: int, dy: int, board: Seq<Square>) -> bool {
    forall|i: int| 0 <= i < 4 ==> 0 <= (#[trigger] b.squares@[i]).pos.0 + dx < X_SQUARES as int
        && b.squares@[i].pos.1 + dy < Y_SQUARES as int && !occupied(
        board,
        b.squares@[i].pos.0 + dx,
        b.squares@[i].pos.1 + dy,
    )
}

/// `post` is `pre` shifted by `(dx, dy)`: same kind, orientation and
/// colors, every square moved by the same amount.
pub open spec fn block_moved(pre: Block, post: Block, dx: int, dy: int) -> bool {
    &&& post.blocktype == pre.blocktype
    &&& post.orientation == pre.orientation
    &&& forall|i: int| 0 <= i < 4 ==> (#[trigger] post.squares@[i]).pos.0 == pre.squares@[i].pos.0
        + dx && post.squares@[i].pos.1 == pre.squares@[i].pos.1 + dy && post.squares@[i].color
        == pre.squares@[i].color
}

/// A shifted block is valid exactly when the shift was admissible from
/// where it stood.
proof fn lemma_valid_translated(pre: Block, post: Block, dx: int, dy: int, board: Seq<Square>)
    requires
        block_moved(pre, post, dx, dy),
    ensures
        spec_is_valid(post, board) == translated_ok(pre, dx, dy, board),
{
    if spec_is_valid(post, board) {
        assert forall|i: int| 0 <= i < 4 implies 0 <= (#[trigger] pre.squares@[i]).pos.0 + dx
            < X_SQUARES as int && pre.squares@[i].pos.1 + dy < Y_SQUARES as int && !occupied(
            board,
            pre.squares@[i].pos.0 + dx,
            pre.squares@[i].pos.1 + dy,
        ) by {
            assert(post.squares@[i].pos.0 == pre.squares@[i].pos.0 + dx);
            if occupied(board, pre.squares@[i].pos.0 + dx, pre.squares@[i].pos.1 + dy) {
                assert(occupied(
                    board,
                    post.squares@[i].pos.0 as int,
                    post.squares@[i].pos.1 as int,
                ));
                assert(crate::block::spec_overlaps(post, board));
            }
        }
    }
    if translated_ok(pre, dx, dy, board) {
        assert forall|i: int| 0 <= i < 4 implies 0 <= (#[trigger] post.squares@[i]).pos.0
            < X_SQUARES as int && post.squares@[i].pos.1 < Y_SQUARES as int by {
            assert(pre.squares@[i].pos.0 + dx == post.squares@[i].pos.0);
        }
        if crate::block::spec_overlaps(post, board) {
            let i = choose|i: int|
                0 <= i < 4 && occupied(
                    board,
                    (#[trigger] post.squares@[i]).pos.0 as int,
                    post.squares@[i].pos.1 as int,
                );
            assert(occupied(board, pre.squares@[i].pos.0 + dx, pre.squares@[i].pos.1 + dy));
            assert(false);
        }
        assert(spec_is_valid(post, board));
    }
}

/// What a move command does: commit the shift if the result is valid,
/// otherwise change nothing. Only the falling block may change.
pub open spec fn move_transition(pre: GameState, post: GameState, dx: int, dy: int) -> bool {
    &&& unchanged_except_block(pre, post)
    &&& if translated_ok(pre.current_block, dx, dy, pre.squares@) {
        block_moved(pre.current_block, post.current_block, dx, dy)
    } else {
        post.current_block == pre.current_block
    }
}

/// How many settled squares sit in row `y`.
pub open spec fn row_count(board: Seq<Square>, y: int) -> int
    decreases board.len(),
{
    if board.len() == 0 {
        0
    } else {
        row_count(board.drop_last(), y) + if board.last().pos.1 == y {
            1int
        } else {
            0int
        }
    }
}

/// Clearing row `y`: its squares disappear, every square above it (smaller
/// row number) falls one row, everything below stays, order kept.
pub open spec fn spec_clear_lines(board: Seq<Square>, row_y: int) -> Seq<Square>
    decreases board.len(),
{
    if board.len() == 0 {
        Seq::empty()
    } else {
        let rest = spec_clear_lines(board.drop_last(), row_y);
        let s = board.last();
        if s.pos.1 == row_y {
            rest
        } else if s.pos.1 < row_y {
            rest.push(Square { pos: (s.pos.0, (s.pos.1 + 1) as i8), color: s.color })
        } else {
            rest.push(s)
        }
    }
}

/// The board after sweeping rows `y..=to` in ascending order, clearing
/// each row found full against the board as it then stands.
pub open spec fn sweep_board(board: Seq<Square>, y: int, to: int) -> Seq<Square>
    decreases to + 1 - y,
{
    if y > to {
        board
    } else {
        let b1 = if row_count(board, y) >= X_SQUARES as int {
            spec_clear_lines(board, y)
        } else {
            board
        };
        sweep_board(b1, y + 1, to)
    }
}

/// How many rows that sweep clears.
pub open spec fn sweep_cleared(board: Seq<Square>, y: int, to: int) -> int
    decreases to + 1 - y,
{
    if y > to {
        0
    } else {
        let full = row_count(board, y) >= X_SQUARES as int;
        let b1 = if full {
            spec_clear_lines(board, y)
        } else {
            board
        };
        (if full {
            1int
        } else {
            0int
        }) + sweep_cleared(b1, y + 1, to)
    }
}

/// Appending one square steps the count of its own row and no other's.
proof fn lemma_row_count_push(s: Seq<Square>, x: Square)
    ensures
        forall|r: int| row_count(#[trigger] s.push(x), r) == row_count(s, r) + if x.pos.1 == r {
            1int
        } else {
            0int
        },
{
    assert forall|r: int| row_count(#[trigger] s.push(x), r) == row_count(s, r) + (if x.pos.1
        == r {
        1int
    } else {
        0int
    }) by {
        assert(s.push(x).drop_last() =~= s);
        assert(s.push(x).last() == x);
    }
}

/// No row holds a negative number of squares, nor more than there are.
proof fn lemma_row_count_bounds(s: Seq<Square>, r: int)
    ensures
        0 <= row_count(s, r) <= s.len(),
    decreases s.len(),
{
    if s.len() > 0 {
        lemma_row_count_bounds(s.drop_last(), r);
    }
}

/// What clearing row `y` does, row by row: the board shrinks by exactly
/// that row's squares; each row at or above the cleared one now holds what
/// the row above it held; rows below it are untouched.
pub proof fn lemma_clear_row(board: Seq<Square>, y: int)
    requires
        y <= i8::MAX,
    ensures
        spec_clear_lines(board, y).len() == board.len() - row_count(board, y),
        forall|r: int| r <= y ==> row_count(#[trigger] spec_clear_lines(board, y), r) == row_count(
            board,
            r - 1,
        ),
        forall|r: int| r > y ==> row_count(#[trigger] spec_clear_lines(board, y), r) == row_count(
            board,
            r,
        ),
    decreases board.len(),
{
    if board.len() == 0 {
        assert forall|r: int| row_count(#[trigger] spec_clear_lines(board, y), r) == 0 by {
            assert(spec_clear_lines(board, y) =~= Seq::<Square>::empty());
        }
    } else {
        lemma_clear_row(board.drop_last(), y);
        lemma_row_count_bounds(board.drop_last(), y);
        let rest = spec_clear_lines(board.drop_last(), y);
        let s = board.last();
        if s.pos.1 == y {
        } else if s.pos.1 < y {
            lemma_row_count_push(rest, Square { pos: (s.pos.0, (s.pos.1 + 1) as i8), color: s.color });
        } else {
            lemma_row_count_push(rest, s);
        }
        assert(board.drop_last().push(s) =~= board);
        lemma_row_count_push(board.drop_last(), s);
    }
}

/// How many settled squares sit exactly at `(x, y)`.
pub open spec fn cell_count(board: Seq<Square>, x: int, y: int) -> int
    decreases board.len(),
{
    if board.len() == 0 {
        0
    } else {
        cell_count(board.drop_last(), x, y) + if board.last().pos.0 == x && board.last().pos.1
            == y {
            1int
        } else {
            0int
        }
    }
}

/// No two settled squares share a position.
pub open spec fn no_duplicates(board: Seq<Square>) -> bool {
    forall|x: int, y: int| #[trigger] cell_count(board, x, y) <= 1
}

/// Appending one square steps the count of its own cell and no other's.
proof fn lemma_cell_count_push(s: Seq<Square>, q: Square)
    ensures
        forall|x: int, y: int| cell_count(#[trigger] s.push(q), x, y) == cell_count(s, x, y) + if q.pos.0
            == x && q.pos.1 == y {
            1int
        } else {
            0int
        },
{
    assert forall|x: int, y: int| cell_count(#[trigger] s.push(q), x, y) == cell_count(s, x, y) + (
    if q.pos.0 == x && q.pos.1 == y {
        1int
    } else {
        0int
    }) by {
        assert(s.push(q).drop_last() =~= s);
        assert(s.push(q).last() == q);
    }
}

/// Cell counts never go negative.
proof fn lemma_cell_count_nonneg(s: Seq<Square>, x: int, y: int)
    ensures
        0 <= cell_count(s, x, y),
    decreases s.len(),
{
    if s.len() > 0 {
        lemma_cell_count_nonneg(s.drop_last(), x, y);
    }
}

/// Cell counts add up over concatenation.
proof fn lemma_cell_count_concat(a: Seq<Square>, b: Seq<Square>)
    ensures
        forall|x: int, y: int| #[trigger] cell_count(a + b, x, y) == cell_count(a, x, y)
            + cell_count(b, x, y),
    decreases b.len(),
{
    if b.len() == 0 {
        assert forall|x: int, y: int| #[trigger] cell_count(a + b, x, y) == cell_count(a, x, y)
            + cell_count(b, x, y) by {
            assert(a + b =~= a);
        }
    } else {
        lemma_cell_count_concat(a, b.drop_last());
        lemma_cell_count_push(a + b.drop_last(), b.last());
        lemma_cell_count_push(b.drop_last(), b.last());
        assert forall|x: int, y: int| #[trigger] cell_count(a + b, x, y) == cell_count(a, x, y)
            + cell_count(b, x, y) by {
            assert(a + b =~= (a + b.drop_last()).push(b.last()));
            assert(b =~= b.drop_last().push(b.last()));
        }
    }
}

/// A cell no square sits on is counted zero times.
proof fn lemma_cell_count_zero(s: Seq<Square>, x: int, y: int)
    requires
        !occupied(s, x, y),
    ensures
        cell_count(s, x, y) == 0,
    decreases s.len(),
{
    if s.len() > 0 {
        assert(forall|j: int| 0 <= j < s.len() - 1 ==> s.drop_last()[j] == #[trigger] s[j]);
        assert(!occupied(s.drop_last(), x, y));
        lemma_cell_count_zero(s.drop_last(), x, y);
        assert(s.last() == s[s.len() - 1]);
    }
}

/// Clearing a row moves each cell's count down from the row above (at and
/// below the cleared row) and keeps the rest, so distinctness is kept.
proof fn lemma_clear_preserves_no_duplicates(board: Seq<Square>, row_y: int)
    requires
        no_duplicates(board),
        row_y <= i8::MAX,
    ensures
        no_duplicates(spec_clear_lines(board, row_y)),
{
    assert forall|x: int, y: int| #[trigger] cell_count(
        spec_clear_lines(board, row_y),
        x,
        y,
    ) <= 1 by {
        lemma_clear_cell_source(board, row_y, x, y);
        assert(cell_count(board, x, y - 1) <= 1);
        assert(cell_count(board, x, y) <= 1);
    }
}

/// Where a cleared board's cell counts come from: the row above for rows
/// at or below the cleared one, the same row otherwise.
proof fn lemma_clear_cell_source(board: Seq<Square>, row_y: int, x: int, y: int)
    requires
        row_y <= i8::MAX,
    ensures
        y <= row_y ==> cell_count(spec_clear_lines(board, row_y), x, y) == cell_count(
            board,
            x,
            y - 1,
        ),
        y > row_y ==> cell_count(spec_clear_lines(board, row_y), x, y) == cell_count(board, x, y),
    decreases board.len(),
{
    if board.len() > 0 {
        lemma_clear_cell_source(board.drop_last(), row_y, x, y);
        let rest = spec_clear_lines(board.drop_last(), row_y);
        let s = board.last();
        assert(board.drop_last().push(s) =~= board);
        lemma_cell_count_push(board.drop_last(), s);
        if s.pos.1 == row_y {
        } else if s.pos.1 < row_y {
            lemma_cell_count_push(rest, Square { pos: (s.pos.0, (s.pos.1 + 1) as i8), color: s.color });
        } else {
            lemma_cell_count_push(rest, s);
        }
    }
}

/// A sweep keeps distinct positions distinct.
proof fn lemma_sweep_preserves_no_duplicates(board: Seq<Square>, y: int, to: int)
    requires
        no_duplicates(board),
        to <= i8::MAX,
    ensures
        no_duplicates(sweep_board(board, y, to)),
    decreases to + 1 - y,
{
    if y <= to {
        let b1 = if row_count(board, y) >= X_SQUARES as int {
            spec_clear_lines(board, y)
        } else {
            board
        };
        if row_count(board, y) >= X_SQUARES as int {
            lemma_clear_preserves_no_duplicates(board, y);
        }
        lemma_sweep_preserves_no_duplicates(b1, y + 1, to);
    }
}

/// The board invariant of ordinary play: as long as the block being locked
/// overlaps nothing — which holds whenever rotation never committed an
/// overlap — the settled squares keep covering pairwise distinct cells
/// through every lock and clear.
pub proof fn lemma_lock_keeps_distinct_cells(pre: GameState, post: GameState)
    requires
        pre.wf(),
        no_duplicates(pre.squares@),
        !crate::block::spec_overlaps(pre.current_block, pre.squares@),
        block_y_in_range(pre.current_block),
        lock_fields(pre, post),
    ensures
        no_duplicates(post.squares@),
{
    let b = pre.current_block;
    let merged = pre.squares@ + b.squares@;
    let (adx, ady) = choose|adx: int, ady: int| block_at(b, b.blocktype, b.orientation, adx, ady);
    crate::block::lemma_block_cells_distinct(b, adx, ady);
    lemma_cell_count_concat(pre.squares@, b.squares@);
    assert forall|x: int, y: int| #[trigger] cell_count(merged, x, y) <= 1 by {
        lemma_cell_count_nonneg(pre.squares@, x, y);
        lemma_cell_count_nonneg(b.squares@, x, y);
        lemma_block_seq_cell_count(b, x, y);
        if cell_count(b.squares@, x, y) >= 1 {
            // the block sits there, so the settled board does not
            assert(occupied(b.squares@, x, y));
            let j = choose|j: int|
                0 <= j < b.squares@.len() && (#[trigger] b.squares@[j]).pos.0 == x
                    && b.squares@[j].pos.1 == y;
            if occupied(pre.squares@, x, y) {
                assert(crate::block::spec_overlaps(b, pre.squares@));
            }
            lemma_cell_count_zero(pre.squares@, x, y);
        }
    }
    lemma_minmax_bounds(b.squares@, 4);
    lemma_sweep_preserves_no_duplicates(
        merged,
        min_y_fold(b.squares@, 4),
        max_y_fold(b.squares@, 4),
    );
}

/// A block's four squares, as a sequence, cover no cell twice, and a
/// positive count means one of them sits there.
proof fn lemma_block_seq_cell_count(b: Block, x: int, y: int)
    requires
        forall|i: int, j: int| 0 <= i < 4 && 0 <= j < 4 && i != j ==> (#[trigger] b.squares@[i]).pos
            != (#[trigger] b.squares@[j]).pos,
    ensures
        cell_count(b.squares@, x, y) <= 1,
        cell_count(b.squares@, x, y) >= 1 ==> occupied(b.squares@, x, y),
{
    let s = b.squares@;
    let s3 = s.drop_last();
    let s2 = s3.drop_last();
    let s1 = s2.drop_last();
    let s0 = s1.drop_last();
    let c4 = cell_count(s, x, y);
    let c3 = cell_count(s3, x, y);
    let c2 = cell_count(s2, x, y);
    let c1 = cell_count(s1, x, y);
    let c0 = cell_count(s0, x, y);
    assert(c0 == 0);
    assert(s1.last() == s[0] && s2.last() == s[1] && s3.last() == s[2] && s.last() == s[3]);
    if c4 >= 1 {
        assert(occupied(s, x, y)) by {
            if s[0].pos.0 == x && s[0].pos.1 == y {
            } else if s[1].pos.0 == x && s[1].pos.1 == y {
            } else if s[2].pos.0 == x && s[2].pos.1 == y {
            } else {
                assert(s[3].pos.0 == x && s[3].pos.1 == y);
            }
        }
    }
}

/// Clearing a row keeps every remaining square inside the walls and below
/// the top.
proof fn lemma_clear_lines_ok(board: Seq<Square>, row_y: int)
    requires
        board_ok(board),
        row_y <= i8::MAX,
    ensures
        board_ok(spec_clear_lines(board, row_y)),
    decreases board.len(),
{
    if board.len() > 0 {
        assert(forall|j: int| 0 <= j < board.len() - 1 ==> board.drop_last()[j] == #[trigger] board[j]);
        assert(board_ok(board.drop_last()));
        lemma_clear_lines_ok(board.drop_last(), row_y);
    }
}

/// Counts the settled squares in row `y`.
fn count_row(squares: &[Square], y: i8) -> (n: usize)
    ensures
        n == row_count(squares@, y as int),
{
    let mut n: usize = 0;
    let mut j: usize = 0;
    while j < squares.len()
        invariant
            0 <= j <= squares@.len(),
            n <= j,
            n == row_count(squares@.take(j as int), y as int),
        decreases squares@.len() - j,
    {
        proof {
            assert(squares@.take(j as int + 1).drop_last() =~= squares@.take(j as int));
            assert(squares@.take(j as int + 1).last() == squares@[j as int]);
        }
        if squares[j].pos.1 == y {
            n = n + 1;
        }
        j = j + 1;
    }
    proof {
        assert(squares@.take(squares@.len() as int) =~= squares@);
    }
    n
}

/// Removes row `row_y` and drops every square above it by one row.
pub fn clear_lines(squares: &[Square], row_y: i8) -> (v: Vec<Square>)
    ensures
        v@ == spec_clear_lines(squares@, row_y as int),
{
    let mut v: Vec<Square> = Vec::new();
    let mut j: usize = 0;
    while j < squares.len()
        invariant
            0 <= j <= squares@.len(),
            v@ == spec_clear_lines(squares@.take(j as int), row_y as int),
        decreases squares@.len() - j,
    {
        proof {
            assert(squares@.take(j as int + 1).drop_last() =~= squares@.take(j as int));
            assert(squares@.take(j as int + 1).last() == squares@[j as int]);
        }
        let s = squares[j];
        if s.pos.1 != row_y {
            if s.pos.1 < row_y {
                v.push(s.translate(0, 1));
            } else {
                v.push(s);
            }
        }
        j = j + 1;
    }
    proof {
        assert(squares@.take(squares@.len() as int) =~= squares@);
    }
    v
}

/// The running minimum of the first `n` squares' rows, seeded with 0.
pub open spec fn min_y_fold(s: Seq<Square>, n: int) -> int
    decreases n,
{
    if n <= 0 {
        0
    } else {
        let p = min_y_fold(s, n - 1);
        if s[n - 1].pos.1 < p {
            s[n - 1].pos.1 as int
        } else {
            p
        }
    }
}

/// The running maximum of the first `n` squares' rows, seeded with the
/// floor row `Y_SQUARES`.
pub open spec fn max_y_fold(s: Seq<Square>, n: int) -> int
    decreases n,
{
    if n <= 0 {
        Y_SQUARES as int
    } else {
        let p = max_y_fold(s, n - 1);
        if s[n - 1].pos.1 > p {
            s[n - 1].pos.1 as int
        } else {
            p
        }
    }
}

/// The min/max row folds stay within the seeds and the squares' own rows.
proof fn lemma_minmax_bounds(s: Seq<Square>, n: int)
    requires
        forall|i: int| 0 <= i < n ==> -100 <= (#[trigger] s[i]).pos.1 <= 100,
    ensures
        -100 <= min_y_fold(s, n) <= 0,
        Y_SQUARES as int <= max_y_fold(s, n) <= 100,
    decreases n,
{
    if n > 0 {
        lemma_minmax_bounds(s, n - 1);
    }
}

/// Finds the lowest and highest rows a block's squares span, widened to
/// the full visible board: the rows the lock scan must re-check.
fn find_minmax(squares: &[Square]) -> (r: (i8, i8))
    ensures
        r.0 == min_y_fold(squares@, squares@.len() as int),
        r.1 == max_y_fold(squares@, squares@.len() as int),
{
    let mut min_y: i8 = 0;
    let mut max_y: i8 = Y_SQUARES;
    let mut j: usize = 0;
    while j < squares.len()
        invariant
            0 <= j <= squares@.len(),
            min_y == min_y_fold(squares@, j as int),
            max_y == max_y_fold(squares@, j as int),
            min_y <= 0,
            max_y >= Y_SQUARES,
        decreases squares@.len() - j,
    {
        let current_y = squares[j].pos.1;
        if current_y < min_y {
            min_y = current_y;
        } else if current_y > max_y {
            max_y = current_y;
        }
        j = j + 1;
    }
    (min_y, max_y)
}

/// Bag fairness: any seven consecutive draws starting at a bag boundary
/// contain each of the seven kind indices exactly once, whatever the
/// shuffles produced.
pub proof fn lemma_bag_fairness(q: Seq<usize>, start: int)
    requires
        bag_pair(q),
        start == 0 || start == 7,
    ensures
        forall|k: usize| k < 7 ==> #[trigger] count_of(q.subrange(start, start + 7), k) == 1,
{
}

/// The kind the next draw yields: past the end of the live queue it is the
/// head of the queued one, which the refill makes live first.
pub open spec fn spec_next_type(pre: GameState) -> BlockType {
    if pre.block_index == 14 {
        kind_of(pre.queued_queue@[0])
    } else {
        kind_of(pre.queue@[pre.block_index as int])
    }
}

/// How one draw moves the queue: the cursor steps forward, and when it had
/// run off the end the queued bags became live with a fresh pair behind
/// them and the cursor restarted past the drawn entry.
pub open spec fn queue_advanced(pre: GameState, post: GameState) -> bool {
    if pre.block_index == 14 {
        &&& post.queue == pre.queued_queue
        &&& bag_pair(post.queued_queue@)
        &&& post.block_index == 1
    } else {
        &&& post.queue == pre.queue
        &&& post.queued_queue == pre.queued_queue
        &&& post.block_index == pre.block_index + 1
    }
}

/// A freshly spawned block: the given kind, upright, at the spawn anchor
/// (middle column, five rows above the visible board).
pub open spec fn spawned_block(b: Block, t: BlockType) -> bool {
    &&& b.blocktype == t
    &&& b.orientation == Orientation::Up
    &&& block_at(b, t, Orientation::Up, X_SQUARES as int / 2, -5)
    &&& block_colored(b)
}

/// Some square of the block stands above the visible board.
pub open spec fn game_over_now(b: Block) -> bool {
    exists|i: int| 0 <= i < 4 && (#[trigger] b.squares@[i]).pos.1 < 0
}

fn block_over_top(b: &Block) -> (r: bool)
    ensures
        r == game_over_now(*b),
{
    let r = b.squares[0].pos.1 < 0 || b.squares[1].pos.1 < 0 || b.squares[2].pos.1 < 0
        || b.squares[3].pos.1 < 0;
    proof {
        if !r {
            assert forall|i: int| 0 <= i < 4 implies (#[trigger] b.squares@[i]).pos.1 >= 0 by {
                assert(i == 0 || i == 1 || i == 2 || i == 3);
            }
        }
    }
    r
}

/// What locking does, apart from the timer and frame counter: the block's
/// four squares merge into the board; the rows it spans — widened to the
/// whole visible board, as the scan always covers rows 0 through
/// `Y_SQUARES` — are swept in ascending order, each full row clearing and
/// stepping the line counter once; hold becomes available again; and the
/// next kind drawn from the queue spawns at the top.
pub open spec fn lock_fields(pre: GameState, post: GameState) -> bool {
    let merged = pre.squares@ + pre.current_block.squares@;
    let lo = min_y_fold(pre.current_block.squares@, 4);
    let hi = max_y_fold(pre.current_block.squares@, 4);
    &&& post.squares@ == sweep_board(merged, lo, hi)
    &&& post.lines == pre.lines + sweep_cleared(merged, lo, hi)
    &&& !post.used_hold
    &&& post.held_block == pre.held_block
    &&& post.signals == pre.signals
    &&& queue_advanced(pre, post)
    &&& spawned_block(post.current_block, spec_next_type(pre))
}

/// What one driver frame does. The frame and tick counters step; when the
/// timer reaches the tick threshold it resets and gravity fires: the block
/// falls one row if that is valid, and locks otherwise — unless one of its
/// squares stands above the visible board, in which case the game ends
/// instead: a game-over signal carrying the final stats is emitted, and
/// nothing is locked or drawn.
pub open spec fn tick_transition(pre: GameState, post: GameState) -> bool {
    &&& post.frames == pre.frames + 1
    &&& if pre.update_timer + 1 < TICK_INTERVAL as int {
        &&& post.update_timer == pre.update_timer + 1
        &&& post.current_block == pre.current_block
        &&& post.squares == pre.squares
        &&& post.held_block == pre.held_block
        &&& post.queue == pre.queue
        &&& post.block_index == pre.block_index
        &&& post.used_hold == pre.used_hold
        &&& post.queued_queue == pre.queued_queue
        &&& post.lines == pre.lines
        &&& post.signals == pre.signals
    } else if translated_ok(pre.current_block, 0, 1, pre.squares@) {
        &&& post.update_timer == 0
        &&& block_moved(pre.current_block, post.current_block, 0, 1)
        &&& post.squares == pre.squares
        &&& post.held_block == pre.held_block
        &&& post.queue == pre.queue
        &&& post.block_index == pre.block_index
        &&& post.used_hold == pre.used_hold
        &&& post.queued_queue == pre.queued_queue
        &&& post.lines == pre.lines
        &&& post.signals == pre.signals
    } else if game_over_now(pre.current_block) {
        &&& post.update_timer == 0
        &&& post.signals@ == pre.signals@.push(
            Signal::EndGame(GameOverData { lines: pre.lines, time: (pre.frames + 1) as usize }),
        )
        &&& post.current_block == pre.current_block
        &&& post.squares == pre.squares
        &&& post.held_block == pre.held_block
        &&& post.queue == pre.queue
        &&& post.block_index == pre.block_index
        &&& post.used_hold == pre.used_hold
        &&& post.queued_queue == pre.queued_queue
        &&& post.lines == pre.lines
    } else {
        &&& post.update_timer == 0
        &&& lock_fields(pre, post)
    }
}

impl GameState {
    /// A fresh game: empty board, zeroed counters, two fresh bags, and the
    /// first block (a line) spawned upright at the top center.
    pub fn new() -> (gs: GameState)
        ensures
            gs.wf(),
            gs.squares@.len() == 0,
            gs.update_timer == 0,
            gs.frames == 0,
            gs.lines == 0,
            gs.block_index == 0,
            gs.held_block is None,
            !gs.used_hold,
            gs.signals@.len() == 0,
            block_y_in_range(gs.current_block),
            gs.current_block.blocktype == BlockType::Line,
            gs.current_block.orientation == Orientation::Up,
            block_at(
                gs.current_block,
                BlockType::Line,
                Orientation::Up,
                X_SQUARES as int / 2,
                0,
            ),
    {
        proof {
            crate::block::lemma_offsets_bounds(BlockType::Line, Orientation::Up);
        }
        let current_block = Block::new(BlockType::Line, Orientation::Up).translate(X_SQUARES / 2, 0);
        let gs = GameState {
            squares: Vec::new(),
            current_block,
            update_timer: 0,
            held_block: None,
            queue: generate_queue(),
            block_index: 0,
            used_hold: false,
            queued_queue: generate_queue(),
            lines: 0,
            frames: 0,
            signals: Vec::new(),
        };
        proof {
            assert(block_at(
                gs.current_block,
                BlockType::Line,
                Orientation::Up,
                X_SQUARES as int / 2,
                0,
            ));
        }
        gs
    }

    /// Swaps in the pre-shuffled queue and generates a fresh one behind it.
    /// The two-buffer scheme keeps a preview window seamless across refills.
    pub fn update_queue(&mut self)
        ensures
            final(self).queue == old(self).queued_queue,
            bag_pair(final(self).queued_queue@),
            final(self).squares == old(self).squares,
            final(self).current_block == old(self).current_block,
            final(self).update_timer == old(self).update_timer,
            final(self).held_block == old(self).held_block,
            final(self).block_index == old(self).block_index,
            final(self).used_hold == old(self).used_hold,
            final(self).lines == old(self).lines,
            final(self).frames == old(self).frames,
            final(self).signals == old(self).signals,
    {
        core::mem::swap(&mut self.queue, &mut self.queued_queue);
        self.queued_queue = generate_queue();
    }

    /// Draws the next kind from the queue, refilling first if the cursor
    /// has run off the end.
    pub(crate) fn next_block_type(&mut self) -> (t: BlockType)
        requires
            bag_pair(old(self).queue@),
            bag_pair(old(self).queued_queue@),
            old(self).block_index <= 14,
        ensures
            t == spec_next_type(*old(self)),
            queue_advanced(*old(self), *final(self)),
            bag_pair(final(self).queue@),
            bag_pair(final(self).queued_queue@),
            final(self).block_index <= 14,
            final(self).squares == old(self).squares,
            final(self).current_block == old(self).current_block,
            final(self).update_timer == old(self).update_timer,
            final(self).held_block == old(self).held_block,
            final(self).used_hold == old(self).used_hold,
            final(self).lines == old(self).lines,
            final(self).frames == old(self).frames,
            final(self).signals == old(self).signals,
    {
        if self.block_index == 14 {
            self.update_queue();
            self.block_index = 0;
        }
        let idx = self.queue[self.block_index];
        proof {
            let q = self.queue@;
            let bi = self.block_index as int;
            if bi < 7 {
                assert(q.subrange(0, 7)[bi] == q[bi]);
            } else {
                assert(q.subrange(7, 14)[bi - 7] == q[bi]);
            }
        }
        self.block_index = self.block_index + 1;
        type_at(idx)
    }

    /// Tries to shift the falling block by `(x, y)`: commits the shift only
    /// if the result is valid, and changes nothing else either way.
    pub fn try_translate(&mut self, x: i8, y: i8)
        requires
            old(self).wf(),
            forall|i: int| 0 <= i < 4 ==> i8::MIN <= (#[trigger] old(
                self,
            ).current_block.squares@[i]).pos.0 + x <= i8::MAX && i8::MIN <= old(
                self,
            ).current_block.squares@[i].pos.1 + y <= i8::MAX,
        ensures
            final(self).wf(),
            move_transition(*old(self), *final(self), x as int, y as int),
    {
        let translated = self.current_block.translate(x, y);
        proof {
            lemma_valid_translated(
                self.current_block,
                translated,
                x as int,
                y as int,
                self.squares@,
            );
        }
        if translated.is_valid(self.squares.as_slice()) {
            proof {
                let (dx0, dy0) = choose|dx0: int, dy0: int|
                    block_at(
                        self.current_block,
                        self.current_block.blocktype,
                        self.current_block.orientation,
                        dx0,
                        dy0,
                    );
                assert(block_at(
                    translated,
                    translated.blocktype,
                    translated.orientation,
                    dx0 + x,
                    dy0 + y,
                ));
            }
            self.current_block = translated;
        }
    }

    /// Locks the falling block: merges its squares into the board, sweeps
    /// and clears full rows, re-arms hold, and spawns the next kind.
    fn lock_block(&mut self)
        requires
            old(self).wf(),
            block_y_in_range(old(self).current_block),
            !game_over_now(old(self).current_block),
            old(self).lines + 256 <= usize::MAX,
        ensures
            final(self).wf(),
            lock_fields(*old(self), *final(self)),
            final(self).update_timer == old(self).update_timer,
            final(self).frames == old(self).frames,
    {
        let ghost pre = *old(self);
        let sq = self.current_block.squares;
        proof {
            assert forall|i: int| 0 <= i < 4 implies (#[trigger]
            self.current_block.squares@[i]).pos.1 >= 0 by {
                assert(!game_over_now(self.current_block));
            }
        }
        self.squares.push(sq[0]);
        self.squares.push(sq[1]);
        self.squares.push(sq[2]);
        self.squares.push(sq[3]);
        proof {
            assert(self.squares@ =~= pre.squares@ + self.current_block.squares@);
            assert(board_ok(self.squares@));
        }
        self.used_hold = false;
        let (lo, hi) = find_minmax(sq.as_slice());
        proof {
            lemma_minmax_bounds(sq@, 4);
        }
        let ghost merged = self.squares@;
        let ghost pre_lines = self.lines;
        let mut y: i8 = lo;
        while y <= hi
            invariant
                lo as int <= y as int <= hi as int + 1,
                -100 <= lo as int <= 0,
                Y_SQUARES as int <= hi as int <= 100,
                sweep_board(self.squares@, y as int, hi as int) == sweep_board(
                    merged,
                    lo as int,
                    hi as int,
                ),
                self.lines + sweep_cleared(self.squares@, y as int, hi as int) == pre_lines
                    + sweep_cleared(merged, lo as int, hi as int),
                pre_lines <= self.lines <= pre_lines + (y as int - lo as int),
                pre_lines + 256 <= usize::MAX,
                board_ok(self.squares@),
                self.current_block == pre.current_block,
                self.update_timer == pre.update_timer,
                self.held_block == pre.held_block,
                self.queue == pre.queue,
                self.block_index == pre.block_index,
                !self.used_hold,
                self.queued_queue == pre.queued_queue,
                self.frames == pre.frames,
                self.signals == pre.signals,
                bag_pair(self.queue@),
                bag_pair(self.queued_queue@),
                self.block_index <= 14,
            decreases hi as int + 1 - y as int,
        {
            let ghost row_board = self.squares@;
            let cnt = count_row(self.squares.as_slice(), y);
            if cnt >= X_SQUARES as usize {
                self.lines = self.lines + 1;
                let cleared = clear_lines(self.squares.as_slice(), y);
                self.squares = cleared;
                proof {
                    lemma_clear_lines_ok(row_board, y as int);
                }
            }
            proof {
                assert(sweep_board(row_board, y as int, hi as int) == sweep_board(
                    self.squares@,
                    y as int + 1,
                    hi as int,
                ));
                assert(sweep_cleared(row_board, y as int, hi as int) == (if row_count(
                    row_board,
                    y as int,
                ) >= X_SQUARES as int {
                    1int
                } else {
                    0int
                }) + sweep_cleared(self.squares@, y as int + 1, hi as int));
            }
            y = y + 1;
        }
        proof {
            assert(sweep_board(self.squares@, y as int, hi as int) == self.squares@);
            assert(sweep_cleared(self.squares@, y as int, hi as int) == 0);
        }
        let t = self.next_block_type();
        proof {
            crate::block::kind_reachable_up(t);
            crate::block::lemma_offsets_bounds(t, Orientation::Up);
        }
        let nb = Block::new(t, Orientation::Up);
        let nb = nb.translate(X_SQUARES / 2, 0);
        let nb = nb.translate(0, -5);
        self.current_block = nb;
        proof {
            assert(block_at(
                self.current_block,
                t,
                Orientation::Up,
                X_SQUARES as int / 2,
                -5,
            ));
            assert(block_ok(self.current_block));
        }
    }

    /// One driver frame: counts the frame, and on every `TICK_INTERVAL`-th
    /// one fires the gravity tick — the block falls one row, or locks, or
    /// the game ends if it would lock above the visible board.
    pub fn update(&mut self)
        requires
            old(self).wf(),
            block_y_in_range(old(self).current_block),
            old(self).frames < usize::MAX,
            old(self).lines + 256 <= usize::MAX,
        ensures
            final(self).wf(),
            block_y_in_range(final(self).current_block),
            tick_transition(*old(self), *final(self)),
    {
        self.frames = self.frames + 1;
        self.update_timer = self.update_timer + 1;
        if self.update_timer >= TICK_INTERVAL {
            self.update_timer = 0;
            let translated = self.current_block.translate(0, 1);
            proof {
                lemma_valid_translated(self.current_block, translated, 0, 1, self.squares@);
            }
            if translated.is_valid(self.squares.as_slice()) {
                proof {
                    let (dx0, dy0) = choose|dx0: int, dy0: int|
                        block_at(
                            self.current_block,
                            self.current_block.blocktype,
                            self.current_block.orientation,
                            dx0,
                            dy0,
                        );
                    assert(block_at(
                        translated,
                        translated.blocktype,
                        translated.orientation,
                        dx0,
                        dy0 + 1,
                    ));
                }
                self.current_block = translated;
            } else {
                if block_over_top(&self.current_block) {
                    let data = GameOverData { lines: self.lines, time: self.frames };
                    self.signals.push(Signal::EndGame(data));
                } else {
                    self.lock_block();
                }
            }
        }
    }
}

/// The character of a single decimal digit.
pub open spec fn spec_digit(d: int) -> char {
    if d == 0 {
        '0'
    } else if d == 1 {
        '1'
    } else if d == 2 {
        '2'
    } else if d == 3 {
        '3'
    } else if d == 4 {
        '4'
    } else if d == 5 {
        '5'
    } else if d == 6 {
        '6'
    } else if d == 7 {
        '7'
    } else {
        if d == 8 {
            '8'
        } else {
            '9'
        }
    }
}

/// The decimal digits of `n`, most significant first, no leading zeros
/// (a single zero for zero itself).
pub open spec fn spec_decimal(n: nat) -> Seq<char>
    decreases n,
{
    if n < 10 {
        seq![spec_digit(n as int)]
    } else {
        spec_decimal(n / 10).push(spec_digit((n % 10) as int))
    }
}

/// A second count rendered as "m:ss": whole minutes, a colon, and the
/// leftover seconds padded to two digits.
pub open spec fn spec_duration_display(secs: nat) -> Seq<char> {
    spec_decimal(secs / 60) + seq![':'] + (if secs % 60 < 10 {
        seq!['0']
    } else {
        Seq::empty()
    }) + spec_decimal(secs % 60)
}

fn digit_str(d: u64) -> (s: &'static str)
    requires
        d < 10,
    ensures
        s@ == seq![spec_digit(d as int)],
{
    let s: &'static str = match d {
        0 => "0",
        1 => "1",
        2 => "2",
        3 => "3",
        4 => "4",
        5 => "5",
        6 => "6",
        7 => "7",
        8 => "8",
        _ => "9",
    };
    proof {
        reveal_strlit("0");
        reveal_strlit("1");
        reveal_strlit("2");
        reveal_strlit("3");
        reveal_strlit("4");
        reveal_strlit("5");
        reveal_strlit("6");
        reveal_strlit("7");
        reveal_strlit("8");
        reveal_strlit("9");
        assert(s@ =~= seq![spec_digit(d as int)]);
    }
    s
}

/// Renders `n` in decimal.
fn u64_to_string(n: u64) -> (s: String)
    ensures
        s@ == spec_decimal(n as nat),
    decreases n,
{
    if n < 10 {
        String::from_str(digit_str(n))
    } else {
        let mut s = u64_to_string(n / 10);
        s.append(digit_str(n % 10));
        proof {
            assert(s@ =~= spec_decimal(n as nat));
        }
        s
    }
}

/// Renders a second count as "m:ss" for the caller's info display.
pub fn duration_display(secs: u64) -> (s: String)
    ensures
        s@ == spec_duration_display(secs as nat),
{
    let mins = secs / 60;
    let rem = secs % 60;
    let mut s = u64_to_string(mins);
    s.append(":");
    if rem < 10 {
        s.append("0");
    }
    let tail = u64_to_string(rem);
    s.append(tail.as_str());
    proof {
        reveal_strlit(":");
        reveal_strlit("0");
        assert(s@ =~= spec_duration_display(secs as nat));
    }
    s
}

impl SignalState for GameState {
    /// The signals accumulated so far.
    open spec fn spec_signals(&self) -> Seq<Signal> {
        self.signals@
    }

    /// Read access to the accumulated signals.
    fn signals(&self) -> (r: &Vec<Signal>) {
        &self.signals
    }
}

} // verus!
