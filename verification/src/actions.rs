//! The player commands on the engine: hard drop, hold/swap ("cache"), and
//! rotation ("spin") with its horizontal boundary correction.

use vstd::prelude::*;

use crate::block::{
    block_at, block_colored, kind_reachable_up, lemma_lowest, lemma_max_drop_le,
    lemma_offsets_bounds, next_orientation, reachable, rotate_dx, spec_max_drop, spec_offsets,
    Block, Orientation, Square,
};
use crate::consts::{TICK_INTERVAL, X_SQUARES};
use crate::game_state::{
    block_moved, block_ok, block_y_in_range, move_transition, queue_advanced, spawned_block,
    spec_next_type, translated_ok, unchanged_except_block, unchanged_except_block_and_timer,
    GameState,
};
use crate::input::InputAction;

verus! {

/// The x position square `i` of the rotated block takes before the
/// boundary correction runs.
pub open spec fn rotated_x(b: Block, i: int) -> int {
    spec_offsets(b.blocktype, next_orientation(b.blocktype, b.orientation))[i].0 + rotate_dx(
        b.blocktype,
        b.orientation,
    ) + b.squares@[0].pos.0
}

/// The running boundary overflow over the first `n` rotated squares: the
/// deepest protrusion past the right wall (positive) or past the left wall
/// (negative), zero when none protrudes.
pub open spec fn overflow_fold(b: Block, n: int) -> int
    decreases n,
{
    if n <= 0 {
        0
    } else {
        let over = overflow_fold(b, n - 1);
        let x = rotated_x(b, n - 1);
        if x >= X_SQUARES as int && x - X_SQUARES as int + 1 > over {
            x - X_SQUARES as int + 1
        } else if x < 0 && x < over {
            x
        } else {
            over
        }
    }
}

/// The correction a spin applies: the whole rotated block shifts left by
/// this amount.
pub open spec fn spec_spin_overflow(b: Block) -> int {
    overflow_fold(b, 4)
}

/// What a spin does to the falling block: the next orientation of the
/// kind's cycle, re-anchored on the old block's first two squares, then
/// shifted back horizontally just enough to stand inside the walls. It
/// never checks settled cells or the floor.
pub open spec fn spin_transition(pre: Block, post: Block) -> bool {
    &&& post.blocktype == pre.blocktype
    &&& post.orientation == next_orientation(pre.blocktype, pre.orientation)
    &&& block_at(
        post,
        pre.blocktype,
        next_orientation(pre.blocktype, pre.orientation),
        rotate_dx(pre.blocktype, pre.orientation) + pre.squares@[0].pos.0 - spec_spin_overflow(pre),
        pre.squares@[1].pos.1 as int,
    )
    &&& block_colored(post)
}

/// The boundary correction really corrects: started from inside the walls,
/// every rotated square ends inside them; and the correction itself is
/// small.
pub proof fn lemma_spin_bounds(b: Block)
    requires
        reachable(b.blocktype, b.orientation),
        0 <= b.squares@[0].pos.0 < X_SQUARES as int,
    ensures
        -2 <= spec_spin_overflow(b) <= 6,
        forall|i: int| 0 <= i < 4 ==> 0 <= #[trigger] rotated_x(b, i) - spec_spin_overflow(b)
            < X_SQUARES as int,
{
    lemma_offsets_bounds(b.blocktype, next_orientation(b.blocktype, b.orientation));
    let o0 = overflow_fold(b, 0);
    let o1 = overflow_fold(b, 1);
    let o2 = overflow_fold(b, 2);
    let o3 = overflow_fold(b, 3);
    let o4 = overflow_fold(b, 4);
    assert(o0 == 0);
    assert forall|i: int| 0 <= i < 4 implies 0 <= #[trigger] rotated_x(b, i) - spec_spin_overflow(
        b,
    ) < X_SQUARES as int by {
        assert(i == 0 || i == 1 || i == 2 || i == 3);
    }
}

/// What a hold does. The first hold since a lock stashes the falling
/// block's kind and spawns in its place the previously stashed kind — or,
/// when nothing was stashed yet, the next kind from the queue. A second
/// hold before the next lock is a no-op.
pub open spec fn cache_transition(pre: GameState, post: GameState) -> bool {
    if pre.used_hold {
        post == pre
    } else {
        &&& post.used_hold
        &&& post.held_block == Some(pre.current_block.blocktype)
        &&& post.squares == pre.squares
        &&& post.update_timer == pre.update_timer
        &&& post.lines == pre.lines
        &&& post.frames == pre.frames
        &&& post.signals == pre.signals
        &&& match pre.held_block {
            Some(t) => {
                &&& spawned_block(post.current_block, t)
                &&& post.queue == pre.queue
                &&& post.queued_queue == pre.queued_queue
                &&& post.block_index == pre.block_index
            },
            None => {
                &&& spawned_block(post.current_block, spec_next_type(pre))
                &&& queue_advanced(pre, post)
            },
        }
    }
}

/// Hold fires at most once per block lifetime: after one hold, a second
/// hold before any lock leaves the state exactly as it was.
pub proof fn lemma_hold_once(g0: GameState, g1: GameState, g2: GameState)
    requires
        cache_transition(g0, g1),
        cache_transition(g1, g2),
    ensures
        g2 == g1,
{
}

/// What a hard drop does: the block falls by its drop distance (when that
/// leaves it valid, which it always does from a valid position), and the
/// tick timer is forced so the next update locks it at once.
pub open spec fn hard_drop_transition(pre: GameState, post: GameState) -> bool {
    let d = spec_max_drop(pre.current_block, pre.squares@);
    &&& unchanged_except_block_and_timer(pre, post)
    &&& post.update_timer == TICK_INTERVAL
    &&& if translated_ok(pre.current_block, 0, d, pre.squares@) {
        block_moved(pre.current_block, post.current_block, 0, d)
    } else {
        post.current_block == pre.current_block
    }
}

/// From a valid position a hard drop always lands on a valid position:
/// the drop distance is nonnegative, and the dropped block overlaps
/// nothing and stays inside the board. The conditional in
/// `hard_drop_transition` therefore always takes its first branch in
/// ordinary play.
pub proof fn lemma_hard_drop_from_valid(b: Block, board: Seq<Square>)
    requires
        crate::block::spec_is_valid(b, board),
    ensures
        spec_max_drop(b, board) >= 0,
        translated_ok(b, 0, spec_max_drop(b, board), board),
{
    lemma_max_drop_le(b, board);
    lemma_lowest(board, b.squares@[0].pos.0, b.squares@[0].pos.1);
    lemma_lowest(board, b.squares@[1].pos.0, b.squares@[1].pos.1);
    lemma_lowest(board, b.squares@[2].pos.0, b.squares@[2].pos.1);
    lemma_lowest(board, b.squares@[3].pos.0, b.squares@[3].pos.1);
    let d = spec_max_drop(b, board);
    // each square's clearance is positive: the first settled square at or
    // below it cannot sit on it, or the block would overlap it
    assert forall|i: int| 0 <= i < 4 implies crate::block::spec_lowest(
        board,
        (#[trigger] b.squares@[i]).pos.0,
        b.squares@[i].pos.1,
    ) > b.squares@[i].pos.1 by {
        let low = crate::block::spec_lowest(board, b.squares@[i].pos.0, b.squares@[i].pos.1);
        if low == b.squares@[i].pos.1 {
            assert(crate::block::occupied(
                board,
                b.squares@[i].pos.0 as int,
                b.squares@[i].pos.1 as int,
            ));
            assert(crate::block::spec_overlaps(b, board));
        }
    }
    assert forall|i: int| 0 <= i < 4 implies 0 <= (#[trigger] b.squares@[i]).pos.0 + 0 < X_SQUARES
        as int && b.squares@[i].pos.1 + d < crate::consts::Y_SQUARES as int && !crate::block::occupied(
        board,
        b.squares@[i].pos.0 + 0,
        b.squares@[i].pos.1 + d,
    ) by {
        if crate::block::occupied(board, b.squares@[i].pos.0 as int, b.squares@[i].pos.1 + d) {
            let j = choose|j: int|
                0 <= j < board.len() && (#[trigger] board[j]).pos.0 == b.squares@[i].pos.0 as int
                    && board[j].pos.1 == b.squares@[i].pos.1 + d;
            assert(crate::block::spec_lowest(
                board,
                b.squares@[i].pos.0,
                b.squares@[i].pos.1,
            ) <= board[j].pos.1);
        }
    }
}

/// What each command does to the engine state.
pub open spec fn action_transition(pre: GameState, post: GameState, action: InputAction) -> bool {
    match action {
        InputAction::Spin => unchanged_except_block(pre, post) && spin_transition(
            pre.current_block,
            post.current_block,
        ),
        InputAction::SoftDrop => move_transition(pre, post, 0, 1),
        InputAction::HardDrop => hard_drop_transition(pre, post),
        InputAction::MoveLeft => move_transition(pre, post, -1, 0),
        InputAction::MoveRight => move_transition(pre, post, 1, 0),
        InputAction::Cache => cache_transition(pre, post),
    }
}

impl GameState {
    /// Dispatches one input command to the move it stands for.
    pub fn apply_action(&mut self, action: InputAction)
        requires
            old(self).wf(),
            block_y_in_range(old(self).current_block),
        ensures
            final(self).wf(),
            action_transition(*old(self), *final(self), action),
    {
        match action {
            InputAction::MoveLeft => self.try_translate(-1, 0),
            InputAction::MoveRight => self.try_translate(1, 0),
            InputAction::SoftDrop => self.try_translate(0, 1),
            InputAction::HardDrop => self.hard_drop(),
            InputAction::Cache => self.cache(),
            InputAction::Spin => self.spin(),
        }
    }

    /// Drops the falling block as far as it can fall and forces the next
    /// update to fire the gravity tick, so it locks without delay.
    pub fn hard_drop(&mut self)
        requires
            old(self).wf(),
            block_y_in_range(old(self).current_block),
        ensures
            final(self).wf(),
            hard_drop_transition(*old(self), *final(self)),
    {
        proof {
            let b = self.current_block;
            let board = self.squares@;
            lemma_max_drop_le(b, board);
            lemma_lowest(board, b.squares@[0].pos.0, b.squares@[0].pos.1);
            lemma_lowest(board, b.squares@[1].pos.0, b.squares@[1].pos.1);
            lemma_lowest(board, b.squares@[2].pos.0, b.squares@[2].pos.1);
            lemma_lowest(board, b.squares@[3].pos.0, b.squares@[3].pos.1);
            let (adx, ady) = choose|adx: int, ady: int|
                block_at(b, b.blocktype, b.orientation, adx, ady);
            lemma_offsets_bounds(b.blocktype, b.orientation);
        }
        let d = self.current_block.max_drop(self.squares.as_slice());
        self.try_translate(0, d);
        self.update_timer = TICK_INTERVAL;
    }

    /// The hold command: stash the falling block's kind and swap in the
    /// stashed one (or the next from the queue), at most once per lock.
    pub fn cache(&mut self)
        requires
            old(self).wf(),
        ensures
            final(self).wf(),
            cache_transition(*old(self), *final(self)),
    {
        if !self.used_hold {
            self.used_hold = true;
            let saved_current = self.current_block.blocktype;
            let spawn_type = match self.held_block {
                Some(blocktype) => blocktype,
                None => self.next_block_type(),
            };
            proof {
                kind_reachable_up(spawn_type);
                lemma_offsets_bounds(spawn_type, Orientation::Up);
            }
            let b = Block::new(spawn_type, Orientation::Up);
            self.current_block = b.translate(X_SQUARES / 2, -5);
            self.held_block = Some(saved_current);
            proof {
                assert(block_at(
                    self.current_block,
                    spawn_type,
                    Orientation::Up,
                    X_SQUARES as int / 2,
                    -5,
                ));
            }
        }
    }

    /// The rotate command: advance the falling block along its kind's
    /// orientation cycle, then shift it back inside the side walls if the
    /// new shape protrudes. Settled cells and the floor are not checked;
    /// the result is committed unconditionally.
    pub fn spin(&mut self)
        requires
            old(self).wf(),
            block_y_in_range(old(self).current_block),
        ensures
            final(self).wf(),
            unchanged_except_block(*old(self), *final(self)),
            spin_transition(old(self).current_block, final(self).current_block),
            forall|i: int| 0 <= i < 4 ==> 0 <= (#[trigger] final(self).current_block.squares@[i]).pos.0
                < X_SQUARES as int,
    {
        proof {
            lemma_spin_bounds(self.current_block);
        }
        let ghost pre = self.current_block;
        let rotated = self.current_block.rotate();
        let mut over: i8 = 0;
        assert(over == overflow_fold(pre, 0));
        let x0 = rotated.squares[0].pos.0;
        if x0 >= X_SQUARES && x0 - X_SQUARES + 1 > over {
            over = x0 - X_SQUARES + 1;
        } else if x0 < 0 && x0 < over {
            over = x0;
        }
        assert(over == overflow_fold(pre, 1));
        let x1 = rotated.squares[1].pos.0;
        if x1 >= X_SQUARES && x1 - X_SQUARES + 1 > over {
            over = x1 - X_SQUARES + 1;
        } else if x1 < 0 && x1 < over {
            over = x1;
        }
        assert(over == overflow_fold(pre, 2));
        let x2 = rotated.squares[2].pos.0;
        if x2 >= X_SQUARES && x2 - X_SQUARES + 1 > over {
            over = x2 - X_SQUARES + 1;
        } else if x2 < 0 && x2 < over {
            over = x2;
        }
        assert(over == overflow_fold(pre, 3));
        let x3 = rotated.squares[3].pos.0;
        if x3 >= X_SQUARES && x3 - X_SQUARES + 1 > over {
            over = x3 - X_SQUARES + 1;
        } else if x3 < 0 && x3 < over {
            over = x3;
        }
        assert(over == spec_spin_overflow(pre));
        self.current_block = rotated.translate(0 - over, 0);
        proof {
            let next = next_orientation(pre.blocktype, pre.orientation);
            let anchor_x = rotate_dx(pre.blocktype, pre.orientation) + pre.squares@[0].pos.0
                - spec_spin_overflow(pre);
            assert(block_at(
                self.current_block,
                pre.blocktype,
                next,
                anchor_x,
                pre.squares@[1].pos.1 as int,
            ));
            assert(block_ok(self.current_block));
        }
    }
}

} // verus!
