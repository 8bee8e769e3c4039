//! Sequencer tests: bag fairness of the generated queues and the
//! double-buffered refill.

use tetrs::game_state::{generate_queue, GameState};

#[test]
fn generated_queue_is_two_fair_bags() {
    // every run of 7 draws aligned to a bag boundary holds each kind once
    for _ in 0..100 {
        let q = generate_queue();
        assert_eq!(q.len(), 14);
        for half in 0..2 {
            let mut seen = [false; 7];
            for i in 0..7 {
                let v = q[half * 7 + i];
                assert!(v < 7);
                assert!(!seen[v], "kind index {} twice in one bag", v);
                seen[v] = true;
            }
        }
    }
}

#[test]
fn update_queue_swaps_in_the_buffered_bags() {
    let mut gs = GameState::new();
    let buffered = gs.queued_queue.clone();
    gs.update_queue();
    assert_eq!(gs.queue, buffered);
    assert_eq!(gs.queued_queue.len(), 14);
    // the fresh buffer is itself a pair of fair bags
    for half in 0..2 {
        let mut seen = [false; 7];
        for i in 0..7 {
            let v = gs.queued_queue[half * 7 + i];
            assert!(v < 7);
            assert!(!seen[v]);
            seen[v] = true;
        }
    }
}

#[test]
fn queue_refills_when_exhausted() {
    let mut gs = GameState::new();
    gs.block_index = 14;
    let buffered = gs.queued_queue.clone();
    // a hold with nothing stashed draws from the queue, forcing the refill
    gs.cache();
    assert_eq!(gs.block_index, 1);
    assert_eq!(gs.queue, buffered);
}

#[test]
fn drawing_walks_the_queue_in_order() {
    let mut gs = GameState::new();
    let q = gs.queue.clone();
    let kinds = [
        tetrs::block::BlockType::Line,
        tetrs::block::BlockType::Square,
        tetrs::block::BlockType::L,
        tetrs::block::BlockType::ReverseL,
        tetrs::block::BlockType::S,
        tetrs::block::BlockType::Z,
        tetrs::block::BlockType::T,
    ];
    // fourteen locks draw the fourteen queued kinds in order
    for i in 0..14 {
        gs.hard_drop();
        gs.update();
        assert_eq!(gs.current_block.blocktype, kinds[q[i]]);
        // keep the board from filling up between locks
        gs.squares = Vec::new();
    }
    assert_eq!(gs.block_index, 14);
}
