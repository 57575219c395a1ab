use panel_puzzle::block::{Block, BlockState};
use panel_puzzle::clear::{Clear, ClearEvent};
use panel_puzzle::data::{BLOCKS, COLS, FACE_TIME, FLASH_TIME, KIND_EMPTY, POP_TIME};
use panel_puzzle::grid::Grid;
use panel_puzzle::systems::playfield::clear_system::{
    any_chainable_exists, check_clear, check_similar_block, ClearSystem,
};

fn clear_test_field(cells: &[(usize, usize, i32)]) -> Vec<Block> {
    let mut blocks: Vec<Block> = (0..BLOCKS).map(|i| Block::new(i as u32, KIND_EMPTY)).collect();
    for &(x, y, kind) in cells {
        blocks[y * COLS + x].kind = kind;
    }
    blocks
}

fn clear_test_scan(blocks: &Vec<Block>) -> Vec<u32> {
    let grid = Grid::identity();
    let mut clear = Clear::new();
    ClearSystem.scan(&mut clear, &grid, blocks);
    clear.clear_queue
}

#[test]
fn three_in_a_row_are_queued_once_each() {
    let blocks = clear_test_field(&[(0, 0, 2), (1, 0, 2), (2, 0, 2), (3, 0, 4), (0, 1, 5)]);
    assert_eq!(clear_test_scan(&blocks), vec![0, 1, 2]);
}

#[test]
fn four_in_a_row_are_queued_without_duplicates() {
    let blocks = clear_test_field(&[(0, 0, 2), (1, 0, 2), (2, 0, 2), (3, 0, 2)]);
    assert_eq!(clear_test_scan(&blocks), vec![0, 1, 2, 3]);
}

#[test]
fn six_in_a_row_are_queued_without_duplicates() {
    let blocks =
        clear_test_field(&[(0, 3, 1), (1, 3, 1), (2, 3, 1), (3, 3, 1), (4, 3, 1), (5, 3, 1)]);
    assert_eq!(clear_test_scan(&blocks), vec![18, 19, 20, 21, 22, 23]);
}

#[test]
fn three_in_a_column_are_queued_bottom_up() {
    let blocks = clear_test_field(&[(4, 2, 7), (4, 3, 7), (4, 4, 7)]);
    assert_eq!(clear_test_scan(&blocks), vec![16, 22, 28]);
}

#[test]
fn an_angle_of_five_is_queued_once_each() {
    let blocks = clear_test_field(&[(0, 0, 3), (1, 0, 3), (2, 0, 3), (0, 1, 3), (0, 2, 3)]);
    assert_eq!(clear_test_scan(&blocks), vec![0, 1, 2, 6, 12]);
}

#[test]
fn a_cross_is_queued_once_each() {
    let blocks = clear_test_field(&[(1, 0, 3), (0, 1, 3), (1, 1, 3), (2, 1, 3), (1, 2, 3)]);
    assert_eq!(clear_test_scan(&blocks), vec![1, 7, 13, 6, 8]);
}

#[test]
fn matches_are_queued_row_by_row() {
    let blocks = clear_test_field(&[
        (3, 0, 1),
        (4, 0, 1),
        (5, 0, 1),
        (0, 1, 2),
        (1, 1, 2),
        (2, 1, 2),
    ]);
    assert_eq!(clear_test_scan(&blocks), vec![3, 4, 5, 6, 7, 8]);
}

#[test]
fn two_in_a_row_make_no_match() {
    let blocks = clear_test_field(&[(0, 0, 2), (1, 0, 2), (3, 0, 2), (0, 1, 2)]);
    assert_eq!(clear_test_scan(&blocks), Vec::<u32>::new());
}

#[test]
fn a_row_does_not_run_on_into_the_next() {
    let blocks = clear_test_field(&[(4, 0, 2), (5, 0, 2), (0, 1, 2)]);
    assert_eq!(clear_test_scan(&blocks), Vec::<u32>::new());
}

#[test]
fn empty_cells_make_no_match() {
    let blocks = clear_test_field(&[]);
    assert_eq!(clear_test_scan(&blocks), Vec::<u32>::new());
}

#[test]
fn different_kinds_make_no_match() {
    let blocks = clear_test_field(&[(0, 0, 1), (1, 0, 2), (2, 0, 1), (3, 0, 2)]);
    assert_eq!(clear_test_scan(&blocks), Vec::<u32>::new());
}

#[test]
fn a_clearing_block_takes_no_part_in_a_match() {
    let mut blocks = clear_test_field(&[(0, 0, 2), (1, 0, 2), (2, 0, 2), (3, 0, 2)]);
    blocks[0].state = BlockState::Clear;
    blocks[0].counter = 84;
    assert_eq!(clear_test_scan(&blocks), vec![1, 2, 3]);
    blocks[2].state = BlockState::Clear;
    blocks[2].counter = 84;
    assert_eq!(clear_test_scan(&blocks), Vec::<u32>::new());
}

#[test]
fn scan_changes_no_block_and_no_count() {
    let grid = Grid::identity();
    let blocks = clear_test_field(&[(0, 0, 2), (1, 0, 2), (2, 0, 2)]);
    let before = blocks.clone();
    let mut clear = Clear { chain: 3, last_chain: 4, blocks_cleared: 10, ..Clear::new() };
    ClearSystem.scan(&mut clear, &grid, &blocks);
    assert_eq!(blocks, before);
    assert_eq!(clear.chain, 3);
    assert_eq!(clear.last_chain, 4);
    assert_eq!(clear.blocks_cleared, 10);
    assert_eq!(clear.combo_counter, 0);
}

#[test]
fn scan_adds_to_what_is_queued_already() {
    let grid = Grid::identity();
    let blocks = clear_test_field(&[(0, 0, 2), (1, 0, 2), (2, 0, 2)]);
    let mut clear = Clear { clear_queue: vec![40, 1], ..Clear::new() };
    ClearSystem.scan(&mut clear, &grid, &blocks);
    assert_eq!(clear.clear_queue, vec![40, 1, 0, 2]);
}

#[test]
fn check_similar_block_finds_a_match_to_the_right() {
    let grid = Grid::identity();
    let blocks = clear_test_field(&[(1, 2, 4), (2, 2, 4), (3, 2, 4)]);
    assert_eq!(check_similar_block(1, 2, 1, 0, &grid, &blocks), Some(vec![13, 14, 15]));
    assert_eq!(check_similar_block(1, 2, 0, 1, &grid, &blocks), None);
    assert_eq!(check_similar_block(2, 2, 1, 0, &grid, &blocks), None);
}

#[test]
fn check_similar_block_finds_a_match_upwards() {
    let grid = Grid::identity();
    let blocks = clear_test_field(&[(5, 9, 1), (5, 10, 1), (5, 11, 1)]);
    assert_eq!(check_similar_block(5, 9, 0, 1, &grid, &blocks), Some(vec![59, 65, 71]));
    assert_eq!(check_similar_block(5, 10, 0, 1, &grid, &blocks), None);
}

#[test]
fn check_similar_block_stops_at_the_edges() {
    let grid = Grid::identity();
    let blocks: Vec<Block> = (0..BLOCKS).map(|i| Block::new(i as u32, 1)).collect();
    assert_eq!(check_similar_block(3, 0, 1, 0, &grid, &blocks), Some(vec![3, 4, 5]));
    assert_eq!(check_similar_block(4, 0, 1, 0, &grid, &blocks), None);
    assert_eq!(check_similar_block(5, 0, 1, 0, &grid, &blocks), None);
    assert_eq!(check_similar_block(0, 9, 0, 1, &grid, &blocks), Some(vec![54, 60, 66]));
    assert_eq!(check_similar_block(0, 10, 0, 1, &grid, &blocks), None);
    assert_eq!(check_similar_block(0, 11, 0, 1, &grid, &blocks), None);
}

#[test]
fn check_similar_block_takes_any_step() {
    let grid = Grid::identity();
    let blocks: Vec<Block> = (0..BLOCKS).map(|i| Block::new(i as u32, 1)).collect();
    assert_eq!(check_similar_block(0, 0, 1, 1, &grid, &blocks), Some(vec![0, 7, 14]));
    assert_eq!(check_similar_block(0, 0, 2, 0, &grid, &blocks), Some(vec![0, 2, 4]));
    assert_eq!(check_similar_block(0, 0, 3, 0, &grid, &blocks), None);
    assert_eq!(check_similar_block(2, 2, 0, 0, &grid, &blocks), Some(vec![14, 14, 14]));
}

#[test]
fn check_similar_block_wants_a_comboable_start() {
    let grid = Grid::identity();
    let mut blocks = clear_test_field(&[(0, 0, 1), (1, 0, 1), (2, 0, 1)]);
    blocks[0].state = BlockState::Clear;
    assert_eq!(check_similar_block(0, 0, 1, 0, &grid, &blocks), None);
    let empty = clear_test_field(&[]);
    assert_eq!(check_similar_block(0, 0, 1, 0, &grid, &empty), None);
}

#[test]
fn check_clear_gives_the_row_before_the_column() {
    let grid = Grid::identity();
    let blocks = clear_test_field(&[(0, 0, 3), (1, 0, 3), (2, 0, 3), (0, 1, 3), (0, 2, 3)]);
    assert_eq!(check_clear(0, 0, &grid, &blocks), vec![0, 1, 2, 0, 6, 12]);
    assert_eq!(check_clear(1, 0, &grid, &blocks), Vec::<u32>::new());
}

#[test]
fn any_chainable_exists_looks_at_the_named_blocks_only() {
    let grid = Grid::identity();
    let mut blocks = clear_test_field(&[(0, 0, 3), (1, 0, 3), (2, 0, 3)]);
    assert!(!any_chainable_exists(&vec![0, 1, 2], &grid, &blocks));
    blocks[30].chainable = true;
    assert!(!any_chainable_exists(&vec![0, 1, 2], &grid, &blocks));
    assert!(any_chainable_exists(&vec![0, 30], &grid, &blocks));
    blocks[2].chainable = true;
    assert!(any_chainable_exists(&vec![0, 1, 2], &grid, &blocks));
    assert!(!any_chainable_exists(&Vec::new(), &grid, &blocks));
}

#[test]
fn a_batch_of_three_pops_one_after_the_other() {
    let grid = Grid::identity();
    let mut blocks = clear_test_field(&[(0, 0, 2), (1, 0, 2), (2, 0, 2)]);
    let mut clear = Clear::new();
    ClearSystem.run(&mut clear, &grid, &mut blocks);
    assert_eq!(blocks[0].clear_time, 54);
    assert_eq!(blocks[1].clear_time, 64);
    assert_eq!(blocks[2].clear_time, 74);
    for i in 0..3 {
        assert_eq!(blocks[i].counter, 84);
        assert_eq!(blocks[i].clear_start_counter, 84);
        assert_eq!(blocks[i].state, BlockState::Clear);
        assert_eq!(blocks[i].kind, 2);
        assert_eq!(blocks[i].id, i as u32);
    }
}

#[test]
fn a_batch_of_four_takes_ten_ticks_longer() {
    let grid = Grid::identity();
    let mut blocks = clear_test_field(&[(1, 5, 2), (1, 6, 2), (1, 7, 2), (1, 8, 2)]);
    let mut clear = Clear::new();
    ClearSystem.run(&mut clear, &grid, &mut blocks);
    let cells = [31usize, 37, 43, 49];
    for (place, &cell) in cells.iter().enumerate() {
        assert_eq!(blocks[cell].clear_time, FLASH_TIME + FACE_TIME + POP_TIME * place as u32);
        assert_eq!(blocks[cell].counter, 94);
        assert_eq!(blocks[cell].clear_start_counter, 94);
    }
    assert_eq!(blocks[49].clear_time, 84);
}

#[test]
fn a_batch_leaves_unmatched_blocks_alone() {
    let grid = Grid::identity();
    let mut blocks = clear_test_field(&[(0, 0, 2), (1, 0, 2), (2, 0, 2), (3, 0, 5), (0, 1, 6)]);
    let before = blocks.clone();
    let mut clear = Clear::new();
    ClearSystem.run(&mut clear, &grid, &mut blocks);
    for i in 3..BLOCKS {
        assert_eq!(blocks[i], before[i], "cell {}", i);
    }
}

#[test]
fn a_batch_drops_the_displacement_of_a_swap() {
    let grid = Grid::identity();
    let mut blocks = clear_test_field(&[(0, 0, 2), (1, 0, 2), (2, 0, 2)]);
    blocks[1].state = BlockState::Swap;
    blocks[1].counter = 3;
    blocks[1].offset_x = 16;
    blocks[1].move_dir = 1;
    let mut clear = Clear::new();
    ClearSystem.run(&mut clear, &grid, &mut blocks);
    assert_eq!(blocks[1].state, BlockState::Clear);
    assert_eq!(blocks[1].offset_x, 0);
    assert_eq!(blocks[1].move_dir, 0);
    assert_eq!(blocks[1].counter, 84);
    assert_eq!(blocks[1].clear_time, 64);
}

#[test]
fn a_batch_without_chainable_blocks_starts_the_chain_at_one() {
    let grid = Grid::identity();
    let mut blocks = clear_test_field(&[(0, 0, 2), (1, 0, 2), (2, 0, 2)]);
    let mut clear = Clear { chain: 4, last_chain: 6, ..Clear::new() };
    let event = ClearSystem.run(&mut clear, &grid, &mut blocks);
    assert_eq!(clear.chain, 1);
    assert_eq!(clear.last_chain, 6);
    assert_eq!(event, Some(ClearEvent { chain: 1, combo: 3, blocks_cleared: 3 }));
}

#[test]
fn a_batch_with_a_chainable_block_deepens_the_chain() {
    let grid = Grid::identity();
    let mut blocks = clear_test_field(&[(0, 0, 2), (1, 0, 2), (2, 0, 2)]);
    blocks[1].chainable = true;
    let mut clear = Clear { chain: 4, last_chain: 4, ..Clear::new() };
    let event = ClearSystem.run(&mut clear, &grid, &mut blocks);
    assert_eq!(clear.chain, 5);
    assert_eq!(clear.last_chain, 5);
    assert!(blocks[1].chainable);
    assert_eq!(event, Some(ClearEvent { chain: 5, combo: 3, blocks_cleared: 3 }));
}

#[test]
fn last_chain_keeps_the_greatest_depth() {
    let grid = Grid::identity();
    let mut blocks = clear_test_field(&[(0, 0, 2), (1, 0, 2), (2, 0, 2)]);
    blocks[0].chainable = true;
    let mut clear = Clear { chain: 2, last_chain: 9, ..Clear::new() };
    ClearSystem.run(&mut clear, &grid, &mut blocks);
    assert_eq!(clear.chain, 3);
    assert_eq!(clear.last_chain, 9);
}

#[test]
fn a_chainable_block_outside_the_batch_does_not_count() {
    let grid = Grid::identity();
    let mut blocks = clear_test_field(&[(0, 0, 2), (1, 0, 2), (2, 0, 2), (4, 4, 1)]);
    blocks[28].chainable = true;
    let mut clear = Clear { chain: 4, last_chain: 4, ..Clear::new() };
    ClearSystem.run(&mut clear, &grid, &mut blocks);
    assert_eq!(clear.chain, 1);
}

#[test]
fn a_batch_is_counted_and_the_queue_emptied() {
    let grid = Grid::identity();
    let mut blocks = clear_test_field(&[(0, 0, 2), (1, 0, 2), (2, 0, 2), (3, 0, 2)]);
    let mut clear = Clear { blocks_cleared: 10, combo_counter: 7, ..Clear::new() };
    let event = ClearSystem.run(&mut clear, &grid, &mut blocks);
    assert_eq!(clear.combo_counter, 4);
    assert_eq!(clear.blocks_cleared, 14);
    assert!(clear.clear_queue.is_empty());
    assert_eq!(event, Some(ClearEvent { chain: 1, combo: 4, blocks_cleared: 14 }));
}

#[test]
fn a_tick_without_a_match_changes_nothing() {
    let grid = Grid::identity();
    let mut blocks = clear_test_field(&[(0, 0, 2), (1, 0, 2), (3, 0, 2)]);
    blocks[0].chainable = true;
    let before = blocks.clone();
    let mut clear =
        Clear { chain: 4, last_chain: 6, blocks_cleared: 10, combo_counter: 7, ..Clear::new() };
    let event = ClearSystem.run(&mut clear, &grid, &mut blocks);
    assert_eq!(event, None);
    assert_eq!(blocks, before);
    assert_eq!(clear.chain, 4);
    assert_eq!(clear.last_chain, 6);
    assert_eq!(clear.blocks_cleared, 10);
    assert_eq!(clear.combo_counter, 7);
    assert!(clear.clear_queue.is_empty());
}

#[test]
fn cleared_blocks_do_not_match_again_in_the_next_tick() {
    let grid = Grid::identity();
    let mut blocks = clear_test_field(&[(0, 0, 2), (1, 0, 2), (2, 0, 2)]);
    let mut clear = Clear::new();
    assert!(ClearSystem.run(&mut clear, &grid, &mut blocks).is_some());
    let after_first = blocks.clone();
    assert_eq!(ClearSystem.run(&mut clear, &grid, &mut blocks), None);
    assert_eq!(blocks, after_first);
    assert_eq!(clear.blocks_cleared, 3);
}

#[test]
fn resolve_takes_the_queue_as_it_finds_it() {
    let grid = Grid::identity();
    let mut blocks = clear_test_field(&[(0, 0, 1), (1, 0, 2), (2, 0, 3)]);
    let mut clear = Clear { clear_queue: vec![2, 0], ..Clear::new() };
    let event = ClearSystem.resolve(&mut clear, &grid, &mut blocks);
    assert_eq!(event, Some(ClearEvent { chain: 1, combo: 2, blocks_cleared: 2 }));
    assert_eq!(blocks[2].clear_time, 54);
    assert_eq!(blocks[0].clear_time, 64);
    assert_eq!(blocks[2].counter, 74);
    assert_eq!(blocks[0].counter, 74);
    assert_eq!(blocks[1].state, BlockState::Idle);
}

#[test]
fn resolve_of_an_empty_queue_reports_nothing() {
    let grid = Grid::identity();
    let mut blocks = clear_test_field(&[(0, 0, 2), (1, 0, 2), (2, 0, 2)]);
    let before = blocks.clone();
    let mut clear = Clear::new();
    assert_eq!(ClearSystem.resolve(&mut clear, &grid, &mut blocks), None);
    assert_eq!(blocks, before);
}

#[test]
fn a_whole_field_of_one_kind_clears_at_once() {
    let grid = Grid::identity();
    let mut blocks: Vec<Block> = (0..BLOCKS).map(|i| Block::new(i as u32, 1)).collect();
    let mut clear = Clear::new();
    let event = ClearSystem.run(&mut clear, &grid, &mut blocks);
    assert_eq!(event, Some(ClearEvent { chain: 1, combo: 72, blocks_cleared: 72 }));
    for b in &blocks {
        assert_eq!(b.state, BlockState::Clear);
        assert_eq!(b.counter, 774);
    }
    assert_eq!(blocks[0].clear_time, 54);
}

#[test]
fn the_engine_works_through_the_grid_on_a_shared_store() {
    let handles: Vec<usize> = (0..BLOCKS).map(|i| BLOCKS + i).collect();
    let grid = Grid::new(handles).unwrap();
    let mut blocks = clear_test_field(&[(0, 5, 1), (1, 5, 1), (2, 5, 1)]);
    blocks.extend(clear_test_field(&[(0, 0, 2), (1, 0, 2), (2, 0, 2)]));
    let before = blocks.clone();
    let mut clear = Clear::new();
    let event = ClearSystem.run(&mut clear, &grid, &mut blocks);
    assert_eq!(event, Some(ClearEvent { chain: 1, combo: 3, blocks_cleared: 3 }));
    for i in 0..BLOCKS {
        assert_eq!(blocks[i], before[i]);
    }
    assert_eq!(blocks[BLOCKS].state, BlockState::Clear);
    assert_eq!(blocks[BLOCKS + 2].clear_time, 74);
}

#[test]
fn clear_state_of_a_new_round() {
    let clear = Clear::new();
    assert!(clear.clear_queue.is_empty());
    assert_eq!(clear.combo_counter, 0);
    assert_eq!(clear.chain, 1);
    assert_eq!(clear.last_chain, 1);
    assert_eq!(clear.blocks_cleared, 0);
    let by_default = Clear::default();
    assert_eq!(by_default.chain, 1);
    assert!(by_default.clear_queue.is_empty());
}

#[test]
fn clear_state_knows_a_valid_queue() {
    assert!(Clear::new().is_wf());
    assert!(Clear { clear_queue: vec![0, 71, 5], ..Clear::new() }.is_wf());
    assert!(!Clear { clear_queue: vec![0, 72], ..Clear::new() }.is_wf());
    assert!(!Clear { clear_queue: vec![3, 4, 3], ..Clear::new() }.is_wf());
}

#[test]
fn clear_state_knows_what_it_holds() {
    let clear = Clear { clear_queue: vec![4, 9], ..Clear::new() };
    assert!(clear.holds(4));
    assert!(clear.holds(9));
    assert!(!clear.holds(5));
    assert!(!Clear::new().holds(0));
}

#[test]
fn clear_state_knows_when_counting_would_run_over() {
    assert!(Clear::new().can_count());
    assert!(!Clear { chain: u32::MAX, ..Clear::new() }.can_count());
    assert!(Clear { blocks_cleared: u32::MAX - 72, ..Clear::new() }.can_count());
    assert!(!Clear { blocks_cleared: u32::MAX - 71, ..Clear::new() }.can_count());
}

#[test]
fn clear_state_reset_goes_back_to_the_start() {
    let mut clear = Clear {
        clear_queue: vec![1, 2],
        combo_counter: 5,
        chain: 3,
        last_chain: 8,
        blocks_cleared: 40,
    };
    clear.reset();
    assert!(clear.clear_queue.is_empty());
    assert_eq!(clear.combo_counter, 0);
    assert_eq!(clear.chain, 1);
    assert_eq!(clear.last_chain, 1);
    assert_eq!(clear.blocks_cleared, 0);
}
