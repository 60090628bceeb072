use conways::codec::DecodeError;
use conways::{Cell, DrawCountError, Universe, SIZE};

fn blank(width: u32, height: u32) -> Universe {
    let mut universe = Universe::new();
    universe.set_height(1);
    universe.set_width(width);
    universe.set_height(height);
    universe
}

fn grid(universe: &Universe) -> Vec<Vec<bool>> {
    let mut rows = Vec::new();
    for row in 0..universe.height() {
        let mut cells = Vec::new();
        for col in 0..universe.width() {
            cells.push(universe.get_cell(row, col) == Cell::Alive);
        }
        rows.push(cells);
    }
    rows
}

fn picture(lines: &[&str]) -> Vec<Vec<bool>> {
    lines
        .iter()
        .map(|line| line.chars().map(|c| c == '#').collect())
        .collect()
}

fn live_count(universe: &Universe) -> usize {
    grid(universe).iter().flatten().filter(|alive| **alive).count()
}

#[test]
fn new_is_64_by_64() {
    let universe = Universe::new();
    assert_eq!(SIZE, 64);
    assert_eq!(universe.width(), 64);
    assert_eq!(universe.height(), 64);
    assert_eq!(universe.get_cells().len(), 128);
}

#[test]
fn new_seeds_even_cells_and_multiples_of_seven() {
    let universe = Universe::new();
    for row in 0..64u32 {
        for col in 0..64u32 {
            let i = row * 64 + col;
            let expected = if i % 2 == 0 || i % 7 == 0 { Cell::Alive } else { Cell::Dead };
            assert_eq!(universe.get_cell(row, col), expected, "cell {}", i);
        }
    }
    assert_eq!(universe.get_cell(0, 7), Cell::Alive);
    assert_eq!(universe.get_cell(0, 1), Cell::Dead);
    assert_eq!(universe.get_cells()[0], 0x5575_55D5);
}

#[test]
fn clear_kills_every_cell_and_keeps_the_size() {
    let mut universe = Universe::new();
    universe.clear();
    assert_eq!(universe.width(), 64);
    assert_eq!(universe.height(), 64);
    assert_eq!(live_count(&universe), 0);
    assert_eq!(universe.get_cells(), vec![0u32; 128].as_slice());
}

#[test]
fn clear_twice_is_clear_once() {
    let mut universe = Universe::new();
    universe.clear();
    let once = universe.get_cells().to_vec();
    universe.clear();
    assert_eq!(universe.get_cells(), once.as_slice());
}

#[test]
fn set_width_resets_every_cell() {
    let mut universe = Universe::new();
    universe.set_width(10);
    assert_eq!(universe.width(), 10);
    assert_eq!(universe.height(), 64);
    assert_eq!(live_count(&universe), 0);
    assert_eq!(universe.get_cells().len(), 20);
}

#[test]
fn set_height_resets_every_cell() {
    let mut universe = Universe::new();
    universe.set_height(3);
    assert_eq!(universe.width(), 64);
    assert_eq!(universe.height(), 3);
    assert_eq!(live_count(&universe), 0);
    assert_eq!(universe.get_cells().len(), 6);
}

#[test]
fn resize_to_same_size_still_resets() {
    let mut universe = Universe::new();
    universe.set_width(64);
    assert_eq!(live_count(&universe), 0);
}

#[test]
fn cell_count_follows_both_dimensions() {
    let mut universe = blank(7, 5);
    assert_eq!(grid(&universe).len(), 5);
    assert_eq!(grid(&universe)[0].len(), 7);
    assert_eq!(universe.get_cells().len(), 2);
    universe.set_width(0);
    assert_eq!(universe.get_cells().len(), 0);
    universe.tick();
    assert_eq!(universe.width(), 0);
    assert_eq!(universe.height(), 5);
}

#[test]
fn get_index_is_row_major() {
    let universe = blank(7, 5);
    assert_eq!(universe.get_index(0, 0), 0);
    assert_eq!(universe.get_index(2, 3), 17);
    assert_eq!(universe.get_index(4, 6), 34);
    assert_eq!(universe.get_index(1, 9), 16);
}

#[test]
fn set_cell_changes_one_cell() {
    let mut universe = blank(4, 3);
    universe.set_cell(1, 2, true);
    assert_eq!(grid(&universe), picture(&["....", "..#.", "...."]));
    universe.set_cell(1, 2, false);
    assert_eq!(live_count(&universe), 0);
}

#[test]
fn set_cell_shows_in_the_packed_blocks() {
    let mut universe = Universe::new();
    universe.clear();
    universe.set_cell(1, 3, true);
    let blocks = universe.get_cells();
    assert_eq!(blocks[2], 8);
    assert_eq!(blocks.iter().filter(|b| **b != 0).count(), 1);
}

#[test]
fn toggle_cell_flips_and_flips_back() {
    let mut universe = blank(4, 3);
    universe.toggle_cell(2, 3);
    assert_eq!(grid(&universe), picture(&["....", "....", "...#"]));
    universe.toggle_cell(2, 3);
    assert_eq!(live_count(&universe), 0);
}

#[test]
fn set_cells_keeps_what_was_alive() {
    let mut universe = blank(4, 3);
    universe.set_cell(0, 0, true);
    universe.set_cells(&[(1, 1), (2, 3), (1, 1)]);
    assert_eq!(grid(&universe), picture(&["#...", ".#..", "...#"]));
    universe.set_cells(&[]);
    assert_eq!(grid(&universe), picture(&["#...", ".#..", "...#"]));
}

#[test]
fn neighbors_are_counted_across_the_edges() {
    let mut universe = blank(5, 4);
    universe.set_cells(&[(3, 4), (0, 4), (3, 0), (1, 1), (2, 2)]);
    assert_eq!(universe.live_neighbor_count(0, 0), 4);
    assert_eq!(universe.live_neighbor_count(1, 1), 1);
    assert_eq!(universe.live_neighbor_count(3, 4), 2);
    assert_eq!(universe.live_neighbor_count(2, 4), 2);
}

#[test]
fn neighbor_count_leaves_the_cell_itself_out() {
    let mut universe = blank(5, 5);
    universe.set_cell(2, 2, true);
    assert_eq!(universe.live_neighbor_count(2, 2), 0);
    assert_eq!(universe.live_neighbor_count(1, 1), 1);
    assert_eq!(universe.live_neighbor_count(0, 0), 0);
}

#[test]
fn a_full_grid_gives_eight_neighbors() {
    let mut universe = blank(3, 3);
    for row in 0..3 {
        for col in 0..3 {
            universe.set_cell(row, col, true);
        }
    }
    assert_eq!(universe.live_neighbor_count(1, 1), 8);
    assert_eq!(universe.live_neighbor_count(0, 2), 8);
}

#[test]
fn on_a_single_cell_grid_the_cell_is_its_own_neighbors() {
    let mut universe = blank(1, 1);
    assert_eq!(universe.live_neighbor_count(0, 0), 0);
    universe.set_cell(0, 0, true);
    assert_eq!(universe.live_neighbor_count(0, 0), 8);
    universe.tick();
    assert_eq!(universe.get_cell(0, 0), Cell::Dead);
}

#[test]
fn tick_on_a_dead_grid_stays_dead() {
    let mut universe = blank(6, 4);
    universe.tick();
    assert_eq!(universe.width(), 6);
    assert_eq!(universe.height(), 4);
    assert_eq!(live_count(&universe), 0);
}

#[test]
fn a_lonely_cell_dies() {
    let mut universe = blank(5, 5);
    universe.set_cell(2, 3, true);
    universe.tick();
    assert_eq!(live_count(&universe), 0);
}

#[test]
fn a_pair_dies_of_underpopulation() {
    let mut universe = blank(5, 5);
    universe.set_cells(&[(2, 2), (2, 3)]);
    universe.tick();
    assert_eq!(live_count(&universe), 0);
}

#[test]
fn three_neighbors_give_birth_and_four_kill() {
    let mut universe = blank(5, 5);
    universe.set_cells(&[(1, 2), (2, 1), (2, 2), (2, 3), (3, 2)]);
    universe.tick();
    assert_eq!(
        grid(&universe),
        picture(&[".....", ".###.", ".#.#.", ".###.", "....."])
    );
}

#[test]
fn block_is_a_still_life_inside() {
    let mut universe = blank(6, 6);
    universe.set_cells(&[(2, 2), (2, 3), (3, 2), (3, 3)]);
    let before = grid(&universe);
    universe.tick();
    assert_eq!(grid(&universe), before);
    assert_eq!(live_count(&universe), 4);
}

#[test]
fn block_is_a_still_life_across_the_edges() {
    let mut universe = blank(4, 4);
    universe.set_cells(&[(3, 3), (3, 0), (0, 3), (0, 0)]);
    let before = grid(&universe);
    universe.tick();
    assert_eq!(grid(&universe), before);
    assert_eq!(before, picture(&["#..#", "....", "....", "#..#"]));
}

#[test]
fn block_is_a_still_life_on_three_by_three() {
    let mut universe = blank(3, 3);
    universe.set_cells(&[(0, 0), (0, 1), (1, 0), (1, 1)]);
    universe.tick();
    assert_eq!(grid(&universe), picture(&["##.", "##.", "..."]));
}

#[test]
fn block_that_fills_a_two_by_two_grid_dies() {
    let mut universe = blank(2, 2);
    universe.set_cells(&[(0, 0), (0, 1), (1, 0), (1, 1)]);
    assert_eq!(universe.live_neighbor_count(0, 0), 8);
    universe.tick();
    assert_eq!(live_count(&universe), 0);
}

#[test]
fn blinker_turns_and_returns() {
    let mut universe = blank(5, 5);
    universe.set_cells(&[(2, 1), (2, 2), (2, 3)]);
    let flat = picture(&[".....", ".....", ".###.", ".....", "....."]);
    let upright = picture(&[".....", "..#..", "..#..", "..#..", "....."]);
    assert_eq!(grid(&universe), flat);
    universe.tick();
    assert_eq!(grid(&universe), upright);
    universe.tick();
    assert_eq!(grid(&universe), flat);
}

#[test]
fn blinker_turns_across_an_edge() {
    let mut universe = blank(6, 5);
    universe.set_cells(&[(0, 5), (0, 0), (0, 1)]);
    universe.tick();
    assert_eq!(
        grid(&universe),
        picture(&["#.....", "#.....", "......", "......", "#....."])
    );
    universe.tick();
    assert_eq!(
        grid(&universe),
        picture(&["##...#", "......", "......", "......", "......"])
    );
}

#[test]
fn tick_judges_every_cell_by_the_old_generation() {
    let mut universe = blank(5, 5);
    universe.set_cells(&[(0, 1), (1, 2), (2, 0), (2, 1), (2, 2)]);
    universe.tick();
    assert_eq!(
        grid(&universe),
        picture(&[".....", "#.#..", ".##..", ".#...", "....."])
    );
}

#[test]
fn tick_steps_the_default_world() {
    let mut universe = Universe::new();
    let before = grid(&universe);
    universe.tick();
    let after = grid(&universe);
    for row in 0..64usize {
        for col in 0..64usize {
            let mut count = 0;
            for dr in [63usize, 0, 1] {
                for dc in [63usize, 0, 1] {
                    if (dr, dc) != (0, 0) && before[(row + dr) % 64][(col + dc) % 64] {
                        count += 1;
                    }
                }
            }
            let expected = count == 3 || (before[row][col] && count == 2);
            assert_eq!(after[row][col], expected, "cell ({}, {})", row, col);
        }
    }
}

#[test]
fn random_takes_one_draw_per_cell() {
    let mut universe = blank(3, 2);
    universe.set_cell(0, 1, true);
    let draws = [true, false, false, true, true, false];
    assert_eq!(universe.random(&draws), Ok(()));
    assert_eq!(grid(&universe), picture(&["#..", "##."]));
    assert_eq!(universe.width(), 3);
    assert_eq!(universe.height(), 2);
}

#[test]
fn random_refuses_another_number_of_draws() {
    let mut universe = blank(3, 2);
    universe.set_cell(0, 1, true);
    assert_eq!(
        universe.random(&[true, true]),
        Err(DrawCountError { expected: 6, found: 2 })
    );
    assert_eq!(
        universe.random(&[true; 7]),
        Err(DrawCountError { expected: 6, found: 7 })
    );
    assert_eq!(grid(&universe), picture(&[".#.", "..."]));
}

#[test]
fn random_keeps_the_share_of_live_draws() {
    let mut universe = Universe::new();
    let mut state: u32 = 12345;
    let mut draws = Vec::new();
    for _ in 0..4096 {
        state = state.wrapping_mul(1664525).wrapping_add(1013904223);
        draws.push(state >> 31 == 1);
    }
    assert_eq!(universe.random(&draws), Ok(()));
    let drawn = draws.iter().filter(|d| **d).count();
    assert_eq!(live_count(&universe), drawn);
    let share = drawn as f64 / 4096.0;
    assert!(share > 0.4 && share < 0.6);
}

#[test]
fn import_measures_the_side_from_the_first_line() {
    let mut universe = Universe::new();
    assert_eq!(universe.import_file("##\r\n..\r\n"), Ok(()));
    assert_eq!(universe.width(), 2);
    assert_eq!(universe.height(), 2);
    assert_eq!(grid(&universe), picture(&["##", ".."]));
}

#[test]
fn import_of_two_rows_ended_by_line_feeds_overruns() {
    let mut universe = blank(3, 3);
    universe.set_cell(1, 1, true);
    assert_eq!(universe.import_file("##\n..\n"), Err(DecodeError::Overrun));
    assert_eq!(universe.width(), 3);
    assert_eq!(universe.height(), 3);
    assert_eq!(grid(&universe), picture(&["...", ".#.", "..."]));
}

#[test]
fn import_takes_three_by_three() {
    let mut universe = Universe::new();
    assert_eq!(universe.import_file(".#. \n..#\n###\n"), Ok(()));
    assert_eq!(universe.width(), 3);
    assert_eq!(grid(&universe), picture(&[".#.", "..#", "###"]));
}

#[test]
fn import_skips_what_is_no_marker() {
    let mut universe = Universe::new();
    assert_eq!(universe.import_file("a#b\n x.y#\n\n.é"), Ok(()));
    assert_eq!(universe.width(), 2);
    assert_eq!(universe.height(), 2);
    assert_eq!(grid(&universe), picture(&["#.", "#."]));
}

#[test]
fn import_counts_characters_not_bytes() {
    let mut universe = Universe::new();
    assert_eq!(universe.import_file("éé#\n..."), Ok(()));
    assert_eq!(universe.width(), 2);
    assert_eq!(grid(&universe), picture(&["#.", ".."]));
}

#[test]
fn import_leaves_the_rest_dead_when_markers_run_out() {
    let mut universe = Universe::new();
    assert_eq!(universe.import_file("#.#.\n#"), Ok(()));
    assert_eq!(universe.width(), 3);
    assert_eq!(universe.height(), 3);
    assert_eq!(grid(&universe), picture(&["#.#", ".#.", "..."]));
}

#[test]
fn import_without_line_break_uses_the_fallback_side() {
    let mut universe = Universe::new();
    assert_eq!(universe.import_file("#.#"), Ok(()));
    assert_eq!(universe.width(), 100);
    assert_eq!(universe.height(), 100);
    assert_eq!(universe.get_cell(0, 0), Cell::Alive);
    assert_eq!(universe.get_cell(0, 1), Cell::Dead);
    assert_eq!(universe.get_cell(0, 2), Cell::Alive);
    assert_eq!(live_count(&universe), 2);
}

#[test]
fn import_of_empty_text_gives_a_dead_fallback_grid() {
    let mut universe = Universe::new();
    assert_eq!(universe.import_file(""), Ok(()));
    assert_eq!(universe.width(), 100);
    assert_eq!(universe.height(), 100);
    assert_eq!(live_count(&universe), 0);
}

#[test]
fn import_refuses_a_leading_line_break() {
    let mut universe = blank(2, 2);
    universe.set_cell(0, 1, true);
    assert_eq!(universe.import_file("\n##\n"), Err(DecodeError::EmptyFirstLine));
    assert_eq!(grid(&universe), picture(&[".#", ".."]));
}

#[test]
fn import_refuses_more_markers_than_cells() {
    let mut universe = blank(2, 2);
    assert_eq!(universe.import_file("###\n##"), Err(DecodeError::Overrun));
    assert_eq!(universe.import_file("#\n"), Err(DecodeError::Overrun));
    assert_eq!(universe.import_file("###\n#"), Ok(()));
    assert_eq!(universe.width(), 2);
}

#[test]
fn import_of_a_one_character_line_gives_an_empty_grid() {
    let mut universe = Universe::new();
    assert_eq!(universe.import_file("x\n"), Ok(()));
    assert_eq!(universe.width(), 0);
    assert_eq!(universe.height(), 0);
    assert_eq!(universe.get_cells().len(), 0);
}

#[test]
fn import_refuses_a_side_whose_square_overflows() {
    let mut universe = blank(2, 2);
    let mut text = "x".repeat(65537);
    text.push('\n');
    assert_eq!(universe.import_file(&text), Err(DecodeError::TooLarge));
    let mut longer = "x".repeat(70000);
    longer.push('\n');
    assert_eq!(universe.import_file(&longer), Err(DecodeError::TooLarge));
    assert_eq!(universe.width(), 2);
}

#[test]
fn decode_gives_side_and_bits() {
    let (side, bits) = conways::codec::decode("#..\r\n.#.\r\n..#").unwrap();
    assert_eq!(side, 3);
    assert_eq!(bits.len(), 9);
    assert_eq!(bits.ones().collect::<Vec<usize>>(), vec![0, 4, 8]);
}
