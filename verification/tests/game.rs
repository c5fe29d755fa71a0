use dice_capture::grid::{Capture, Grid};
use dice_capture::position::Position;
use dice_capture::search::GameCache;
use dice_capture::state::GameState;

fn make_grid(values: &[u8; 9]) -> Grid {
    let mut grid = Grid::empty();
    for i in 0..9 {
        grid.set(&Position::from_index(i), values[i]);
    }
    grid
}

fn state(values: &[u8; 9]) -> GameState {
    GameState::init(make_grid(values))
}

#[test]
fn position_from_index_round_trip() {
    for i in 0..9 {
        let p = Position::from_index(i);
        assert_eq!(3 * p.line + p.column, i);
        assert!(p.line < 3 && p.column < 3);
    }
}

#[test]
fn position_edges_have_no_neighbor() {
    assert!(Position::new(0, 0).top().is_none());
    assert!(Position::new(0, 0).left().is_none());
    assert!(Position::new(2, 2).bottom().is_none());
    assert!(Position::new(2, 2).right().is_none());
    let center = Position::new(1, 1);
    assert_eq!(center.top(), Some(Position::new(0, 1)));
    assert_eq!(center.right(), Some(Position::new(1, 2)));
    assert_eq!(center.bottom(), Some(Position::new(2, 1)));
    assert_eq!(center.left(), Some(Position::new(1, 0)));
}

#[test]
fn free_cells_row_major() {
    let grid = make_grid(&[1, 0, 2, 0, 3, 4, 5, 6, 0]);
    let free = grid.free_cells();
    let indices: Vec<usize> = free.iter().map(|p| 3 * p.line + p.column).collect();
    assert_eq!(indices, vec![1, 3, 8]);
}

#[test]
fn neighbour_dices_fixed_order() {
    // Around the center: up = 2, right = 3, down = 4, left = 5.
    let grid = make_grid(&[0, 2, 0, 5, 0, 3, 0, 4, 0]);
    let neighbours = grid.neighbour_dices(&Position::new(1, 1));
    let values: Vec<u8> = neighbours.iter().map(|p| grid.get(p)).collect();
    assert_eq!(values, vec![2, 3, 4, 5]);
}

#[test]
fn captures_two_neighbors_within_bound() {
    // Up = 2 and right = 3 around the empty center: one pair, summing to 5.
    let grid = make_grid(&[0, 2, 0, 0, 0, 3, 0, 0, 0]);
    let cache = GameCache::new();
    let captures = grid.captures(&Position::new(1, 1), &cache.combinations);
    assert_eq!(captures.len(), 1);
    assert_eq!(captures[0].value, 5);
    assert_eq!(captures[0].positions.len(), 2);
    assert_eq!(captures[0].positions[0], Position::new(0, 1));
    assert_eq!(captures[0].positions[1], Position::new(1, 2));
}

#[test]
fn captures_discard_sums_beyond_six() {
    // Up = 4 and right = 4: the only pair sums to 8, so nothing is emitted.
    let grid = make_grid(&[0, 4, 0, 0, 0, 4, 0, 0, 0]);
    let cache = GameCache::new();
    let captures = grid.captures(&Position::new(1, 1), &cache.combinations);
    assert_eq!(captures.len(), 0);
}

#[test]
fn captures_three_neighbors_partial_subsets() {
    // Up = 2, right = 2, down = 3: pairs 4, 5, 5 stay; the triple 7 is out.
    let grid = make_grid(&[0, 2, 0, 0, 0, 2, 0, 3, 0]);
    let cache = GameCache::new();
    let captures = grid.captures(&Position::new(1, 1), &cache.combinations);
    let values: Vec<u8> = captures.iter().map(|c| c.value).collect();
    assert_eq!(values, vec![4, 5, 5]);
}

#[test]
fn captures_values_stay_in_bounds() {
    // Every emitted capture merges at least two dice into a face 2..=6,
    // whatever surrounds the landing cell.
    let boards: [[u8; 9]; 4] = [
        [0, 1, 0, 1, 0, 1, 0, 1, 0],
        [0, 6, 0, 6, 0, 6, 0, 6, 0],
        [0, 2, 0, 5, 0, 3, 0, 4, 0],
        [0, 1, 0, 0, 0, 1, 0, 6, 0],
    ];
    let cache = GameCache::new();
    for values in boards.iter() {
        let grid = make_grid(values);
        for c in grid.captures(&Position::new(1, 1), &cache.combinations) {
            assert!(2 <= c.value && c.value <= 6);
            assert!(c.positions.len() >= 2);
        }
    }
}

#[test]
fn next_plain_placement_places_one() {
    let s = state(&[0, 2, 0, 0, 0, 0, 0, 0, 0]);
    let n = s.next(&Position::new(2, 2), None);
    assert_eq!(n.depth, 1);
    assert_eq!(n.grid.get(&Position::new(2, 2)), 1);
    assert_eq!(n.grid.get(&Position::new(0, 1)), 2);
}

#[test]
fn next_capture_merges_and_empties() {
    let s = state(&[0, 2, 0, 0, 0, 3, 0, 0, 0]);
    let mut positions = Vec::new();
    positions.push(Position::new(0, 1));
    positions.push(Position::new(1, 2));
    let capture = Capture::new(5, positions);
    let n = s.next(&Position::new(1, 1), Some(&capture));
    assert_eq!(n.depth, 1);
    assert_eq!(n.grid.get(&Position::new(1, 1)), 5);
    assert_eq!(n.grid.get(&Position::new(0, 1)), 0);
    assert_eq!(n.grid.get(&Position::new(1, 2)), 0);
}

#[test]
fn play_no_neighbors_single_successor() {
    let s = state(&[0; 9]);
    let cache = GameCache::new();
    let states = s.play(&Position::new(1, 1), &cache.combinations);
    assert_eq!(states.len(), 1);
    assert_eq!(states[0].grid.get(&Position::new(1, 1)), 1);
}

#[test]
fn play_one_neighbor_single_successor() {
    let s = state(&[0, 4, 0, 0, 0, 0, 0, 0, 0]);
    let cache = GameCache::new();
    let states = s.play(&Position::new(1, 1), &cache.combinations);
    assert_eq!(states.len(), 1);
    assert_eq!(states[0].grid.get(&Position::new(1, 1)), 1);
    assert_eq!(states[0].grid.get(&Position::new(0, 1)), 4);
}

#[test]
fn play_branches_once_per_capture() {
    // Up = 2, right = 2, down = 3 around the center: three capture options,
    // so three successors and no plain placement.
    let s = state(&[0, 2, 0, 0, 0, 2, 0, 3, 0]);
    let cache = GameCache::new();
    let states = s.play(&Position::new(1, 1), &cache.combinations);
    assert_eq!(states.len(), 3);
    let centers: Vec<u8> = states.iter().map(|n| n.grid.get(&Position::new(1, 1))).collect();
    assert_eq!(centers, vec![4, 5, 5]);
}

#[test]
fn is_final_detects_full_board() {
    assert!(state(&[1, 2, 3, 4, 5, 6, 1, 2, 3]).is_final());
    assert!(!state(&[1, 2, 3, 4, 0, 6, 1, 2, 3]).is_final());
}

#[test]
fn result_reads_cells_as_decimal_digits() {
    assert_eq!(state(&[1, 2, 3, 4, 5, 6, 1, 2, 3]).result(), 123456123);
    assert_eq!(state(&[0, 0, 0, 0, 0, 0, 0, 0, 1]).result(), 1);
    assert_eq!(state(&[1, 0, 0, 0, 0, 0, 0, 0, 0]).result(), 100000000);
}

#[test]
fn hash_packs_depth_and_cells() {
    let empty = state(&[0; 9]);
    assert_eq!(empty.hash(), 0);
    let one = GameState { depth: 1, grid: make_grid(&[0; 9]) };
    assert_eq!(one.hash(), 1u64 << 36);
    let corner = state(&[6, 0, 0, 0, 0, 0, 0, 0, 0]);
    assert_eq!(corner.hash(), 6u64 << 32);
}

#[test]
fn hash_distinct_states_distinct_keys() {
    let boards: [[u8; 9]; 3] = [
        [0; 9],
        [1, 0, 0, 0, 0, 0, 0, 0, 0],
        [0, 0, 0, 0, 0, 0, 0, 0, 1],
    ];
    let mut hashes = Vec::new();
    for values in boards.iter() {
        for depth in 0..3u8 {
            hashes.push(GameState { depth, grid: make_grid(values) }.hash());
        }
    }
    for i in 0..hashes.len() {
        for j in 0..hashes.len() {
            if i != j {
                assert_ne!(hashes[i], hashes[j]);
            }
        }
    }
}

#[test]
fn compute_terminal_board_is_its_encoding() {
    let s = state(&[1, 2, 3, 4, 5, 6, 1, 2, 3]);
    let mut cache = GameCache::new();
    assert_eq!(s.compute(0, &mut cache), 123456123);
}

#[test]
fn compute_depth_cap_stops_search() {
    // The depth bound equals the current depth, so the partial board is
    // encoded as it stands.
    let s = state(&[1, 0, 0, 0, 0, 0, 0, 0, 0]);
    let mut cache = GameCache::new();
    assert_eq!(s.compute(0, &mut cache), 100000000);
}

#[test]
fn compute_single_move_base_case() {
    // One move on the empty board: nine plain placements of a 1, one per
    // cell, summing to 111_111_111.
    let s = state(&[0; 9]);
    let mut cache = GameCache::new();
    assert_eq!(s.compute(1, &mut cache), 111111111);
}

#[test]
fn compute_two_moves_on_empty_board() {
    // Two placements on the empty board: 72 ordered pairs of distinct
    // cells, each board worth 10^(8-i) + 10^(8-j); the total,
    // 16 * 111_111_111, wraps once around 2^30.
    let s = state(&[0; 9]);
    let mut cache = GameCache::new();
    assert_eq!(s.compute(2, &mut cache), 704035952);
}

#[test]
fn compute_capture_branches_exact_value() {
    // Only the center is free; its four neighbors (2, 3, 2, 3 in up,
    // right, down, left order) admit six pair-captures and no larger
    // subset, and each resulting board is depth-capped immediately.
    let s = state(&[1, 2, 1, 3, 0, 3, 1, 2, 1]);
    let mut cache = GameCache::new();
    assert_eq!(s.compute(1, &mut cache), 667209666);
}

#[test]
fn compute_result_stays_below_modulus() {
    let boards: [[u8; 9]; 3] = [
        [0; 9],
        [1, 2, 1, 3, 0, 3, 1, 2, 1],
        [6, 6, 6, 6, 6, 6, 6, 6, 6],
    ];
    for values in boards.iter() {
        for max_depth in 0..3u8 {
            let mut cache = GameCache::new();
            let r = state(values).compute(max_depth, &mut cache);
            assert!(r < 1u32 << 30);
        }
    }
}

#[test]
fn compute_deterministic_across_runs() {
    let values = [0, 2, 0, 3, 0, 0, 0, 0, 1];
    let mut first = GameCache::new();
    let mut second = GameCache::new();
    let a = state(&values).compute(4, &mut first);
    let b = state(&values).compute(4, &mut second);
    assert_eq!(a, b);
}

#[test]
fn compute_cache_reuse_is_transparent() {
    // A warm cache must give the same answer as a fresh one.
    let values = [0, 2, 0, 3, 0, 0, 0, 0, 1];
    let mut cache = GameCache::new();
    let cold = state(&values).compute(4, &mut cache);
    let warm = state(&values).compute(4, &mut cache);
    let mut fresh = GameCache::new();
    let alone = state(&values).compute(4, &mut fresh);
    assert_eq!(cold, warm);
    assert_eq!(cold, alone);
}
