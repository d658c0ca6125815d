use game_of_life::gol::GameOfLife;

fn cells(rows: &[&str]) -> Vec<Vec<bool>> {
    rows.iter()
        .map(|row| row.chars().map(|cell| cell == '#').collect())
        .collect()
}

/// A game on a torus of five by five whose middle cell is live or dead
/// and has `live_neighbors` live neighbors.
fn around_the_middle(alive: bool, live_neighbors: usize) -> GameOfLife {
    let ring = [(1, 1), (2, 1), (3, 1), (3, 2), (3, 3), (2, 3), (1, 3), (1, 2)];
    let mut state = vec![vec![false; 5]; 5];
    state[2][2] = alive;
    for (x, y) in ring.iter().take(live_neighbors) {
        state[*y][*x] = true;
    }
    GameOfLife::new(state, 5, 5)
}

#[test]
fn is_cell_live_reads_column_then_row() {
    let gol = GameOfLife::new(cells(&["..#", "...", "#.."]), 3, 3);
    assert!(gol.is_cell_live((2, 0)));
    assert!(gol.is_cell_live((0, 2)));
    assert!(!gol.is_cell_live((0, 0)));
    assert!(!gol.is_cell_live((2, 2)));
    assert!(!gol.is_cell_live((1, 1)));
}

#[test]
fn count_live_neighbors_counts_each_of_the_eight() {
    for alive in [false, true] {
        for live_neighbors in 0..=8 {
            let gol = around_the_middle(alive, live_neighbors);
            assert_eq!(gol.count_live_neighbors((2, 2)), live_neighbors);
        }
    }
}

#[test]
fn count_live_neighbors_leaves_the_cell_itself_out() {
    let gol = GameOfLife::new(cells(&["...", ".#.", "..."]), 3, 3);
    assert_eq!(gol.count_live_neighbors((1, 1)), 0);
    assert_eq!(gol.count_live_neighbors((0, 0)), 1);
    assert_eq!(gol.count_live_neighbors((2, 1)), 1);
}

#[test]
fn count_live_neighbors_wraps_at_the_edges() {
    let gol = GameOfLife::new(
        cells(&["#...#", ".....", ".....", ".....", "#...#"]),
        5,
        5,
    );
    assert_eq!(gol.count_live_neighbors((0, 0)), 3);
    assert_eq!(gol.count_live_neighbors((4, 4)), 3);
    assert_eq!(gol.count_live_neighbors((2, 0)), 0);
    assert_eq!(gol.count_live_neighbors((0, 2)), 0);
    assert_eq!(gol.count_live_neighbors((0, 1)), 2);
    assert_eq!(gol.count_live_neighbors((1, 0)), 2);
}

#[test]
fn live_cell_stays_live_with_two_or_three_live_neighbors() {
    for live_neighbors in 0..=8 {
        let gol = around_the_middle(true, live_neighbors);
        assert_eq!(
            gol.next_cell_state((2, 2)),
            live_neighbors == 2 || live_neighbors == 3
        );
    }
}

#[test]
fn dead_cell_comes_to_life_with_three_live_neighbors() {
    for live_neighbors in 0..=8 {
        let gol = around_the_middle(false, live_neighbors);
        assert_eq!(gol.next_cell_state((2, 2)), live_neighbors == 3);
    }
}

#[test]
fn next_cell_state_agrees_with_advance() {
    let start = cells(&["#..#.#", ".##...", "#.#.##", "...#..", "##..#.", ".#.#.#"]);
    let mut gol = GameOfLife::new(start, 6, 6);
    for _ in 0..5 {
        let mut expected = vec![vec![false; 6]; 6];
        for y in 0..6 {
            for x in 0..6 {
                expected[y][x] = gol.next_cell_state((x, y));
            }
        }
        assert_eq!(gol.advance(), expected);
    }
}
