use game_of_life::visited::{hash_grid, same_grid, VisitedStates};

#[test]
fn same_grid_compares_cell_by_cell() {
    let a = vec![vec![true, false], vec![false, true]];
    assert!(same_grid(&a, &a.clone()));
    assert!(!same_grid(&a, &vec![vec![true, false], vec![false, false]]));
    assert!(!same_grid(&a, &vec![vec![false, false], vec![false, true]]));
}

#[test]
fn same_grid_compares_the_dimensions() {
    let empty: Vec<Vec<bool>> = Vec::new();
    assert!(same_grid(&empty, &Vec::new()));
    assert!(!same_grid(&empty, &vec![vec![]]));
    assert!(!same_grid(&vec![vec![]], &vec![vec![], vec![]]));
    assert!(!same_grid(&vec![vec![true, false]], &vec![vec![true], vec![false]]));
    assert!(!same_grid(&vec![vec![true]], &vec![vec![true, false]]));
    assert!(!same_grid(&vec![vec![true], vec![]], &vec![vec![], vec![true]]));
}

#[test]
fn hash_grid_of_known_grids() {
    assert_eq!(hash_grid(&Vec::new()), 0xaf63_bd4c_8601_b7df);
    assert_eq!(hash_grid(&vec![vec![]]), 0x082f_2207_b4e8_8cc4);
    assert_eq!(hash_grid(&vec![vec![true]]), 0xd0a6_fc18_672a_1282);
    assert_eq!(hash_grid(&vec![vec![false]]), 0xd0a6_fd18_672a_1435);
    assert_eq!(
        hash_grid(&vec![vec![true, false], vec![false, true]]),
        0xc000_ed64_c293_3175
    );
}

#[test]
fn hash_grid_takes_the_dimensions_in() {
    assert_eq!(hash_grid(&vec![vec![true], vec![false]]), 0x66c5_7f25_ce7a_1d06);
    assert_eq!(hash_grid(&vec![vec![true, false]]), 0xbe81_2677_516b_37e3);
}

#[test]
fn hash_grid_is_equal_on_equal_grids() {
    let a = vec![vec![true, false, true], vec![false, false, true]];
    let b = a.clone();
    assert_eq!(hash_grid(&a), hash_grid(&b));
}

#[test]
fn visited_states_begin_empty() {
    let visited = VisitedStates::new();
    assert!(!visited.contains(&Vec::new()));
    assert!(!visited.contains(&vec![vec![true]]));
}

#[test]
fn visited_states_hold_what_was_inserted() {
    let a = vec![vec![true, false], vec![false, true]];
    let b = vec![vec![true, false], vec![false, false]];
    let mut visited = VisitedStates::new();

    assert!(visited.insert(a.clone()));
    assert!(visited.contains(&a));
    assert!(!visited.contains(&b));

    assert!(visited.insert(b.clone()));
    assert!(visited.contains(&a));
    assert!(visited.contains(&b));
}

#[test]
fn visited_states_take_a_grid_once() {
    let a = vec![vec![true, false], vec![false, true]];
    let mut visited = VisitedStates::new();
    assert!(visited.insert(a.clone()));
    assert!(!visited.insert(a.clone()));
    assert!(!visited.insert(a.clone()));
    assert!(visited.contains(&a));
}

#[test]
fn visited_states_tell_shapes_apart() {
    let mut visited = VisitedStates::new();
    assert!(visited.insert(Vec::new()));
    assert!(visited.insert(vec![vec![]]));
    assert!(visited.insert(vec![vec![], vec![]]));
    assert!(visited.insert(vec![vec![false]]));
    assert!(visited.insert(vec![vec![false, false]]));
    assert!(visited.insert(vec![vec![false], vec![false]]));
    assert!(!visited.insert(vec![vec![false], vec![false]]));
    assert!(!visited.contains(&vec![vec![true]]));
}

#[test]
fn visited_states_hold_many_grids() {
    let mut visited = VisitedStates::new();
    for n in 0u32..1024 {
        let grid = vec![(0..10).map(|bit| n >> bit & 1 == 1).collect::<Vec<bool>>()];
        assert!(!visited.contains(&grid));
        assert!(visited.insert(grid));
    }
    for n in 0u32..1024 {
        let grid = vec![(0..10).map(|bit| n >> bit & 1 == 1).collect::<Vec<bool>>()];
        assert!(visited.contains(&grid));
        assert!(!visited.insert(grid));
    }
}
