use game_of_life::util::get_neighboring_coordinates;
use std::collections::HashSet;

fn as_set(cells: Vec<(usize, usize)>) -> HashSet<(usize, usize)> {
    let n = cells.len();
    let set: HashSet<(usize, usize)> = cells.into_iter().collect();
    assert_eq!(set.len(), n, "a neighbor was listed twice");
    set
}

#[test]
fn neighboring_coordinates_no_overflow() {
    assert_eq!(
        as_set(get_neighboring_coordinates((1, 1), 8, 8)),
        HashSet::from([
            (0, 0),
            (1, 0),
            (2, 0),
            (0, 1),
            (2, 1),
            (0, 2),
            (1, 2),
            (2, 2),
        ])
    );
}

#[test]
fn neighboring_coordinates_horizontal_overflow() {
    assert_eq!(
        as_set(get_neighboring_coordinates((7, 5), 8, 8)),
        HashSet::from([
            (6, 6),
            (7, 6),
            (0, 6),
            (6, 5),
            (0, 5),
            (6, 4),
            (7, 4),
            (0, 4),
        ])
    );
}

#[test]
fn neighboring_coordinates_horizontal_underflow() {
    assert_eq!(
        as_set(get_neighboring_coordinates((0, 2), 8, 8)),
        HashSet::from([
            (1, 1),
            (7, 1),
            (0, 1),
            (1, 2),
            (7, 2),
            (1, 3),
            (7, 3),
            (0, 3),
        ])
    );
}

#[test]
fn neighboring_coordinates_vertical_overflow() {
    assert_eq!(
        as_set(get_neighboring_coordinates((5, 0), 8, 8)),
        HashSet::from([
            (4, 7),
            (5, 7),
            (6, 7),
            (4, 0),
            (6, 0),
            (4, 1),
            (5, 1),
            (6, 1),
        ])
    );
}

#[test]
fn neighboring_coordinates_vertical_underflow() {
    assert_eq!(
        as_set(get_neighboring_coordinates((2, 7), 8, 8)),
        HashSet::from([
            (1, 0),
            (2, 0),
            (3, 0),
            (1, 7),
            (3, 7),
            (1, 6),
            (2, 6),
            (3, 6),
        ])
    );
}

#[test]
fn neighboring_coordinates_corner() {
    assert_eq!(
        as_set(get_neighboring_coordinates((0, 0), 8, 8)),
        HashSet::from([
            (1, 0),
            (0, 1),
            (1, 1),
            (1, 7),
            (7, 1),
            (7, 0),
            (7, 7),
            (0, 7)
        ])
    );
}

#[test]
fn neighboring_coordinates_far_corner() {
    assert_eq!(
        as_set(get_neighboring_coordinates((7, 7), 8, 8)),
        HashSet::from([(6, 6), (7, 6), (0, 6), (6, 7), (0, 7), (6, 0), (7, 0), (0, 0)])
    );
}

#[test]
fn neighboring_coordinates_eight_on_three_by_three() {
    for y in 0..3 {
        for x in 0..3 {
            let neighbors = as_set(get_neighboring_coordinates((x, y), 3, 3));
            assert_eq!(neighbors.len(), 8);
            assert!(!neighbors.contains(&(x, y)));
        }
    }
}

#[test]
fn neighboring_coordinates_two_by_two_collapse() {
    assert_eq!(
        as_set(get_neighboring_coordinates((0, 0), 2, 2)),
        HashSet::from([(1, 0), (0, 1), (1, 1)])
    );
    assert_eq!(
        as_set(get_neighboring_coordinates((1, 0), 2, 2)),
        HashSet::from([(0, 0), (0, 1), (1, 1)])
    );
}

#[test]
fn neighboring_coordinates_one_wide() {
    assert_eq!(
        as_set(get_neighboring_coordinates((0, 1), 1, 4)),
        HashSet::from([(0, 0), (0, 1), (0, 2)])
    );
    assert_eq!(
        as_set(get_neighboring_coordinates((0, 0), 1, 4)),
        HashSet::from([(0, 3), (0, 0), (0, 1)])
    );
}

#[test]
fn neighboring_coordinates_one_tall() {
    assert_eq!(
        as_set(get_neighboring_coordinates((4, 0), 5, 1)),
        HashSet::from([(3, 0), (4, 0), (0, 0)])
    );
}

#[test]
fn neighboring_coordinates_single_cell() {
    assert_eq!(
        as_set(get_neighboring_coordinates((0, 0), 1, 1)),
        HashSet::from([(0, 0)])
    );
}

#[test]
fn neighboring_coordinates_stay_on_the_grid() {
    for (width, height) in [(1, 1), (1, 5), (2, 3), (4, 2), (6, 7)] {
        for y in 0..height {
            for x in 0..width {
                for (nx, ny) in get_neighboring_coordinates((x, y), width, height) {
                    assert!(nx < width && ny < height);
                }
            }
        }
    }
}

#[test]
fn neighboring_coordinates_at_the_largest_width() {
    let width = usize::MAX;
    assert_eq!(
        as_set(get_neighboring_coordinates((width - 1, 0), width, 3)),
        HashSet::from([
            (width - 2, 1),
            (width - 1, 1),
            (0, 1),
            (width - 2, 0),
            (0, 0),
            (width - 2, 2),
            (width - 1, 2),
            (0, 2),
        ])
    );
}
