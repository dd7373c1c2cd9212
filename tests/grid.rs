use aoclib::grid::Grid;

#[test]
fn simple() {
    let mut grid = Grid::<u32>::new();
    for row in 0..5 {
        grid.add_row(vec![row, row + 1, row + 2, row + 3, row + 4]);
    }

    for row in 0..5 {
        for col in 0..5 {
            assert_eq!(*grid.get(row, col).unwrap(), (row + col) as u32);
        }
    }
}

#[test]
fn iter() {
    let mut grid = Grid::<u32>::new();
    for row in 0..2 {
        grid.add_row(vec![row, row + 1, row + 2, row + 3, row + 4]);
    }

    assert_eq!(grid.iter(), vec![0, 1, 2, 3, 4, 1, 2, 3, 4, 5]);
}

#[test]
fn enumerate() {
    let mut grid = Grid::<u32>::new();
    for row in 0..2 {
        grid.add_row(vec![row, row + 1]);
    }

    assert_eq!(grid.enumerate(), vec![((0, 0), 0), ((1, 0), 1), ((0, 1), 1), ((1, 1), 2)]);
}

#[test]
fn rotate_right() {
    let grid = Grid::<bool>::from_rows(vec![
        vec![true, false, false],
        vec![false, false, false],
        vec![false, true, false],
    ]);

    let expected = Grid::<bool>::from_rows(vec![
        vec![false, false, true],
        vec![true, false, false],
        vec![false, false, false],
    ]);

    assert_eq!(grid.rotate_right(), expected);
}

#[test]
fn flip_across_y() {
    let grid = Grid::<bool>::from_rows(vec![
        vec![true, false, false],
        vec![false, false, false],
        vec![false, true, false],
    ]);

    let expected = Grid::<bool>::from_rows(vec![
        vec![false, false, true],
        vec![false, false, false],
        vec![false, true, false],
    ]);

    assert_eq!(grid.flip_across_y(), expected);
}

#[test]
fn matches_on_yes_1() {
    let grid = Grid::<bool>::from_rows(vec![vec![true, false], vec![false, false]]);

    assert_eq!(grid.matches_on(&grid.clone(), 0, 0), true);
}

#[test]
fn matches_on_yes_2() {
    let grid = Grid::<bool>::from_rows(vec![vec![true, false], vec![false, false]]);

    let other = Grid::<bool>::from_rows(vec![
        vec![true, false, false],
        vec![false, false, false],
        vec![false, true, false],
    ]);

    assert_eq!(grid.matches_on(&other, 0, 0), true);
}

#[test]
fn matches_on_yes_3() {
    let grid = Grid::<bool>::from_rows(vec![vec![false, false], vec![true, false]]);

    let other = Grid::<bool>::from_rows(vec![
        vec![true, false, false],
        vec![false, false, false],
        vec![false, true, false],
    ]);

    assert_eq!(grid.matches_on(&other, 1, 1), true);
}

#[test]
fn matches_on_no_1() {
    let grid = Grid::<bool>::from_rows(vec![vec![true, false], vec![false, false]]);

    let other = grid.rotate_right();

    assert_eq!(grid.matches_on(&other, 0, 0), false);
}

#[test]
fn matches_on_no_2() {
    let grid = Grid::<bool>::from_rows(vec![vec![false, false], vec![true, false]]);

    let other = Grid::<bool>::from_rows(vec![
        vec![true, false, false],
        vec![false, false, false],
        vec![false, true, false],
    ]);

    assert_eq!(grid.matches_on(&other, 0, 1), false);
}

#[test]
fn stamp_onto_1() {
    let grid = Grid::<bool>::from_rows(vec![vec![false, false], vec![true, false]]);

    let mut other = Grid::<bool>::from_rows(vec![
        vec![true, false, false],
        vec![false, false, false],
        vec![false, true, false],
    ]);

    grid.stamp_onto(&mut other, 0, 0);
    assert_eq!(grid.matches_on(&other, 0, 0), true);
}

#[test]
fn stamp_onto_2() {
    let grid = Grid::<bool>::from_rows(vec![vec![false, false], vec![true, false]]);

    let mut other = Grid::<bool>::from_rows(vec![vec![false, false], vec![false, false]]);

    grid.stamp_onto(&mut other, 0, 0);
    assert_eq!(grid, other);
}

#[test]
fn rows() {
    let grid = Grid::<bool>::from_rows(vec![
        vec![true, false, false],
        vec![false, false, false],
        vec![false, true, false],
    ]);

    assert_eq!(grid, Grid::from_rows(grid.rows().iter().map(|a| a.iter().cloned().collect()).collect()));
}

#[test]
fn add_row_slice() {
    let mut grid = Grid::<bool>::new();
    let v = vec![true, false];
    grid.add_row_slice(v.as_slice());
    grid.add_row_slice(v.as_slice());

    let other = Grid::<bool>::from_rows(vec![vec![true, false], vec![true, false]]);

    assert_eq!(grid, other);
}

#[test]
fn grid_sizes_and_out_of_range_rows() {
    let mut grid = Grid::<u32>::new();
    grid.add_row(vec![]);
    assert_eq!(grid.size_y(), 0);
    grid.add_row(vec![1, 2, 3]);
    grid.add_row(vec![4, 5, 6]);
    assert_eq!(grid.size_x(), 3);
    assert_eq!(grid.size_y(), 2);
    assert_eq!(grid.get(2, 1), Some(&6));
    assert_eq!(grid.get(0, 2), None);
    grid.set(1, 0, 9);
    assert_eq!(grid.iter(), vec![1, 9, 3, 4, 5, 6]);
    assert_eq!(grid.matches_on(&grid.clone(), 1, 0), false);
}

#[test]
fn write_through_get_mut() {
    let mut grid = Grid::<u32>::from_rows(vec![vec![1, 2], vec![3, 4]]);
    *grid.get_mut(0, 1).unwrap() = 7;
    assert!(grid.get_mut(1, 2).is_none());
    assert_eq!(grid.iter(), vec![1, 2, 7, 4]);
}
