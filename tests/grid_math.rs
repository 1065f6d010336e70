use life_grid::grid_math::{GridError, GridMath};

#[test]
fn instantiate_grid() {
    let grid_math = GridMath { rows: 3, cols: 3 };
    let grid = grid_math.initialize_grid();
    assert_eq!(grid, vec![0; 9]);
}

#[test]
fn put_value_in_grid() {
    let mut grid = vec![0; 9];
    let grid_math = GridMath { rows: 3, cols: 3 };
    grid_math.put(&mut grid, 1, 1, 1);
    assert_eq!(grid, vec![0, 0, 0, 0, 1, 0, 0, 0, 0]);
}

#[test]
fn get_value_from_grid() {
    let grid = vec![0, 0, 0, 0, 1, 0, 0, 0, 0];
    let grid_math = GridMath { rows: 3, cols: 3 };
    assert_eq!(grid_math.get(&grid, 1, 1), 1);
}

#[test]
fn get_based_relative_position() {
    let grid = vec![0, 0, 0, 0, 1, 0, 0, 2, 1];
    let grid_math = GridMath { rows: 3, cols: 3 };
    assert_eq!(
        grid_math.get_based_on_relative_position(&grid, 1, 1, 0, 0),
        Ok(1)
    );

    assert_eq!(
        grid_math.get_based_on_relative_position(&grid, 1, 1, 1, 1),
        Ok(1)
    );

    let far = grid_math.get_based_on_relative_position(&grid, 1, 1, 2, 2);
    assert_eq!(far, Err(GridError::RowOutOfBounds));
    assert_eq!(far.unwrap_err().message(), "Row out of bounds");

    assert_eq!(
        grid_math.get_based_on_relative_position(&grid, 1, 1, 1, 0),
        Ok(2)
    );
}

#[test]
fn merge_grids() {
    let original = vec![0, 0, 0, 0, 1, 0, 0, 1, 0];
    let grid1 = vec![0, 0, 0, 0, 0, 1, 1, 0, 0];
    let grid2 = vec![0, 0, 1, 0, 0, 0, 0, 1, 0];
    let grid_math = GridMath { rows: 3, cols: 3 };
    let merged = grid_math.merge_grids(&original, &vec![grid1, grid2]);
    assert_eq!(merged, vec![0, 0, 1, 0, 0, 1, 1, 0, 0]);
}

#[test]
fn put_then_get_leaves_other_cells() {
    let grid_math = GridMath { rows: 2, cols: 3 };
    let mut grid = vec![1, 2, 3, 4, 5, 6];
    grid_math.put(&mut grid, 1, 0, 40);
    assert_eq!(grid_math.get(&grid, 1, 0), 40);
    assert_eq!(grid, vec![1, 2, 3, 40, 5, 6]);
}

#[test]
fn row_error_wins_over_column_error() {
    let grid = vec![0; 6];
    let grid_math = GridMath { rows: 2, cols: 3 };
    assert_eq!(
        grid_math.get_based_on_relative_position(&grid, 0, 0, -1, -1),
        Err(GridError::RowOutOfBounds)
    );
    assert_eq!(
        grid_math.get_based_on_relative_position(&grid, 1, 2, 1, 5),
        Err(GridError::RowOutOfBounds)
    );
    assert_eq!(
        grid_math.get_based_on_relative_position(&grid, 1, 0, 1, -3),
        Err(GridError::RowOutOfBounds)
    );
}

#[test]
fn column_error_when_row_is_inside() {
    let grid = vec![0; 6];
    let grid_math = GridMath { rows: 2, cols: 3 };
    let left = grid_math.get_based_on_relative_position(&grid, 1, 0, 0, -1);
    assert_eq!(left, Err(GridError::ColOutOfBounds));
    assert_eq!(left.unwrap_err().message(), "Col out of bounds");
    assert_eq!(
        grid_math.get_based_on_relative_position(&grid, 0, 2, 1, 1),
        Err(GridError::ColOutOfBounds)
    );
}

#[test]
fn relative_lookup_at_extreme_coordinates() {
    let grid = vec![9; 4];
    let grid_math = GridMath { rows: 2, cols: 2 };
    assert_eq!(
        grid_math.get_based_on_relative_position(&grid, i32::MAX, 0, i32::MAX, 0),
        Err(GridError::RowOutOfBounds)
    );
    assert_eq!(
        grid_math.get_based_on_relative_position(&grid, i32::MIN, 0, 1, 0),
        Err(GridError::RowOutOfBounds)
    );
    assert_eq!(
        grid_math.get_based_on_relative_position(&grid, 1, i32::MIN, 0, i32::MIN),
        Err(GridError::ColOutOfBounds)
    );
    assert_eq!(
        grid_math.get_based_on_relative_position(&grid, 0, 0, 1, 1),
        Ok(9)
    );
}

#[test]
fn merge_without_overlays_returns_original() {
    let original = vec![3, 0, 1, 7];
    let grid_math = GridMath { rows: 2, cols: 2 };
    let merged = grid_math.merge_grids(&original, &Vec::new());
    assert_eq!(merged, original);
}

#[test]
fn merge_single_overlay_takes_differing_cells() {
    let original = vec![3, 0, 1, 7];
    let overlay = vec![3, 5, 0, 7];
    let grid_math = GridMath { rows: 2, cols: 2 };
    let merged = grid_math.merge_grids(&original, &vec![overlay]);
    assert_eq!(merged, vec![3, 5, 0, 7]);
}

#[test]
fn merge_last_differing_overlay_wins() {
    let original = vec![0, 0, 0];
    let first = vec![1, 2, 0];
    let second = vec![4, 0, 0];
    let grid_math = GridMath { rows: 1, cols: 3 };
    let merged = grid_math.merge_grids(&original, &vec![first, second]);
    assert_eq!(merged, vec![4, 2, 0]);
}

#[test]
fn position_from_index_is_row_major() {
    let grid_math = GridMath { rows: 3, cols: 4 };
    assert_eq!(grid_math.get_pos_from_index(0), (0, 0));
    assert_eq!(grid_math.get_pos_from_index(5), (1, 1));
    assert_eq!(grid_math.get_pos_from_index(11), (2, 3));
}
