use axiart_core::grid::SpatialGrid;
use axiart_core::dist_sq;

#[test]
fn empty_grid_returns_none() {
    let grid = SpatialGrid::new(5);
    let points: Vec<(i64, i64)> = Vec::new();
    assert_eq!(grid.find_nearest(50, 50, &points), None);
}

#[test]
fn single_point_same_cell_is_found_exactly() {
    let mut grid = SpatialGrid::new(5);
    let points = vec![(50, 50)];
    grid.insert(50, 50, 0);
    let r = grid.find_nearest(52, 53, &points);
    assert_eq!(r, Some((0, 4 + 9)));
    assert_eq!(r.unwrap().1, dist_sq((50, 50), (52, 53)));
}

#[test]
fn single_point_adjacent_cell_is_found_exactly() {
    let mut grid = SpatialGrid::new(5);
    let points = vec![(50, 50)];
    grid.insert(50, 50, 0);
    // query cell (10, 9) is adjacent to the point's cell (10, 10)
    let r = grid.find_nearest(51, 46, &points);
    assert_eq!(r, Some((0, 1 + 16)));
}

#[test]
fn single_point_at_origin_query_at_origin() {
    let mut grid = SpatialGrid::new(3);
    let points = vec![(0, 0)];
    grid.insert(0, 0, 0);
    assert_eq!(grid.find_nearest(0, 0, &points), Some((0, 0)));
}

#[test]
fn nearest_of_two_points_wins() {
    let mut grid = SpatialGrid::new(10);
    let points = vec![(10, 10), (14, 10)];
    grid.insert(10, 10, 0);
    grid.insert(14, 10, 1);
    let r = grid.find_nearest(13, 10, &points);
    assert_eq!(r, Some((1, 1)));
}

#[test]
fn tie_keeps_first_scanned_candidate() {
    let mut grid = SpatialGrid::new(5);
    // equidistant from the query; (48, 50) lies in the cell scanned first
    let points = vec![(48, 50), (52, 50)];
    grid.insert(48, 50, 0);
    grid.insert(52, 50, 1);
    let r = grid.find_nearest(50, 50, &points);
    assert_eq!(r, Some((0, 4)));
}

#[test]
fn point_outside_neighborhood_is_not_seen() {
    let mut grid = SpatialGrid::new(5);
    let points = vec![(0, 0)];
    grid.insert(0, 0, 0);
    // the query's 3×3 block does not reach cell (0, 0)
    assert_eq!(grid.find_nearest(50, 50, &points), None);
}

#[test]
fn clustered_cell_holds_many_points() {
    let mut grid = SpatialGrid::new(100);
    let mut points: Vec<(i64, i64)> = Vec::new();
    for i in 0..200 {
        let p = (500 + (i % 10), 500 + (i / 10));
        points.push(p);
        grid.insert(p.0, p.1, i as usize);
    }
    let r = grid.find_nearest(500, 500, &points).unwrap();
    assert_eq!(r, (0, 0));
    let far = grid.find_nearest(505, 519, &points).unwrap();
    assert_eq!(points[far.0], (505, 519));
    assert_eq!(far.1, 0);
}
