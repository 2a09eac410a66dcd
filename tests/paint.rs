use photonlab_core::paint::{circle_cells, line_points, rect_cells, stroke_cells};

#[test]
fn circle_of_radius_one_is_a_plus_sign() {
    assert_eq!(circle_cells(2, 2, 1, 5, 5), vec![(2, 1), (1, 2), (2, 2), (3, 2), (2, 3)]);
}

#[test]
fn circle_of_radius_two_has_thirteen_cells() {
    let cells = circle_cells(5, 5, 2, 20, 20);
    assert_eq!(cells.len(), 13);
    assert_eq!(cells[0], (5, 3));
    assert_eq!(cells[12], (5, 7));
}

#[test]
fn circle_is_cut_at_the_lattice_edge() {
    assert_eq!(circle_cells(0, 0, 1, 5, 5), vec![(0, 0), (1, 0), (0, 1)]);
    assert_eq!(circle_cells(4, 4, 1, 5, 5), vec![(4, 3), (3, 4), (4, 4)]);
    assert!(circle_cells(-5, 2, 1, 5, 5).is_empty());
    assert!(circle_cells(2, 2, 3, 0, 5).is_empty());
}

#[test]
fn circle_of_radius_zero_is_one_cell() {
    assert_eq!(circle_cells(3, 1, 0, 5, 5), vec![(3, 1)]);
}

#[test]
fn rect_accepts_corners_in_any_order() {
    let a = rect_cells(3, 2, 1, 1, 10, 10);
    assert_eq!(a, vec![(1, 1), (2, 1), (3, 1), (1, 2), (2, 2), (3, 2)]);
    assert_eq!(rect_cells(1, 1, 3, 2, 10, 10), a);
}

#[test]
fn rect_is_cut_to_the_lattice() {
    assert_eq!(rect_cells(-4, -4, 0, 1, 3, 3), vec![(0, 0), (0, 1)]);
    assert_eq!(rect_cells(1, 1, 50, 1, 3, 3), vec![(1, 1), (2, 1)]);
    assert!(rect_cells(5, 5, 6, 6, 3, 3).is_empty());
}

#[test]
fn rect_left_of_or_below_the_lattice_is_empty() {
    assert!(rect_cells(-10, 0, -5, 3, 8, 8).is_empty());
    assert!(rect_cells(0, -7, 3, -1, 8, 8).is_empty());
    assert_eq!(rect_cells(-10, 0, 0, 0, 8, 8), vec![(0, 0)]);
}

#[test]
fn bresenham_shallow_line() {
    assert_eq!(line_points(0, 0, 5, 2), vec![(0, 0), (1, 0), (2, 1), (3, 1), (4, 2), (5, 2)]);
}

#[test]
fn bresenham_steep_and_reversed_lines() {
    assert_eq!(line_points(0, 0, 1, 3), vec![(0, 0), (0, 1), (1, 2), (1, 3)]);
    assert_eq!(line_points(3, 3, 0, 0), vec![(3, 3), (2, 2), (1, 1), (0, 0)]);
    assert_eq!(line_points(4, 1, 4, -2), vec![(4, 1), (4, 0), (4, -1), (4, -2)]);
}

#[test]
fn bresenham_single_point() {
    assert_eq!(line_points(7, -3, 7, -3), vec![(7, -3)]);
}

#[test]
fn bresenham_extreme_coordinates_reach_the_end() {
    let pts = line_points(i32::MAX - 2, i32::MIN, i32::MAX, i32::MIN + 1);
    assert_eq!(pts.first(), Some(&(i32::MAX - 2, i32::MIN)));
    assert_eq!(pts.last(), Some(&(i32::MAX, i32::MIN + 1)));
    assert_eq!(pts.len(), 3);
}

#[test]
fn stroke_stamps_the_brush_at_each_point() {
    let points = line_points(1, 1, 3, 1);
    assert_eq!(stroke_cells(&points, 0, 5, 5), vec![(1, 1), (2, 1), (3, 1)]);
    let wide = stroke_cells(&vec![(0, 0), (4, 4)], 1, 5, 5);
    assert_eq!(wide, vec![(0, 0), (1, 0), (0, 1), (4, 3), (3, 4), (4, 4)]);
}

#[test]
fn bresenham_breaks_ties_toward_the_diagonal() {
    assert_eq!(line_points(0, 0, 4, 2), vec![(0, 0), (1, 1), (2, 1), (3, 2), (4, 2)]);
}
