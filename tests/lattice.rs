use photonlab_core::lattice::Lattice;

#[test]
fn test_grid_creation() {
    let grid = Lattice::new(100, 100);
    assert_eq!(grid.get_width(), 100);
    assert_eq!(grid.get_height(), 100);
    assert_eq!(grid.get_time_step(), 0);
}

#[test]
fn cell_index_is_row_major_and_ignores_outside_cells() {
    let grid = Lattice::new(7, 5);
    assert_eq!(grid.cell_count(), 35);
    assert_eq!(grid.cell_index(3, 2), Some(17));
    assert_eq!(grid.cell_index(6, 4), Some(34));
    assert_eq!(grid.cell_index(7, 0), None);
    assert_eq!(grid.cell_index(0, 5), None);
    assert!(grid.contains(0, 0));
    assert!(!grid.contains(7, 4));
}

#[test]
fn clock_advances_and_resets() {
    let mut grid = Lattice::new(4, 4);
    grid.advance();
    grid.advance();
    grid.advance();
    assert_eq!(grid.get_time_step(), 3);
    grid.reset_clock();
    assert_eq!(grid.get_time_step(), 0);
    grid.reset_clock();
    assert_eq!(grid.get_time_step(), 0);
    assert_eq!(grid.get_width(), 4);
}

#[test]
fn stability_samples_first_quarter_half_three_quarter_last() {
    let grid = Lattice::new(10, 10);
    assert_eq!(grid.stability_samples(), vec![0, 25, 50, 75, 99]);
    let grid = Lattice::new(64, 64);
    assert_eq!(grid.stability_samples(), vec![0, 1024, 2048, 3072, 4095]);
    let grid = Lattice::new(1, 1);
    assert_eq!(grid.stability_samples(), vec![0, 0, 0, 0, 0]);
    let empty = Lattice::new(0, 9);
    assert!(empty.stability_samples().is_empty());
}

#[test]
fn clamp_region_orders_and_clips_corners() {
    let grid = Lattice::new(10, 8);
    assert_eq!(grid.clamp_region(7, 1, 2, 5), Some((2, 7, 1, 5)));
    assert_eq!(grid.clamp_region(3, 20, 50, 2), Some((3, 9, 2, 7)));
    assert_eq!(grid.clamp_region(9, 7, 30, 30), Some((9, 9, 7, 7)));
    assert_eq!(Lattice::new(0, 8).clamp_region(0, 0, 1, 1), None);
}

#[test]
fn clamp_region_outside_the_lattice_is_none() {
    let grid = Lattice::new(10, 8);
    assert_eq!(grid.clamp_region(20, 1, 30, 2), None);
    assert_eq!(grid.clamp_region(40, 40, 30, 30), None);
    assert_eq!(grid.clamp_region(1, 8, 2, 100), None);
    assert_eq!(grid.clamp_region(10, 0, 10, 0), None);
}

#[test]
fn mur_pairs_copy_interior_neighbours() {
    let grid = Lattice::new(3, 2);
    assert_eq!(
        grid.mur_pairs(),
        vec![
            (0, 1),
            (3, 4),
            (2, 1),
            (5, 4),
            (0, 3),
            (1, 4),
            (2, 5),
            (3, 0),
            (4, 1),
            (5, 2),
        ]
    );
    assert_eq!(Lattice::new(64, 64).mur_pairs().len(), 4 * 64);
}

#[test]
fn interior_lines_skip_the_edges() {
    let grid = Lattice::new(5, 4);
    assert_eq!(grid.interior_column(2), vec![7, 12]);
    assert_eq!(grid.interior_row(3), vec![16, 17, 18]);
    assert!(grid.interior_column(5).is_empty());
    assert!(grid.interior_row(4).is_empty());
    assert!(Lattice::new(5, 1).interior_column(0).is_empty());
    assert!(Lattice::new(2, 3).interior_row(1).is_empty());
}
