use photonlab_core::sources::array_positions;

#[test]
fn linear_array_elements_are_evenly_spaced() {
    assert_eq!(array_positions(4, 10, 3, 5), vec![(4, 10), (4, 15), (4, 20)]);
    assert!(array_positions(4, 10, 0, 5).is_empty());
    assert_eq!(array_positions(0, usize::MAX, 1, 7), vec![(0, usize::MAX)]);
}
